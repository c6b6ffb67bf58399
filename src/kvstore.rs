use vstd::prelude::*;

use crate::operation::{copy_bytes, OpResult, Operation, OperationView};

verus! {

/// A `hashbrown` map from keys to values.
#[verifier::external_body]
pub struct ByteMap {
    m: hashbrown::HashMap<Vec<u8>, Vec<u8>>,
}

/// What a [`ByteMap`] holds, keys and values as byte sequences.
pub uninterp spec fn byte_map_entries(m: ByteMap) -> Map<Seq<u8>, Seq<u8>>;

impl ByteMap {
    /// Relies on `hashbrown::HashMap::new`: a new map holds nothing.
    #[verifier::external_body]
    fn new() -> (r: ByteMap)
        ensures
            byte_map_entries(r).dom() == Set::<Seq<u8>>::empty(),
    {
        ByteMap { m: hashbrown::HashMap::new() }
    }

    /// Relies on `hashbrown::HashMap::insert`: the key maps to the value afterwards.
    /// Byte vectors are equal exactly when their contents are.
    #[verifier::external_body]
    fn insert(&mut self, k: Vec<u8>, v: Vec<u8>)
        ensures
            byte_map_entries(*final(self)) == byte_map_entries(*old(self)).insert(k@, v@),
    {
        self.m.insert(k, v);
    }

    /// Relies on `hashbrown::HashMap::contains_key`: whether the key has a value.
    #[verifier::external_body]
    fn contains_key(&self, k: &Vec<u8>) -> (r: bool)
        ensures
            r == byte_map_entries(*self).contains_key(k@),
    {
        self.m.contains_key(k)
    }

    /// Relies on `hashbrown::HashMap::get`: the value of the key, if it has one.
    #[verifier::external_body]
    fn get(&self, k: &Vec<u8>) -> (r: Option<&Vec<u8>>)
        ensures
            match r {
                Some(v) => byte_map_entries(*self).contains_key(k@) && v@ == byte_map_entries(
                    *self,
                )[k@],
                None => !byte_map_entries(*self).contains_key(k@),
            },
    {
        self.m.get(k)
    }

    /// Relies on `hashbrown::HashMap::remove`: the key has no value afterwards.
    #[verifier::external_body]
    fn remove(&mut self, k: &Vec<u8>)
        ensures
            byte_map_entries(*final(self)) == byte_map_entries(*old(self)).remove(k@),
    {
        self.m.remove(k);
    }
}

/// The key/value store after an operation, and the operation's result.
/// `Add` needs an absent key, `Update` and `Remove` a present one; otherwise the
/// store is left as it is and the result is an error. `Join` is no store
/// operation: it leaves the store alone and its result is an error.
pub open spec fn store_apply(m: Map<Seq<u8>, Seq<u8>>, op: OperationView) -> (Map<
    Seq<u8>,
    Seq<u8>,
>, OpResult) {
    match op {
        OperationView::Add { key, value } => if m.contains_key(key) {
            (m, OpResult::AddResult(Err(())))
        } else {
            (m.insert(key, value), OpResult::AddResult(Ok(())))
        },
        OperationView::Update { key, value } => if m.contains_key(key) {
            (m.insert(key, value), OpResult::UpdateResult(Ok(())))
        } else {
            (m, OpResult::UpdateResult(Err(())))
        },
        OperationView::Remove { key } => if m.contains_key(key) {
            (m.remove(key), OpResult::RemoveResult(Ok(())))
        } else {
            (m, OpResult::RemoveResult(Err(())))
        },
        OperationView::Join => (m, OpResult::JoinResult(Err(()))),
    }
}

/// The key/value state machine that committed operations are applied to.
pub struct KVStore {
    store: ByteMap,
}

impl View for KVStore {
    type V = Map<Seq<u8>, Seq<u8>>;

    closed spec fn view(&self) -> Map<Seq<u8>, Seq<u8>> {
        byte_map_entries(self.store)
    }
}

impl KVStore {
    /// An empty store.
    pub fn new() -> (r: KVStore)
        ensures
            r@ == Map::<Seq<u8>, Seq<u8>>::empty(),
    {
        KVStore { store: ByteMap::new() }
    }

    /// Stores `v` under the absent key `k`; a present key is an error and changes nothing.
    pub fn set(&mut self, k: Vec<u8>, v: Vec<u8>) -> (r: Result<(), ()>)
        ensures
            r == (if old(self)@.contains_key(k@) { Err(()) } else { Ok(()) }),
            final(self)@ == (if r is Ok {
                old(self)@.insert(k@, v@)
            } else {
                old(self)@
            }),
    {
        if self.store.contains_key(&k) {
            Err(())
        } else {
            self.store.insert(k, v);
            Ok(())
        }
    }

    /// Replaces the value of the present key `k`; an absent key is an error and changes nothing.
    pub fn update(&mut self, k: Vec<u8>, v: Vec<u8>) -> (r: Result<(), ()>)
        ensures
            r == (if old(self)@.contains_key(k@) { Ok(()) } else { Err(()) }),
            final(self)@ == (if r is Ok {
                old(self)@.insert(k@, v@)
            } else {
                old(self)@
            }),
    {
        if self.store.contains_key(&k) {
            self.store.insert(k, v);
            Ok(())
        } else {
            Err(())
        }
    }

    /// The value stored under `k`, if any.
    pub fn get(&self, k: &Vec<u8>) -> (r: Option<&Vec<u8>>)
        ensures
            match r {
                Some(v) => self@.contains_key(k@) && v@ == self@[k@],
                None => !self@.contains_key(k@),
            },
    {
        self.store.get(k)
    }

    /// Removes the present key `k`; an absent key is an error and changes nothing.
    pub fn remove(&mut self, k: &Vec<u8>) -> (r: Result<(), ()>)
        ensures
            r == (if old(self)@.contains_key(k@) { Ok(()) } else { Err(()) }),
            final(self)@ == (if r is Ok {
                old(self)@.remove(k@)
            } else {
                old(self)@
            }),
    {
        if self.store.contains_key(k) {
            self.store.remove(k);
            Ok(())
        } else {
            Err(())
        }
    }

    /// Applies a key/value operation and returns its result.
    pub fn apply(&mut self, op: &Operation) -> (r: OpResult)
        ensures
            (final(self)@, r) == store_apply(old(self)@, op@),
    {
        match op {
            Operation::Add { key, value } => OpResult::AddResult(
                self.set(copy_bytes(key), copy_bytes(value)),
            ),
            Operation::Update { key, value } => OpResult::UpdateResult(
                self.update(copy_bytes(key), copy_bytes(value)),
            ),
            Operation::Remove { key } => OpResult::RemoveResult(self.remove(key)),
            Operation::Join => OpResult::JoinResult(Err(())),
        }
    }
}

} // verus!
