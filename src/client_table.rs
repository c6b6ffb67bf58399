use vstd::prelude::*;

use crate::operation::OpResult;
use crate::types::{ClientID, RequestID};

verus! {

/// What the table remembers of a client: its last request and, once that request
/// has committed, its result.
#[derive(Clone, Copy, Debug, PartialEq, Eq)]
pub struct Entry {
    pub last_request_id: RequestID,
    pub last_result: Option<OpResult>,
}

/// The entry of a client that has just joined.
pub open spec fn fresh_entry() -> Entry {
    Entry { last_request_id: 0, last_result: None }
}

/// A `hashbrown` map from client identifiers to entries.
#[verifier::external_body]
pub struct ClientMap {
    m: hashbrown::HashMap<ClientID, Entry>,
}

/// What a [`ClientMap`] holds.
pub uninterp spec fn client_map_entries(m: ClientMap) -> Map<ClientID, Entry>;

impl ClientMap {
    /// Relies on `hashbrown::HashMap::new`: a new map holds nothing.
    #[verifier::external_body]
    fn new() -> (r: ClientMap)
        ensures
            client_map_entries(r).dom() == Set::<ClientID>::empty(),
    {
        ClientMap { m: hashbrown::HashMap::new() }
    }

    /// Relies on `hashbrown::HashMap::insert`: the key maps to the value afterwards,
    /// and the value it had before, if any, is handed back.
    #[verifier::external_body]
    fn insert(&mut self, k: ClientID, v: Entry) -> (r: Option<Entry>)
        ensures
            client_map_entries(*final(self)) == client_map_entries(*old(self)).insert(k, v),
            r == (if client_map_entries(*old(self)).contains_key(k) {
                Some(client_map_entries(*old(self))[k])
            } else {
                None
            }),
    {
        self.m.insert(k, v)
    }

    /// Relies on `hashbrown::HashMap::get`: the value of the key, if it has one.
    #[verifier::external_body]
    fn get(&self, k: ClientID) -> (r: Option<&Entry>)
        ensures
            match r {
                Some(e) => client_map_entries(*self).contains_key(k) && *e == client_map_entries(
                    *self,
                )[k],
                None => !client_map_entries(*self).contains_key(k),
            },
    {
        self.m.get(&k)
    }
}

/// Identifiers `1..=n` are exactly the keys of `m`.
pub open spec fn ids_contiguous(m: Map<ClientID, Entry>, n: nat) -> bool {
    forall|k: ClientID| m.contains_key(k) <==> 1 <= k <= n
}

/// The client session table: one entry per client that has joined, and one per
/// sender of a `Join`, by the identifier the sender used before it had joined.
pub struct ClienTable {
    table: ClientMap,
    joining: ClientMap,
    count: u64,
}

impl View for ClienTable {
    type V = Map<ClientID, Entry>;

    closed spec fn view(&self) -> Map<ClientID, Entry> {
        client_map_entries(self.table)
    }
}

impl ClienTable {
    /// Number of clients that have joined.
    pub closed spec fn size(&self) -> nat {
        self.count as nat
    }

    /// The entries of the senders of `Join` requests: the last `Join` of each and,
    /// once it has committed, its result.
    pub closed spec fn joins(&self) -> Map<ClientID, Entry> {
        client_map_entries(self.joining)
    }

    /// Well-formed: the clients are numbered `1..=size()`.
    pub open spec fn wf(&self) -> bool {
        ids_contiguous(self@, self.size())
    }

    /// A table without clients.
    pub fn new() -> (r: ClienTable)
        ensures
            r.wf(),
            r.size() == 0,
            r@ == Map::<ClientID, Entry>::empty(),
            r.joins() == Map::<ClientID, Entry>::empty(),
    {
        ClienTable { table: ClientMap::new(), joining: ClientMap::new(), count: 0 }
    }

    /// Number of clients that have joined.
    pub fn len(&self) -> (r: u64)
        ensures
            r == self.size(),
    {
        self.count
    }

    /// Registers a new client under the smallest unused identifier, which it returns.
    pub fn add_client(&mut self) -> (r: ClientID)
        requires
            old(self).wf(),
            old(self).size() < u64::MAX,
        ensures
            final(self).wf(),
            r == old(self).size() + 1,
            !old(self)@.contains_key(r),
            forall|k: ClientID| 1 <= k < r ==> old(self)@.contains_key(k),
            final(self).size() == old(self).size() + 1,
            final(self)@ == old(self)@.insert(r, fresh_entry()),
            final(self).joins() == old(self).joins(),
    {
        let id = self.count + 1;
        self.table.insert(id, Entry { last_request_id: 0, last_result: None });
        self.count = id;
        id
    }

    /// The entry of client `id`, if it has joined.
    pub fn find_client(&self, id: ClientID) -> (r: Option<&Entry>)
        ensures
            match r {
                Some(e) => self@.contains_key(id) && *e == self@[id],
                None => !self@.contains_key(id),
            },
    {
        self.table.get(id)
    }

    /// Records `result` as the outcome of request `request_number` of client `id`.
    pub fn update_client(&mut self, id: ClientID, request_number: RequestID, result: Option<OpResult>)
        requires
            old(self).wf(),
            old(self)@.contains_key(id),
        ensures
            final(self).wf(),
            final(self).size() == old(self).size(),
            final(self)@ == old(self)@.insert(
                id,
                Entry { last_request_id: request_number, last_result: result },
            ),
            final(self).joins() == old(self).joins(),
    {
        self.table.insert(id, Entry { last_request_id: request_number, last_result: result });
    }

    /// The entry of `sender` as the sender of a `Join`, if it has sent one.
    pub fn find_join(&self, sender: ClientID) -> (r: Option<&Entry>)
        ensures
            match r {
                Some(e) => self.joins().contains_key(sender) && *e == self.joins()[sender],
                None => !self.joins().contains_key(sender),
            },
    {
        self.joining.get(sender)
    }

    /// Records `result` as the outcome of the `Join` numbered `request_number` that
    /// `sender` sent.
    pub fn update_join(&mut self, sender: ClientID, request_number: RequestID, result: Option<OpResult>)
        requires
            old(self).wf(),
        ensures
            final(self).wf(),
            final(self).size() == old(self).size(),
            final(self)@ == old(self)@,
            final(self).joins() == old(self).joins().insert(
                sender,
                Entry { last_request_id: request_number, last_result: result },
            ),
    {
        self.joining.insert(sender, Entry { last_request_id: request_number, last_result: result });
    }
}

impl Default for ClienTable {
    fn default() -> (r: ClienTable)
        ensures
            r.wf(),
            r.size() == 0,
            r@ == Map::<ClientID, Entry>::empty(),
            r.joins() == Map::<ClientID, Entry>::empty(),
    {
        ClienTable::new()
    }
}

} // verus!
