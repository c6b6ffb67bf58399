use vstd::prelude::*;

verus! {

/// A replicated command.
#[derive(Clone, Debug, PartialEq, Eq)]
pub enum Operation {
    Add { key: Vec<u8>, value: Vec<u8> },
    Update { key: Vec<u8>, value: Vec<u8> },
    Remove { key: Vec<u8> },
    Join,
}

/// Mathematical value of an [`Operation`].
pub enum OperationView {
    Add { key: Seq<u8>, value: Seq<u8> },
    Update { key: Seq<u8>, value: Seq<u8> },
    Remove { key: Seq<u8> },
    Join,
}

impl View for Operation {
    type V = OperationView;

    open spec fn view(&self) -> OperationView {
        match self {
            Operation::Add { key, value } => OperationView::Add { key: key@, value: value@ },
            Operation::Update { key, value } => OperationView::Update { key: key@, value: value@ },
            Operation::Remove { key } => OperationView::Remove { key: key@ },
            Operation::Join => OperationView::Join,
        }
    }
}

/// A copy of a byte vector.
pub fn copy_bytes(b: &Vec<u8>) -> (r: Vec<u8>)
    ensures
        r@ == b@,
{
    let mut r: Vec<u8> = Vec::with_capacity(b.len());
    let mut i: usize = 0;
    while i < b.len()
        invariant
            i <= b@.len(),
            r@ == b@.subrange(0, i as int),
        decreases b@.len() - i,
    {
        r.push(b[i]);
        i = i + 1;
    }
    assert(r@ =~= b@);
    r
}

impl Operation {
    /// A copy of the operation with the same keys and values.
    pub fn duplicate(&self) -> (r: Operation)
        ensures
            r@ == self@,
    {
        match self {
            Operation::Add { key, value } => Operation::Add { key: copy_bytes(key), value: copy_bytes(value) },
            Operation::Update { key, value } => Operation::Update {
                key: copy_bytes(key),
                value: copy_bytes(value),
            },
            Operation::Remove { key } => Operation::Remove { key: copy_bytes(key) },
            Operation::Join => Operation::Join,
        }
    }

    pub fn is_join(&self) -> (r: bool)
        ensures
            r == (self@ is Join),
    {
        match self {
            Operation::Join => true,
            _ => false,
        }
    }
}

/// The outcome of a committed operation, or `Outdated` for a stale request.
#[derive(Clone, Copy, Debug, PartialEq, Eq)]
pub enum OpResult {
    AddResult(Result<(), ()>),
    UpdateResult(Result<(), ()>),
    RemoveResult(Result<(), ()>),
    JoinResult(Result<u64, ()>),
    Outdated,
}

} // verus!
