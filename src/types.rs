use vstd::prelude::*;

verus! {

/// Index of a replica in the cluster configuration.
pub type ReplicaID = usize;

/// Identifier that the client session table hands out on `Join`.
pub type ClientID = u64;

/// Number a client gives to each of its requests.
pub type RequestID = u64;

/// Epoch with one designated primary.
pub type ViewNumber = u64;

/// Position of an operation in a replica's log, counted from 1.
pub type OpNumber = u64;

/// Highest op-number known to be committed.
pub type CommitID = u64;

} // verus!
