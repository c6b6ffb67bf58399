//! Normal-case replication engine of a viewstamped-replication style protocol:
//! the cluster configuration, the operation log, the client session table, the
//! quorum tracker, the key/value state machine and the replica that drives them.
use vstd::prelude::*;

pub mod types;
pub mod operation;
pub mod message;
pub mod log;
pub mod configuration;
pub mod client_table;
pub mod kvstore;
pub mod quorum;
pub mod replica;
pub mod client;
pub mod utils;
pub mod framing;

verus! {

} // verus!
