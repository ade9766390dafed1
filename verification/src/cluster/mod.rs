//! Cluster support that needs no consensus engine: the storage keys of
//! Raft groups, the timestamps of replicated records, the response and
//! queue-group changes of each committed entry, and what committed
//! enqueues, acks and nacks write to a node's storage.

pub mod apply;
pub mod convert;
pub mod keys;
pub mod replicate;
