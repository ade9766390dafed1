//! Configuration of the log-structured storage engine.

use vstd::prelude::*;
use std::path::PathBuf;

verus! {

/// A filesystem path, carried through to the code that opens files.
#[verifier::external_type_specification]
#[verifier::external_body]
pub struct ExPathBuf(PathBuf);

/// `PathBuf::clone` gives a copy of the path, equal to it.
pub assume_specification[ <PathBuf as Clone>::clone ](p: &PathBuf) -> (r: PathBuf)
    ensures
        r == *p,
;

/// Sync mode for WAL writes.
#[derive(Debug, Clone, PartialEq, Eq, Structural)]
pub enum SyncMode {
    /// Fsync after every write_batch() call. Safest but slower.
    EveryBatch,
    /// Fsync at the given interval in milliseconds. Faster but slight
    /// durability risk on crash.
    Interval(u64),
}

impl Default for SyncMode {
    fn default() -> (r: Self)
        ensures
            r == SyncMode::EveryBatch,
    {
        SyncMode::EveryBatch
    }
}

/// Default size of a WAL segment: 64 MiB.
pub const DEFAULT_SEGMENT_SIZE_BYTES: u64 = 67_108_864;

/// Configuration for the Fila storage engine.
#[derive(Debug, Clone)]
pub struct FilaStorageConfig {
    /// Directory where WAL segment files are stored.
    pub data_dir: PathBuf,
    /// Maximum size of a single WAL segment in bytes. When exceeded, the
    /// current segment is sealed and a new one is created.
    pub segment_size_bytes: u64,
    /// How and when WAL writes are fsynced to disk.
    pub sync_mode: SyncMode,
}

impl FilaStorageConfig {
    /// A configuration for `data_dir` with 64 MiB segments, synced after
    /// every batch.
    pub fn new(data_dir: PathBuf) -> (r: Self)
        ensures
            r.data_dir == data_dir,
            r.segment_size_bytes == 64 * 1024 * 1024,
            r.sync_mode == SyncMode::EveryBatch,
    {
        Self { data_dir, segment_size_bytes: DEFAULT_SEGMENT_SIZE_BYTES, sync_mode: SyncMode::default() }
    }
}

} // verus!
