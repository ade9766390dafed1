//! Queue configuration.

use vstd::prelude::*;

verus! {

/// Queue configuration stored in the `queues` column family.
#[derive(Debug, Clone, PartialEq)]
pub struct QueueConfig {
    pub name: String,
    pub on_enqueue_script: Option<String>,
    pub on_failure_script: Option<String>,
    pub visibility_timeout_ms: u64,
    pub dlq_queue_id: Option<String>,
    /// Per-queue Lua timeout override (ms). If None, uses global default.
    pub lua_timeout_ms: Option<u64>,
    /// Per-queue Lua memory limit override (bytes). If None, uses global default.
    pub lua_memory_limit_bytes: Option<usize>,
}

impl QueueConfig {
    /// Default visibility timeout: 30 seconds.
    pub const DEFAULT_VISIBILITY_TIMEOUT_MS: u64 = 30_000;

    /// A queue named `name` with no scripts, no dead-letter queue, no Lua
    /// overrides and the default visibility timeout.
    pub fn new(name: String) -> (r: Self)
        ensures
            r == (QueueConfig {
                name,
                on_enqueue_script: None,
                on_failure_script: None,
                visibility_timeout_ms: 30_000,
                dlq_queue_id: None,
                lua_timeout_ms: None,
                lua_memory_limit_bytes: None,
            }),
    {
        Self {
            name,
            on_enqueue_script: None,
            on_failure_script: None,
            visibility_timeout_ms: Self::DEFAULT_VISIBILITY_TIMEOUT_MS,
            dlq_queue_id: None,
            lua_timeout_ms: None,
            lua_memory_limit_bytes: None,
        }
    }
}

} // verus!
