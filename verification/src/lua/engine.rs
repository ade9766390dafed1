//! The decisions around one Lua script run: whether to run it at all, with
//! which limits, and what its outcome does to the queue's circuit breaker.
//! The caller runs the script between `begin_script_run` and
//! `finish_script_run`.

use vstd::prelude::*;
use crate::lua::safety::{failure_recorded, tripped_by_failure, QueueSafetyConfig, SafetyManager};
use crate::text::str_bytes;

verus! {

/// Outcome of a Lua script execution, surfaced to the scheduler for metric recording.
#[derive(Debug, Clone, Copy, PartialEq, Eq, Structural)]
pub enum LuaExecOutcome {
    /// Script executed successfully.
    Success,
    /// Script failed with an error. If `circuit_breaker_tripped` is true,
    /// this failure caused the circuit breaker to transition to open state.
    ScriptError { circuit_breaker_tripped: bool },
    /// Script was not executed because the circuit breaker is active.
    CircuitBreakerBypassed,
}

/// What to do about a queue's script.
#[derive(Debug, Clone, Copy, PartialEq, Eq, Structural)]
pub enum ScriptPlan {
    /// The queue has no script of this kind: use the caller's defaults.
    NoScript,
    /// The circuit breaker is open: skip the script and use defaults.
    Bypass,
    /// Run the script under these limits.
    Run { instruction_limit: u64, memory_limit_bytes: usize },
}

/// Decide whether and how to run a queue's script. A missing safety config
/// falls back to the global default limits (fail closed).
pub fn begin_script_run(safety: &mut SafetyManager, queue_id: &str, has_script: bool) -> (r: ScriptPlan)
    requires
        old(safety).wf(),
    ensures
        final(safety).wf(),
        final(safety).configs() == old(safety).configs(),
        final(safety).defaults() == old(safety).defaults(),
        !has_script ==> r == ScriptPlan::NoScript && final(safety).breakers() == old(safety).breakers(),
        has_script ==> r !is NoScript,
        r is Bypass ==> old(safety).breakers().contains_key(str_bytes(queue_id)) && old(safety).breakers()[str_bytes(
            queue_id,
        )].tripped(),
        r is Run && old(safety).breakers().contains_key(str_bytes(queue_id)) && old(safety).breakers()[str_bytes(
            queue_id,
        )].tripped() ==> final(safety).breakers() == old(safety).breakers().insert(
            str_bytes(queue_id),
            old(safety).breakers()[str_bytes(queue_id)].reset(),
        ),
        r is Run && !(old(safety).breakers().contains_key(str_bytes(queue_id)) && old(safety).breakers()[str_bytes(
            queue_id,
        )].tripped()) ==> final(safety).breakers() == old(safety).breakers(),
        has_script && !old(safety).breakers().contains_key(str_bytes(queue_id)) ==> r !is Bypass,
        has_script && old(safety).breakers().contains_key(str_bytes(queue_id)) && !old(safety).breakers()[str_bytes(queue_id)].tripped() ==> r !is Bypass,
        r is Bypass ==> final(safety).breakers() == old(safety).breakers(),
        r matches ScriptPlan::Run { instruction_limit, memory_limit_bytes } ==> {
            &&& old(safety).configs().contains_key(str_bytes(queue_id)) ==> old(safety).configs()[str_bytes(queue_id)] == (QueueSafetyConfig { instruction_limit, memory_limit_bytes })
            &&& !old(safety).configs().contains_key(str_bytes(queue_id)) ==> instruction_limit == old(safety).defaults().2 && memory_limit_bytes == old(safety).defaults().3
        },
{
    if !has_script {
        return ScriptPlan::NoScript;
    }
    if !safety.should_execute(queue_id) {
        return ScriptPlan::Bypass;
    }
    match safety.get_config(queue_id) {
        Some(config) => ScriptPlan::Run {
            instruction_limit: config.instruction_limit,
            memory_limit_bytes: config.memory_limit_bytes,
        },
        None => {
            let (instruction_limit, memory_limit_bytes) = safety.default_limits();
            ScriptPlan::Run { instruction_limit, memory_limit_bytes }
        },
    }
}

/// Record how a script run ended and report its outcome, with `before`
/// and `after` the times since the queue's breaker tripped, as in
/// `SafetyManager::record_failure_after`. A failed run reports whether this
/// failure tripped the breaker.
pub fn finish_script_run_after(
    safety: &mut SafetyManager,
    queue_id: &str,
    succeeded: bool,
    before: u64,
    after: u64,
) -> (r: LuaExecOutcome)
    requires
        old(safety).wf(),
        old(safety).breakers().contains_key(str_bytes(queue_id)) ==> old(safety).breakers()[str_bytes(queue_id)].failures() < u32::MAX,
    ensures
        final(safety).wf(),
        final(safety).configs() == old(safety).configs(),
        final(safety).defaults() == old(safety).defaults(),
        succeeded ==> r == LuaExecOutcome::Success,
        succeeded && old(safety).breakers().contains_key(str_bytes(queue_id)) ==> final(safety).breakers() == old(safety).breakers().insert(
            str_bytes(queue_id),
            old(safety).breakers()[str_bytes(queue_id)].reset(),
        ),
        succeeded && !old(safety).breakers().contains_key(str_bytes(queue_id)) ==> final(safety).breakers() == old(safety).breakers(),
        !succeeded ==> failure_recorded(*old(safety), *final(safety), str_bytes(queue_id)),
        !succeeded && old(safety).breakers().contains_key(str_bytes(queue_id)) ==> r == (LuaExecOutcome::ScriptError {
            circuit_breaker_tripped: tripped_by_failure(
                old(safety).breakers()[str_bytes(queue_id)],
                final(safety).breakers()[str_bytes(queue_id)],
                before,
                after,
            ),
        }),
        !succeeded && !old(safety).breakers().contains_key(str_bytes(queue_id)) ==> r == (LuaExecOutcome::ScriptError { circuit_breaker_tripped: false }),
{
    if succeeded {
        safety.record_success(queue_id);
        LuaExecOutcome::Success
    } else {
        let just_tripped = safety.record_failure_after(queue_id, before, after);
        LuaExecOutcome::ScriptError { circuit_breaker_tripped: just_tripped }
    }
}

/// Record how a script run ended and report its outcome: as
/// `finish_script_run_after`, with the times since the breaker tripped read
/// from the clock.
pub fn finish_script_run(safety: &mut SafetyManager, queue_id: &str, succeeded: bool) -> (r: LuaExecOutcome)
    requires
        old(safety).wf(),
        old(safety).breakers().contains_key(str_bytes(queue_id)) ==> old(safety).breakers()[str_bytes(queue_id)].failures() < u32::MAX,
    ensures
        final(safety).wf(),
        final(safety).configs() == old(safety).configs(),
        final(safety).defaults() == old(safety).defaults(),
        succeeded ==> r == LuaExecOutcome::Success,
        succeeded && old(safety).breakers().contains_key(str_bytes(queue_id)) ==> final(safety).breakers() == old(safety).breakers().insert(
            str_bytes(queue_id),
            old(safety).breakers()[str_bytes(queue_id)].reset(),
        ),
        !succeeded ==> r is ScriptError,
        !succeeded ==> failure_recorded(*old(safety), *final(safety), str_bytes(queue_id)),
        !succeeded && old(safety).breakers().contains_key(str_bytes(queue_id)) ==> {
            let b = old(safety).breakers()[str_bytes(queue_id)];
            let n = final(safety).breakers()[str_bytes(queue_id)];
            &&& n.failures() == b.failures() + 1
            &&& n.tripped() == (b.tripped() || n.failures() >= b.threshold())
            &&& exists|before: u64, after: u64|
                r == (LuaExecOutcome::ScriptError {
                    circuit_breaker_tripped: #[trigger] tripped_by_failure(b, n, before, after),
                })
        },
        !old(safety).breakers().contains_key(str_bytes(queue_id)) ==> final(safety).breakers() == old(safety).breakers(),
        !succeeded && !old(safety).breakers().contains_key(str_bytes(queue_id)) ==> r == (LuaExecOutcome::ScriptError { circuit_breaker_tripped: false }),
{
    if succeeded {
        safety.record_success(queue_id);
        LuaExecOutcome::Success
    } else {
        let just_tripped = safety.record_failure(queue_id);
        LuaExecOutcome::ScriptError { circuit_breaker_tripped: just_tripped }
    }
}

} // verus!
