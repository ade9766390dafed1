//! Per-queue circuit breakers and safety limits for Lua scripts.

use vstd::prelude::*;
use std::time::Instant;
use crate::storage::ordered::ByteMap;
use crate::text::{str_bytes, str_to_vec};

verus! {

#[verifier::external_type_specification]
#[verifier::external_body]
pub struct ExInstant(std::time::Instant);

/// Wraps `Instant::now`: the current monotonic time. Nothing is promised of it.
#[verifier::external_body]
fn instant_now() -> Instant {
    Instant::now()
}

/// Wraps `Instant::elapsed`: whole milliseconds since `t`, truncated to
/// `u64`. It depends on the clock, so nothing is promised of it.
#[verifier::external_body]
fn elapsed_ms(t: &Instant) -> u64 {
    t.elapsed().as_millis() as u64
}

/// Approximate instructions per millisecond for timeout calibration.
pub const INSTRUCTIONS_PER_MS: u64 = 10_000;

/// How many instructions run between two checks of the instruction budget.
pub const INSTRUCTION_HOOK_BATCH: u32 = 100;

/// Whether a script's instruction budget is spent: `counted` instructions
/// have run before the current batch of `batch`, and together they reach
/// `limit`.
pub fn instruction_limit_reached(counted: u64, batch: u32, limit: u64) -> (r: bool)
    requires
        counted + batch <= u64::MAX,
    ensures
        r == (counted + batch >= limit),
{
    counted + batch as u64 >= limit
}

/// Circuit breaker state for a single queue's Lua script.
///
/// Tracks consecutive failures and trips (bypasses Lua) when the threshold
/// is reached. After a cooldown period, Lua execution is retried.
#[derive(Clone, Copy)]
pub struct CircuitBreaker {
    consecutive_failures: u32,
    threshold: u32,
    cooldown_ms: u64,
    tripped_at: Option<Instant>,
}

impl CircuitBreaker {
    /// Consecutive failures recorded since the last success or reset.
    pub closed spec fn failures(&self) -> u32 {
        self.consecutive_failures
    }

    /// Failures that trip the breaker.
    pub closed spec fn threshold(&self) -> u32 {
        self.threshold
    }

    /// How long a tripped breaker bypasses Lua.
    pub closed spec fn cooldown(&self) -> u64 {
        self.cooldown_ms
    }

    /// The breaker with its failure count cleared and untripped.
    pub closed spec fn reset(self) -> CircuitBreaker {
        CircuitBreaker { consecutive_failures: 0, tripped_at: None, ..self }
    }

    /// The breaker has tripped and not been reset since.
    pub closed spec fn tripped(&self) -> bool {
        self.tripped_at is Some
    }

    /// Lua may run when `elapsed` milliseconds have passed since the trip:
    /// the breaker is untripped, or its cooldown is over.
    pub open spec fn runs_after(&self, elapsed: u64) -> bool {
        !self.tripped() || elapsed >= self.cooldown()
    }

    /// The breaker counts as tripped when `elapsed` milliseconds have passed
    /// since the trip: it is tripped and its cooldown is not over.
    pub open spec fn tripped_after(&self, elapsed: u64) -> bool {
        self.tripped() && elapsed < self.cooldown()
    }

    pub fn new(threshold: u32, cooldown_ms: u64) -> (r: Self)
        ensures
            r.failures() == 0,
            r.threshold() == threshold,
            r.cooldown() == cooldown_ms,
            !r.tripped(),
    {
        Self { consecutive_failures: 0, threshold, cooldown_ms, tripped_at: None }
    }

    /// Milliseconds since the breaker tripped, read from the clock; 0 when it
    /// has not tripped.
    fn elapsed_since_trip(&self) -> u64 {
        match &self.tripped_at {
            Some(t) => elapsed_ms(t),
            None => 0,
        }
    }

    /// Whether Lua may run given how long ago the breaker tripped.
    pub fn should_execute_after(&self, elapsed: u64) -> (r: bool)
        ensures
            r == self.runs_after(elapsed),
            r == (!self.tripped() || elapsed >= self.cooldown()),
    {
        match self.tripped_at {
            None => true,
            Some(_) => elapsed >= self.cooldown_ms,
        }
    }

    /// Returns true if Lua should be executed (breaker not tripped or cooldown expired).
    /// Whether a tripped breaker's cooldown has passed is read from the clock,
    /// so only the answers the clock cannot change are stated.
    pub fn should_execute(&self) -> (r: bool)
        ensures
            exists|elapsed: u64| r == #[trigger] self.runs_after(elapsed),
            !self.tripped() ==> r,
            self.cooldown() == 0 ==> r,
    {
        let elapsed = self.elapsed_since_trip();
        self.should_execute_after(elapsed)
    }

    /// Record a successful Lua execution. Resets the failure counter and clears
    /// the tripped state.
    pub fn record_success(&mut self)
        ensures
            *final(self) == old(self).reset(),
            final(self).failures() == 0,
            !final(self).tripped(),
            final(self).threshold() == old(self).threshold(),
            final(self).cooldown() == old(self).cooldown(),
    {
        self.consecutive_failures = 0;
        self.tripped_at = None;
    }

    /// Record a failed Lua execution. Increments the failure counter and trips
    /// the breaker (restarting its cooldown) if the threshold is reached.
    pub fn record_failure(&mut self)
        requires
            old(self).failures() < u32::MAX,
        ensures
            failure_step(*old(self), *final(self)),
            final(self).failures() == old(self).failures() + 1,
            final(self).tripped() == (old(self).tripped() || final(self).failures() >= old(self).threshold()),
            final(self).threshold() == old(self).threshold(),
            final(self).cooldown() == old(self).cooldown(),
    {
        self.consecutive_failures = self.consecutive_failures + 1;
        if self.consecutive_failures >= self.threshold {
            self.tripped_at = Some(instant_now());
        }
    }

    /// Returns true if the circuit breaker is currently tripped (bypassing Lua).
    /// As for `should_execute`, the cooldown is read from the clock.
    pub fn is_tripped(&self) -> (r: bool)
        ensures
            exists|elapsed: u64| r == #[trigger] self.tripped_after(elapsed),
            !self.tripped() ==> !r,
            self.cooldown() == 0 ==> !r,
    {
        let elapsed = self.elapsed_since_trip();
        self.is_tripped_after(elapsed)
    }

    /// Whether the breaker counts as tripped given how long ago it tripped.
    pub fn is_tripped_after(&self, elapsed: u64) -> (r: bool)
        ensures
            r == self.tripped_after(elapsed),
            r == (self.tripped() && elapsed < self.cooldown()),
    {
        self.tripped_at.is_some() && !self.should_execute_after(elapsed)
    }

    /// Enter half-open state: reset the failure counter so the breaker gives
    /// a fresh threshold of attempts before re-tripping.
    fn enter_half_open(&mut self)
        ensures
            *final(self) == old(self).reset(),
            final(self).failures() == 0,
            !final(self).tripped(),
            final(self).threshold() == old(self).threshold(),
            final(self).cooldown() == old(self).cooldown(),
    {
        self.consecutive_failures = 0;
        self.tripped_at = None;
    }
}

/// A reset breaker starts a fresh threshold: it has no failures, is not
/// tripped, and keeps its threshold and cooldown.
pub proof fn lemma_reset_fields(b: CircuitBreaker)
    ensures
        b.reset().failures() == 0,
        !b.reset().tripped(),
        b.reset().threshold() == b.threshold(),
        b.reset().cooldown() == b.cooldown(),
{
}

/// After a half-open reset the breaker gives a fresh threshold: the first
/// failure that follows counts once, and trips the breaker only when the
/// threshold is at most one.
pub proof fn law_half_open_gives_fresh_threshold(b: CircuitBreaker, n: CircuitBreaker)
    requires
        failure_step(b.reset(), n),
    ensures
        n.failures() == 1,
        n.tripped() == (b.threshold() <= 1),
{
    lemma_reset_fields(b);
}

/// At one moment, a breaker counts as tripped exactly when Lua may not run:
/// `is_tripped` and `should_execute` agree on every elapsed time.
pub proof fn law_tripped_iff_not_running(b: CircuitBreaker, elapsed: u64)
    ensures
        b.tripped_after(elapsed) == !b.runs_after(elapsed),
{
}

/// What one recorded failure does to a breaker: one more consecutive
/// failure, and tripped once the count reaches the threshold.
pub open spec fn failure_step(b: CircuitBreaker, n: CircuitBreaker) -> bool {
    &&& n.failures() == b.failures() + 1
    &&& n.tripped() == (b.tripped() || n.failures() >= b.threshold())
    &&& n.threshold() == b.threshold()
    &&& n.cooldown() == b.cooldown()
}

/// A breaker trips exactly when its consecutive failures reach the
/// threshold: along a run of failures from a fresh or reset breaker, the
/// breaker after `k` failures is tripped just when `k` is at least one and
/// at least the threshold.
pub proof fn law_breaker_trips_at_threshold(run: Seq<CircuitBreaker>)
    requires
        run.len() >= 1,
        run[0].failures() == 0,
        !run[0].tripped(),
        forall|i: int| 0 <= i < run.len() - 1 ==> #[trigger] failure_step(run[i], run[i + 1]),
    ensures
        forall|k: int| 0 <= k < run.len() ==> #[trigger] run[k].tripped() == (k >= 1 && k >= run[0].threshold()),
        forall|k: int| 0 <= k < run.len() ==> #[trigger] run[k].failures() == k,
{
    assert forall|k: int| 0 <= k < run.len() implies run[k].failures() == k && run[k].threshold() == run[0].threshold()
        && run[k].tripped() == (k >= 1 && k >= run[0].threshold()) by {
        lemma_failure_run(run, k);
    }
}

proof fn lemma_failure_run(run: Seq<CircuitBreaker>, k: int)
    requires
        0 <= k < run.len(),
        run[0].failures() == 0,
        !run[0].tripped(),
        forall|i: int| 0 <= i < run.len() - 1 ==> #[trigger] failure_step(run[i], run[i + 1]),
    ensures
        run[k].failures() == k,
        run[k].threshold() == run[0].threshold(),
        run[k].tripped() == (k >= 1 && k >= run[0].threshold()),
    decreases k,
{
    if k > 0 {
        lemma_failure_run(run, k - 1);
        assert(failure_step(run[k - 1], run[k]));
    }
}

/// What a breaker check of queue `q` with `elapsed` milliseconds since its
/// trip does: a queue without a breaker runs and nothing changes;
/// otherwise Lua runs exactly when the breaker runs after `elapsed`, and a
/// tripped breaker that lets Lua run is reset (half-open), every other
/// breaker staying as it was.
pub open spec fn execution_check(old: SafetyManager, new: SafetyManager, q: Seq<u8>, elapsed: u64, r: bool) -> bool {
    if !old.breakers().contains_key(q) {
        r && new.breakers() == old.breakers()
    } else {
        let b = old.breakers()[q];
        &&& r == b.runs_after(elapsed)
        &&& (b.tripped() && r ==> new.breakers() == old.breakers().insert(q, b.reset()))
        &&& (!(b.tripped() && r) ==> new.breakers() == old.breakers())
    }
}

/// A failure tripped the breaker: it did not count as tripped `before`
/// milliseconds after its last trip, when the failure came, and counts as
/// tripped `after` milliseconds after its trip once the failure is recorded.
pub open spec fn tripped_by_failure(b: CircuitBreaker, n: CircuitBreaker, before: u64, after: u64) -> bool {
    !b.tripped_after(before) && n.tripped_after(after)
}

/// What recording a failure of queue `q` does to the breakers: nothing
/// without a breaker; otherwise one failure step on `q`'s breaker, every
/// other breaker staying as it was.
pub open spec fn failure_recorded(old: SafetyManager, new: SafetyManager, q: Seq<u8>) -> bool {
    if !old.breakers().contains_key(q) {
        new.breakers() == old.breakers()
    } else {
        &&& new.breakers().dom() == old.breakers().dom()
        &&& forall|k: Seq<u8>| k != q && #[trigger] old.breakers().contains_key(k) ==> new.breakers()[k] == old.breakers()[k]
        &&& failure_step(old.breakers()[q], new.breakers()[q])
    }
}

/// Lua limits and circuit-breaker settings of the broker.
#[derive(Debug, Clone, Copy)]
pub struct LuaConfig {
    /// Script timeout in milliseconds, turned into an instruction budget.
    pub default_timeout_ms: u64,
    /// Memory a script may allocate, in bytes.
    pub default_memory_limit_bytes: usize,
    /// Consecutive failures that trip a queue's breaker.
    pub circuit_breaker_threshold: u32,
    /// How long a tripped breaker bypasses Lua, in milliseconds.
    pub circuit_breaker_cooldown_ms: u64,
}

impl Default for LuaConfig {
    fn default() -> (r: Self)
        ensures
            r.default_timeout_ms == 10,
            r.default_memory_limit_bytes == 1_048_576,
            r.circuit_breaker_threshold == 3,
            r.circuit_breaker_cooldown_ms == 10_000,
    {
        LuaConfig {
            default_timeout_ms: 10,
            default_memory_limit_bytes: 1_048_576,
            circuit_breaker_threshold: 3,
            circuit_breaker_cooldown_ms: 10_000,
        }
    }
}

/// Per-queue safety configuration (effective values after resolving defaults).
#[derive(Debug, Clone, Copy, PartialEq, Eq, Structural)]
pub struct QueueSafetyConfig {
    /// Instruction count limit for script execution timeout.
    pub instruction_limit: u64,
    /// Memory limit in bytes for script execution.
    pub memory_limit_bytes: usize,
}

/// Manages per-queue circuit breakers and safety configuration.
pub struct SafetyManager {
    breakers: ByteMap<CircuitBreaker>,
    queue_configs: ByteMap<QueueSafetyConfig>,
    default_threshold: u32,
    default_cooldown_ms: u64,
    default_instruction_limit: u64,
    default_memory_limit_bytes: usize,
}

impl SafetyManager {
    /// Circuit breakers by the UTF-8 bytes of their queue id.
    pub closed spec fn breakers(&self) -> Map<Seq<u8>, CircuitBreaker> {
        self.breakers.view()
    }

    /// Effective safety limits by the UTF-8 bytes of their queue id.
    pub closed spec fn configs(&self) -> Map<Seq<u8>, QueueSafetyConfig> {
        self.queue_configs.view()
    }

    /// The global defaults: breaker threshold, cooldown, instruction and memory limits.
    pub closed spec fn defaults(&self) -> (u32, u64, u64, usize) {
        (self.default_threshold, self.default_cooldown_ms, self.default_instruction_limit, self.default_memory_limit_bytes)
    }

    pub closed spec fn wf(&self) -> bool {
        self.breakers.wf() && self.queue_configs.wf()
    }

    pub fn new(lua_config: &LuaConfig) -> (r: Self)
        requires
            lua_config.default_timeout_ms * INSTRUCTIONS_PER_MS <= u64::MAX,
        ensures
            r.wf(),
            r.breakers() == Map::<Seq<u8>, CircuitBreaker>::empty(),
            r.configs() == Map::<Seq<u8>, QueueSafetyConfig>::empty(),
            r.defaults() == (
                lua_config.circuit_breaker_threshold,
                lua_config.circuit_breaker_cooldown_ms,
                (lua_config.default_timeout_ms * INSTRUCTIONS_PER_MS) as u64,
                lua_config.default_memory_limit_bytes,
            ),
    {
        Self {
            breakers: ByteMap::new(),
            queue_configs: ByteMap::new(),
            default_threshold: lua_config.circuit_breaker_threshold,
            default_cooldown_ms: lua_config.circuit_breaker_cooldown_ms,
            default_instruction_limit: lua_config.default_timeout_ms * INSTRUCTIONS_PER_MS,
            default_memory_limit_bytes: lua_config.default_memory_limit_bytes,
        }
    }

    /// Register a queue with optional per-queue overrides. A fresh circuit
    /// breaker replaces any earlier one.
    pub fn register_queue(&mut self, queue_id: &str, timeout_ms: Option<u64>, memory_limit_bytes: Option<usize>)
        requires
            old(self).wf(),
            timeout_ms matches Some(ms) ==> ms * INSTRUCTIONS_PER_MS <= u64::MAX,
        ensures
            final(self).wf(),
            final(self).defaults() == old(self).defaults(),
            final(self).configs() == old(self).configs().insert(
                str_bytes(queue_id),
                QueueSafetyConfig {
                    instruction_limit: match timeout_ms {
                        Some(ms) => (ms * INSTRUCTIONS_PER_MS) as u64,
                        None => old(self).defaults().2,
                    },
                    memory_limit_bytes: match memory_limit_bytes {
                        Some(m) => m,
                        None => old(self).defaults().3,
                    },
                },
            ),
            final(self).breakers().dom() == old(self).breakers().dom().insert(str_bytes(queue_id)),
            forall|k: Seq<u8>| k != str_bytes(queue_id) && #[trigger] old(self).breakers().contains_key(k) ==> final(self).breakers()[k] == old(self).breakers()[k],
            ({
                let b = final(self).breakers()[str_bytes(queue_id)];
                b.failures() == 0 && !b.tripped() && b.threshold() == old(self).defaults().0 && b.cooldown() == old(self).defaults().1
            }),
    {
        let instruction_limit = match timeout_ms {
            Some(ms) => ms * INSTRUCTIONS_PER_MS,
            None => self.default_instruction_limit,
        };
        let memory = match memory_limit_bytes {
            Some(m) => m,
            None => self.default_memory_limit_bytes,
        };
        self.queue_configs.insert(
            str_to_vec(queue_id),
            QueueSafetyConfig { instruction_limit, memory_limit_bytes: memory },
        );
        let cb = CircuitBreaker::new(self.default_threshold, self.default_cooldown_ms);
        self.breakers.insert(str_to_vec(queue_id), cb);
        assert(self.breakers().dom() =~= old(self).breakers().dom().insert(str_bytes(queue_id)));
    }

    /// Remove a queue's circuit breaker and safety config.
    pub fn remove_queue(&mut self, queue_id: &str)
        requires
            old(self).wf(),
        ensures
            final(self).wf(),
            final(self).defaults() == old(self).defaults(),
            final(self).breakers() == old(self).breakers().remove(str_bytes(queue_id)),
            final(self).configs() == old(self).configs().remove(str_bytes(queue_id)),
    {
        self.breakers.remove(queue_id.as_bytes());
        self.queue_configs.remove(queue_id.as_bytes());
    }

    /// Whether Lua may run for a queue when `elapsed` milliseconds have
    /// passed since its breaker tripped. When a tripped breaker's cooldown is
    /// over (half-open state), this resets the failure counter so the breaker
    /// gives a fresh threshold of attempts before re-tripping. Queues without
    /// a breaker always run.
    pub fn should_execute_after(&mut self, queue_id: &str, elapsed: u64) -> (r: bool)
        requires
            old(self).wf(),
        ensures
            final(self).wf(),
            final(self).defaults() == old(self).defaults(),
            final(self).configs() == old(self).configs(),
            execution_check(*old(self), *final(self), str_bytes(queue_id), elapsed, r),
            old(self).breakers().contains_key(str_bytes(queue_id)) && r ==> {
                let b = old(self).breakers()[str_bytes(queue_id)];
                let n = final(self).breakers()[str_bytes(queue_id)];
                &&& b.tripped() ==> n.failures() == 0 && !n.tripped()
                &&& n.threshold() == b.threshold() && n.cooldown() == b.cooldown()
            },
    {
        proof {
            if old(self).breakers().contains_key(str_bytes(queue_id)) {
                lemma_reset_fields(old(self).breakers()[str_bytes(queue_id)]);
            }
        }
        match self.breakers.get(queue_id.as_bytes()) {
            Some(cb_ref) => {
                let mut cb = *cb_ref;
                if cb.should_execute_after(elapsed) {
                    if cb.tripped_at.is_some() {
                        cb.enter_half_open();
                        self.breakers.insert(str_to_vec(queue_id), cb);
                    }
                    true
                } else {
                    false
                }
            },
            None => true,
        }
    }

    /// Check if Lua should be executed for the given queue (circuit breaker
    /// check): `should_execute_after` with the time since the breaker
    /// tripped, read from the clock.
    pub fn should_execute(&mut self, queue_id: &str) -> (r: bool)
        requires
            old(self).wf(),
        ensures
            final(self).wf(),
            final(self).defaults() == old(self).defaults(),
            final(self).configs() == old(self).configs(),
            exists|elapsed: u64| #[trigger] execution_check(*old(self), *final(self), str_bytes(queue_id), elapsed, r),
            !old(self).breakers().contains_key(str_bytes(queue_id)) ==> r && final(self).breakers() == old(self).breakers(),
            old(self).breakers().contains_key(str_bytes(queue_id)) ==> {
                let b = old(self).breakers()[str_bytes(queue_id)];
                &&& !b.tripped() ==> r && final(self).breakers() == old(self).breakers()
                &&& b.tripped() && r ==> final(self).breakers() == old(self).breakers().insert(
                    str_bytes(queue_id),
                    b.reset(),
                )
                &&& !r ==> final(self).breakers() == old(self).breakers()
            },
    {
        let elapsed = match self.breakers.get(queue_id.as_bytes()) {
            Some(cb) => cb.elapsed_since_trip(),
            None => 0,
        };
        let r = self.should_execute_after(queue_id, elapsed);
        assert(execution_check(*old(self), *self, str_bytes(queue_id), elapsed, r));
        r
    }

    /// Record a successful Lua execution for the given queue.
    pub fn record_success(&mut self, queue_id: &str)
        requires
            old(self).wf(),
        ensures
            final(self).wf(),
            final(self).defaults() == old(self).defaults(),
            final(self).configs() == old(self).configs(),
            !old(self).breakers().contains_key(str_bytes(queue_id)) ==> final(self).breakers() == old(self).breakers(),
            old(self).breakers().contains_key(str_bytes(queue_id)) ==> final(self).breakers() == old(self).breakers().insert(
                str_bytes(queue_id),
                old(self).breakers()[str_bytes(queue_id)].reset(),
            ),
    {
        match self.breakers.get(queue_id.as_bytes()) {
            Some(cb_ref) => {
                let mut cb = *cb_ref;
                cb.record_success();
                self.breakers.insert(str_to_vec(queue_id), cb);
            },
            None => {},
        }
    }

    /// Record a failed Lua execution for the given queue, with `before`
    /// milliseconds passed since its breaker's last trip when the failure
    /// comes and `after` since its trip once recorded. Returns true when the
    /// breaker counted as tripped after the failure and not before: this
    /// failure tripped it.
    pub fn record_failure_after(&mut self, queue_id: &str, before: u64, after: u64) -> (r: bool)
        requires
            old(self).wf(),
            old(self).breakers().contains_key(str_bytes(queue_id)) ==> old(self).breakers()[str_bytes(queue_id)].failures() < u32::MAX,
        ensures
            final(self).wf(),
            final(self).defaults() == old(self).defaults(),
            final(self).configs() == old(self).configs(),
            failure_recorded(*old(self), *final(self), str_bytes(queue_id)),
            old(self).breakers().contains_key(str_bytes(queue_id)) ==> r == tripped_by_failure(
                old(self).breakers()[str_bytes(queue_id)],
                final(self).breakers()[str_bytes(queue_id)],
                before,
                after,
            ),
            !old(self).breakers().contains_key(str_bytes(queue_id)) ==> !r,
    {
        match self.breakers.get(queue_id.as_bytes()) {
            Some(cb_ref) => {
                let mut cb = *cb_ref;
                let was_tripped = cb.is_tripped_after(before);
                cb.record_failure();
                let now_tripped = cb.is_tripped_after(after);
                self.breakers.insert(str_to_vec(queue_id), cb);
                assert(self.breakers().dom() =~= old(self).breakers().dom());
                !was_tripped && now_tripped
            },
            None => false,
        }
    }

    /// Record a failed Lua execution for the given queue. Returns true if the
    /// circuit breaker just tripped (threshold reached): as
    /// `record_failure_after`, with both times read from the clock.
    pub fn record_failure(&mut self, queue_id: &str) -> (r: bool)
        requires
            old(self).wf(),
            old(self).breakers().contains_key(str_bytes(queue_id)) ==> old(self).breakers()[str_bytes(queue_id)].failures() < u32::MAX,
        ensures
            final(self).wf(),
            final(self).defaults() == old(self).defaults(),
            final(self).configs() == old(self).configs(),
            failure_recorded(*old(self), *final(self), str_bytes(queue_id)),
            old(self).breakers().contains_key(str_bytes(queue_id)) ==> exists|before: u64, after: u64|
                r == #[trigger] tripped_by_failure(
                    old(self).breakers()[str_bytes(queue_id)],
                    final(self).breakers()[str_bytes(queue_id)],
                    before,
                    after,
                ),
            !old(self).breakers().contains_key(str_bytes(queue_id)) ==> !r,
            old(self).breakers().contains_key(str_bytes(queue_id)) ==> {
                let b = old(self).breakers()[str_bytes(queue_id)];
                let n = final(self).breakers()[str_bytes(queue_id)];
                &&& final(self).breakers().dom() == old(self).breakers().dom()
                &&& forall|k: Seq<u8>| k != str_bytes(queue_id) && #[trigger] old(self).breakers().contains_key(k) ==> final(self).breakers()[k] == old(self).breakers()[k]
                &&& n.failures() == b.failures() + 1
                &&& n.threshold() == b.threshold() && n.cooldown() == b.cooldown()
                &&& n.tripped() == (b.tripped() || n.failures() >= b.threshold())
                &&& r ==> n.tripped()
            },
    {
        match self.breakers.get(queue_id.as_bytes()) {
            Some(cb_ref) => {
                let mut cb = *cb_ref;
                let before = cb.elapsed_since_trip();
                let was_tripped = cb.is_tripped_after(before);
                cb.record_failure();
                let after = cb.elapsed_since_trip();
                let now_tripped = cb.is_tripped_after(after);
                self.breakers.insert(str_to_vec(queue_id), cb);
                assert(self.breakers().dom() =~= old(self).breakers().dom());
                let r = !was_tripped && now_tripped;
                assert(r == tripped_by_failure(
                    old(self).breakers()[str_bytes(queue_id)],
                    self.breakers()[str_bytes(queue_id)],
                    before,
                    after,
                ));
                r
            },
            None => false,
        }
    }

    /// The consecutive failures recorded for a queue's breaker, if it has one.
    pub fn consecutive_failures(&self, queue_id: &str) -> (r: Option<u32>)
        requires
            self.wf(),
        ensures
            match r {
                Some(n) => self.breakers().contains_key(str_bytes(queue_id)) && self.breakers()[str_bytes(queue_id)].failures() == n,
                None => !self.breakers().contains_key(str_bytes(queue_id)),
            },
    {
        match self.breakers.get(queue_id.as_bytes()) {
            Some(cb) => Some(cb.consecutive_failures),
            None => None,
        }
    }

    /// Get the safety config for a queue (instruction limit and memory limit).
    pub fn get_config(&self, queue_id: &str) -> (r: Option<&QueueSafetyConfig>)
        requires
            self.wf(),
        ensures
            match r {
                Some(c) => self.configs().contains_key(str_bytes(queue_id)) && self.configs()[str_bytes(queue_id)] == *c,
                None => !self.configs().contains_key(str_bytes(queue_id)),
            },
    {
        self.queue_configs.get(queue_id.as_bytes())
    }

    /// Return the global default instruction limit and memory limit.
    ///
    /// Used as a fail-closed fallback when per-queue config is unexpectedly absent.
    pub fn default_limits(&self) -> (r: (u64, usize))
        ensures
            r == (self.defaults().2, self.defaults().3),
    {
        (self.default_instruction_limit, self.default_memory_limit_bytes)
    }
}

} // verus!
