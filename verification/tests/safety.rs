use fila_core::lua::safety::{CircuitBreaker, LuaConfig, SafetyManager, INSTRUCTIONS_PER_MS};
use std::time::{Duration, Instant};

fn wait_ms(ms: u64) {
    let start = Instant::now();
    while start.elapsed() < Duration::from_millis(ms) {
        std::hint::spin_loop();
    }
}

#[test]
fn circuit_breaker_allows_execution_when_not_tripped() {
    let cb = CircuitBreaker::new(3, 10_000);
    assert!(cb.should_execute());
}

#[test]
fn circuit_breaker_trips_at_exact_threshold() {
    let mut cb = CircuitBreaker::new(3, 10_000);
    cb.record_failure(); // 1
    assert!(cb.should_execute());
    cb.record_failure(); // 2
    assert!(cb.should_execute());
    cb.record_failure(); // 3 = threshold
    assert!(!cb.should_execute(), "should be tripped at threshold");
}

#[test]
fn circuit_breaker_does_not_trip_before_threshold() {
    let mut cb = CircuitBreaker::new(3, 10_000);
    cb.record_failure();
    cb.record_failure();
    assert!(cb.should_execute(), "should not be tripped before threshold");
}

#[test]
fn circuit_breaker_success_resets_counter() {
    let mut cb = CircuitBreaker::new(3, 10_000);
    cb.record_failure(); // 1
    cb.record_failure(); // 2
    cb.record_success(); // reset
    cb.record_failure(); // 1 again
    cb.record_failure(); // 2 again
    assert!(cb.should_execute(), "should not trip after success reset");
}

#[test]
fn circuit_breaker_retries_after_cooldown() {
    let mut cb = CircuitBreaker::new(2, 50); // 50ms cooldown
    cb.record_failure();
    cb.record_failure(); // trips
    assert!(!cb.should_execute(), "should be tripped");

    wait_ms(60);
    assert!(cb.should_execute(), "should allow execution after cooldown");
}

#[test]
fn circuit_breaker_success_after_cooldown_resets() {
    let mut cb = CircuitBreaker::new(2, 50);
    cb.record_failure();
    cb.record_failure(); // trips

    wait_ms(60);
    assert!(cb.should_execute());
    cb.record_success();

    cb.record_failure(); // 1
    assert!(cb.should_execute(), "counter should be reset after success");
}

#[test]
fn circuit_breaker_decisions_by_elapsed_time() {
    let mut cb = CircuitBreaker::new(1, 100);
    assert!(cb.should_execute_after(0));
    assert!(!cb.is_tripped_after(0));
    cb.record_failure();
    assert!(!cb.should_execute_after(99));
    assert!(cb.should_execute_after(100));
    assert!(cb.is_tripped_after(99));
    assert!(!cb.is_tripped_after(100));
    assert!(cb.is_tripped());
}

fn config(threshold: u32, cooldown: u64) -> LuaConfig {
    LuaConfig {
        default_timeout_ms: 10,
        default_memory_limit_bytes: 1_048_576,
        circuit_breaker_threshold: threshold,
        circuit_breaker_cooldown_ms: cooldown,
    }
}

#[test]
fn safety_manager_register_and_check() {
    let mut mgr = SafetyManager::new(&config(3, 10_000));
    mgr.register_queue("q1", None, None);

    assert!(mgr.should_execute("q1"));
    assert!(mgr.should_execute("unknown-queue")); // unknown queues default to allow

    let cfg = mgr.get_config("q1").unwrap();
    assert_eq!(cfg.instruction_limit, 10 * INSTRUCTIONS_PER_MS);
    assert_eq!(cfg.memory_limit_bytes, 1_048_576);
}

#[test]
fn safety_manager_per_queue_overrides() {
    let mut mgr = SafetyManager::new(&config(3, 10_000));
    mgr.register_queue("q1", Some(20), Some(2_097_152));

    let cfg = mgr.get_config("q1").unwrap();
    assert_eq!(cfg.instruction_limit, 20 * INSTRUCTIONS_PER_MS);
    assert_eq!(cfg.memory_limit_bytes, 2_097_152);
}

#[test]
fn safety_manager_remove_queue() {
    let config = LuaConfig::default();
    let mut mgr = SafetyManager::new(&config);
    mgr.register_queue("q1", None, None);
    assert!(mgr.get_config("q1").is_some());

    mgr.remove_queue("q1");
    assert!(mgr.get_config("q1").is_none());
}

#[test]
fn safety_manager_half_open_resets_counter() {
    let mut mgr = SafetyManager::new(&config(2, 50));
    mgr.register_queue("q1", None, None);

    mgr.record_failure("q1");
    mgr.record_failure("q1");
    assert!(!mgr.should_execute("q1"), "should be tripped");

    wait_ms(60);

    assert!(mgr.should_execute("q1"), "should allow after cooldown");

    mgr.record_failure("q1");
    assert!(
        mgr.should_execute("q1"),
        "one failure after half-open should not re-trip (threshold is 2)"
    );

    mgr.record_failure("q1");
    assert!(!mgr.should_execute("q1"), "two failures after half-open should re-trip");
}

#[test]
fn safety_manager_reports_just_tripped_once() {
    let mut mgr = SafetyManager::new(&config(2, 10_000));
    mgr.register_queue("q", None, None);
    assert!(!mgr.record_failure("q"));
    assert!(mgr.record_failure("q"), "second failure trips");
    assert!(!mgr.record_failure("q"), "already tripped");
    assert!(!mgr.record_failure("missing"));
    mgr.record_success("q");
    assert!(mgr.should_execute("q"));
    assert_eq!(mgr.default_limits(), (10 * INSTRUCTIONS_PER_MS, 1_048_576));
}

#[test]
fn safety_manager_decisions_by_elapsed_time() {
    let mut mgr = SafetyManager::new(&config(2, 50));
    mgr.register_queue("q1", None, None);
    assert!(mgr.should_execute_after("unknown", 0));
    assert!(!mgr.record_failure_after("unknown", 0, 0));

    assert!(!mgr.record_failure_after("q1", 0, 0));
    assert!(mgr.record_failure_after("q1", 0, 0), "the second failure trips the breaker");
    assert!(!mgr.should_execute_after("q1", 49));
    assert_eq!(mgr.consecutive_failures("q1"), Some(2));
    assert!(!mgr.record_failure_after("q1", 10, 0), "an already tripped breaker is not tripped again");

    assert!(mgr.should_execute_after("q1", 50), "the cooldown is over: half-open");
    assert_eq!(mgr.consecutive_failures("q1"), Some(0));
    assert!(!mgr.record_failure_after("q1", 0, 0));
    assert!(mgr.should_execute_after("q1", 0));
    assert!(mgr.record_failure_after("q1", 0, 0));
    assert!(!mgr.should_execute_after("q1", 0));
}

#[test]
fn zero_cooldown_trips_never_count() {
    let mut mgr = SafetyManager::new(&config(1, 0));
    mgr.register_queue("q", None, None);
    assert!(!mgr.record_failure_after("q", 0, 0));
    assert!(mgr.should_execute_after("q", 0));
}
