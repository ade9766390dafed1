use fila_core::lua::engine::{begin_script_run, finish_script_run, LuaExecOutcome, ScriptPlan};
use fila_core::lua::results::{
    delay_from_script, failure_action_from, max_retries, on_enqueue_result, on_failure_result,
    tenant_route, weight_from_script, FailureAction, OnEnqueueResult, OnFailureResult,
};
use fila_core::lua::safety::{LuaConfig, SafetyManager};

#[test]
fn on_enqueue_defaults() {
    let d = OnEnqueueResult::default();
    assert_eq!(d.fairness_key, "default");
    assert_eq!(d.weight, 1);
    assert!(d.throttle_keys.is_empty());
}

#[test]
fn on_enqueue_result_fields() {
    let r = on_enqueue_result(
        Some("tenant-a".to_string()),
        Some(5),
        Some(vec![Some("k1".to_string()), None, Some("k2".to_string())]),
    );
    assert_eq!(r.fairness_key, "tenant-a");
    assert_eq!(r.weight, 5);
    assert_eq!(r.throttle_keys, vec!["k1".to_string(), "k2".to_string()]);
    let r = on_enqueue_result(None, Some(-3), None);
    assert_eq!(r, OnEnqueueResult::default());
}

#[test]
fn weight_conversion() {
    assert_eq!(weight_from_script(None), 1);
    assert_eq!(weight_from_script(Some(0)), 0);
    assert_eq!(weight_from_script(Some(-1)), 1);
    assert_eq!(weight_from_script(Some(u32::MAX as i64)), u32::MAX);
    assert_eq!(weight_from_script(Some(u32::MAX as i64 + 1)), 1);
}

#[test]
fn on_failure_actions() {
    assert_eq!(failure_action_from(Some("dlq")), FailureAction::DeadLetter);
    assert_eq!(failure_action_from(Some("retry")), FailureAction::Retry);
    assert_eq!(failure_action_from(Some("other")), FailureAction::Retry);
    assert_eq!(failure_action_from(None), FailureAction::Retry);
    assert_eq!(delay_from_script(Some(500)), 500);
    assert_eq!(delay_from_script(Some(-5)), 0);
    assert_eq!(delay_from_script(None), 0);
    assert_eq!(
        on_failure_result(Some("dlq"), Some(10)),
        OnFailureResult { action: FailureAction::DeadLetter, delay_ms: 10 }
    );
    assert_eq!(on_failure_result(None, None), OnFailureResult::default());
}

#[test]
fn max_retries_below_max() {
    assert_eq!(max_retries(2, 3), FailureAction::Retry);
}

#[test]
fn max_retries_at_max() {
    assert_eq!(max_retries(3, 3), FailureAction::DeadLetter);
}

#[test]
fn max_retries_above_max() {
    assert_eq!(max_retries(5, 3), FailureAction::DeadLetter);
}

#[test]
fn max_retries_zero_max() {
    assert_eq!(max_retries(0, 0), FailureAction::DeadLetter);
}

#[test]
fn tenant_route_present_header() {
    assert_eq!(tenant_route(Some("acme".to_string())), "acme");
}

#[test]
fn tenant_route_missing_header() {
    assert_eq!(tenant_route(None), "default");
}

#[test]
fn script_run_decisions() {
    let cfg = LuaConfig {
        default_timeout_ms: 10,
        default_memory_limit_bytes: 1000,
        circuit_breaker_threshold: 1,
        circuit_breaker_cooldown_ms: 60_000,
    };
    let mut safety = SafetyManager::new(&cfg);
    assert_eq!(begin_script_run(&mut safety, "q", false), ScriptPlan::NoScript);
    // unregistered queues run with the global limits
    assert_eq!(
        begin_script_run(&mut safety, "q", true),
        ScriptPlan::Run { instruction_limit: 100_000, memory_limit_bytes: 1000 }
    );
    safety.register_queue("q", Some(2), Some(50));
    assert_eq!(
        begin_script_run(&mut safety, "q", true),
        ScriptPlan::Run { instruction_limit: 20_000, memory_limit_bytes: 50 }
    );
    assert_eq!(
        finish_script_run(&mut safety, "q", false),
        LuaExecOutcome::ScriptError { circuit_breaker_tripped: true }
    );
    assert_eq!(begin_script_run(&mut safety, "q", true), ScriptPlan::Bypass);
    assert_eq!(finish_script_run(&mut safety, "q", true), LuaExecOutcome::Success);
    assert!(matches!(begin_script_run(&mut safety, "q", true), ScriptPlan::Run { .. }));
    assert_eq!(
        finish_script_run(&mut safety, "other", false),
        LuaExecOutcome::ScriptError { circuit_breaker_tripped: false }
    );
}
