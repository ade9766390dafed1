use fila_core::error::{ConfigError, StorageError};
use fila_core::fibp::admin::{
    check_not_empty, config_error_to_fibp, count_leaderships, create_queue_config, select_members_and_leader,
};
use fila_core::fibp::error::FibpError;

fn reason_of(e: FibpError) -> String {
    match e {
        FibpError::InvalidPayload { reason } => reason,
        other => panic!("expected InvalidPayload, got {other:?}"),
    }
}

#[test]
fn empty_names_are_refused_with_the_field_named() {
    assert!(check_not_empty("orders", "queue name").is_ok());
    assert_eq!(reason_of(check_not_empty("", "queue name").unwrap_err()), "queue name must not be empty");
    assert_eq!(reason_of(check_not_empty("", "dlq_queue name").unwrap_err()), "dlq_queue name must not be empty");
    assert_eq!(reason_of(check_not_empty("", "config key").unwrap_err()), "config key must not be empty");
}

#[test]
fn zero_visibility_timeout_takes_the_default() {
    let c = create_queue_config("q".to_string(), String::new(), String::new(), 0).unwrap();
    assert_eq!(c.name, "q");
    assert_eq!(c.visibility_timeout_ms, 30_000);
    assert_eq!(c.on_enqueue_script, None);
    assert_eq!(c.on_failure_script, None);
    assert_eq!(c.dlq_queue_id, None);
    assert_eq!(c.lua_timeout_ms, None);
    assert_eq!(c.lua_memory_limit_bytes, None);
}

#[test]
fn sub_second_visibility_timeout_is_refused() {
    for vt in [1u64, 500, 999] {
        let e = create_queue_config("q".to_string(), String::new(), String::new(), vt).unwrap_err();
        assert_eq!(reason_of(e), "visibility_timeout_ms must be at least 1000 (1 second)");
    }
}

#[test]
fn scripts_and_timeout_are_kept() {
    let c = create_queue_config("q".to_string(), "return 1".to_string(), "return 2".to_string(), 1_000).unwrap();
    assert_eq!(c.visibility_timeout_ms, 1_000);
    assert_eq!(c.on_enqueue_script.as_deref(), Some("return 1"));
    assert_eq!(c.on_failure_script.as_deref(), Some("return 2"));
}

#[test]
fn config_errors_map_to_protocol_errors() {
    assert_eq!(reason_of(config_error_to_fibp(ConfigError::InvalidValue("bad".to_string()))), "bad");
    match config_error_to_fibp(ConfigError::Storage(StorageError::Engine("disk".to_string()))) {
        FibpError::Storage(StorageError::Engine(m)) => assert_eq!(m, "disk"),
        other => panic!("expected Storage, got {other:?}"),
    }
}

#[test]
fn leaderships_are_counted_per_candidate() {
    let counts = count_leaderships(&[1, 2, 3], &[Some(1), Some(3), None, Some(1), Some(9)]);
    assert_eq!(counts, vec![(1, 2), (2, 0), (3, 1)]);
}

#[test]
fn small_clusters_place_on_every_node() {
    let counts = count_leaderships(&[3, 1, 2], &[Some(3)]);
    assert_eq!(select_members_and_leader(&[3, 1, 2], &counts, 3), (vec![3, 1, 2], 1));
    assert_eq!(select_members_and_leader(&[3, 1, 2], &counts, 5), (vec![3, 1, 2], 1));
    assert_eq!(select_members_and_leader(&[3, 1, 2], &counts, 0), (vec![3, 1, 2], 1));
}

#[test]
fn large_clusters_place_on_the_least_loaded_nodes() {
    let members = [1, 2, 3, 4, 5];
    let counts = count_leaderships(&members, &[Some(1), Some(1), Some(2), Some(3), Some(5), Some(5)]);
    // loads: 1 -> 2, 2 -> 1, 3 -> 1, 4 -> 0, 5 -> 2
    assert_eq!(select_members_and_leader(&members, &counts, 3), (vec![4, 2, 3], 4));
    assert_eq!(select_members_and_leader(&members, &counts, 1), (vec![4], 4));
}

#[test]
fn ties_go_to_the_lower_node_id() {
    let members = [9, 7, 8];
    let counts = count_leaderships(&members, &[]);
    assert_eq!(select_members_and_leader(&members, &counts, 2), (vec![7, 8], 7));
}

#[test]
fn no_members_prefer_node_one() {
    assert_eq!(select_members_and_leader(&[], &[], 3), (Vec::<u64>::new(), 1));
}

#[test]
fn api_keys_without_expiry_never_expire() {
    assert_eq!(fila_core::fibp::admin::api_key_expiry(0), None);
    assert_eq!(fila_core::fibp::admin::api_key_expiry(1_700_000_000_000), Some(1_700_000_000_000));
}

#[test]
fn acl_grants_must_name_known_permissions() {
    let grant = |k: &str, p: &str| (k.to_string(), p.to_string());
    assert!(fila_core::fibp::admin::validate_acl_permissions(&[]).is_ok());
    assert!(fila_core::fibp::admin::validate_acl_permissions(&[grant("produce", "orders"), grant("consume", "*"), grant("admin", "q*")]).is_ok());
    let e = fila_core::fibp::admin::validate_acl_permissions(&[grant("produce", "a"), grant("write", "b"), grant("delete", "c")]).unwrap_err();
    assert_eq!(reason_of(e), "invalid permission kind: write");
    let e = fila_core::fibp::admin::validate_acl_permissions(&[grant("Admin", "a")]).unwrap_err();
    assert_eq!(reason_of(e), "invalid permission kind: Admin");
}

#[test]
fn unknown_keys_are_named_in_the_refusal() {
    assert_eq!(reason_of(fila_core::fibp::admin::key_not_found("k-42")), "api key not found: k-42");
}
