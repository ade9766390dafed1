use fila_core::error::StorageError;
use fila_core::fibp::access::{admin_permission_outcome, check_handshake, queue_permission_outcome, Permission};
use fila_core::fibp::codec::OP_GOAWAY;
use fila_core::fibp::error::FibpError;

const SERVER: [u8; 6] = *b"FIBP\x01\x00";

#[test]
fn matching_magic_and_major_version_is_accepted() {
    assert!(check_handshake(b"FIBP\x01\x00", &SERVER).is_ok());
    assert!(check_handshake(b"FIBP\x01\x07", &SERVER).is_ok());
}

#[test]
fn foreign_magic_is_refused() {
    let refusal = check_handshake(b"HTTP/1", &SERVER).unwrap_err();
    assert_eq!(refusal.goaway.op, OP_GOAWAY);
    assert_eq!(refusal.goaway.correlation_id, 0);
    assert_eq!(refusal.goaway.payload, b"invalid magic".to_vec());
    match refusal.error {
        FibpError::HandshakeFailed { reason } => assert_eq!(reason, "invalid magic bytes"),
        other => panic!("expected HandshakeFailed, got {other:?}"),
    }
}

#[test]
fn other_major_version_is_refused_with_both_versions() {
    let refusal = check_handshake(b"FIBP\x02\x00", &SERVER).unwrap_err();
    assert_eq!(refusal.goaway.payload, b"unsupported protocol version 2.x (server supports 1.x)".to_vec());
    match refusal.error {
        FibpError::HandshakeFailed { reason } => assert_eq!(reason, "major version mismatch: client=2, server=1"),
        other => panic!("expected HandshakeFailed, got {other:?}"),
    }
    let refusal = check_handshake(b"FIBP\xff\x00", &SERVER).unwrap_err();
    assert_eq!(refusal.goaway.payload, b"unsupported protocol version 255.x (server supports 1.x)".to_vec());
    let refusal = check_handshake(b"FIBP\x0a\x00", &SERVER).unwrap_err();
    assert_eq!(refusal.goaway.payload, b"unsupported protocol version 10.x (server supports 1.x)".to_vec());
}

#[test]
fn permission_checks_pass_without_a_caller_or_with_the_permission() {
    assert!(queue_permission_outcome(Permission::Produce, "orders", None).is_ok());
    assert!(queue_permission_outcome(Permission::Consume, "orders", Some(Ok(true))).is_ok());
    assert!(admin_permission_outcome(None).is_ok());
    assert!(admin_permission_outcome(Some(Ok(true))).is_ok());
}

#[test]
fn missing_permissions_are_denied_by_name() {
    for (perm, word) in [(Permission::Produce, "produce"), (Permission::Consume, "consume"), (Permission::Admin, "admin")] {
        match queue_permission_outcome(perm, "orders", Some(Ok(false))) {
            Err(FibpError::PermissionDenied { reason }) => {
                assert_eq!(reason, format!("key does not have {word} permission on queue \"orders\""))
            }
            other => panic!("expected PermissionDenied, got {other:?}"),
        }
    }
    match admin_permission_outcome(Some(Ok(false))) {
        Err(FibpError::PermissionDenied { reason }) => assert_eq!(reason, "key does not have admin permission"),
        other => panic!("expected PermissionDenied, got {other:?}"),
    }
}

#[test]
fn storage_failures_during_checks_are_storage_errors() {
    match queue_permission_outcome(Permission::Admin, "q", Some(Err(StorageError::Engine("io".to_string())))) {
        Err(FibpError::Storage(StorageError::Engine(m))) => assert_eq!(m, "io"),
        other => panic!("expected Storage, got {other:?}"),
    }
    match admin_permission_outcome(Some(Err(StorageError::CorruptData("x".to_string())))) {
        Err(FibpError::Storage(StorageError::CorruptData(m))) => assert_eq!(m, "x"),
        other => panic!("expected Storage, got {other:?}"),
    }
}
