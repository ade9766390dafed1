use fila_core::storage::bounds::prefix_upper_bound;

#[test]
fn prefix_upper_bound_normal() {
    assert_eq!(prefix_upper_bound(b"abc"), b"abd".to_vec());
}

#[test]
fn prefix_upper_bound_trailing_ff() {
    assert_eq!(prefix_upper_bound(b"ab\xff"), b"ac".to_vec());
}

#[test]
fn prefix_upper_bound_all_ff() {
    assert_eq!(prefix_upper_bound(b"\xff\xff\xff"), Vec::<u8>::new());
}

#[test]
fn prefix_upper_bound_empty() {
    assert_eq!(prefix_upper_bound(b""), Vec::<u8>::new());
}

#[test]
fn prefix_upper_bound_brackets_prefixed_keys() {
    let p = b"q1:".to_vec();
    let u = prefix_upper_bound(&p);
    for k in [b"q1:".to_vec(), b"q1:a".to_vec(), b"q1:\xff\xff".to_vec()] {
        assert!(p <= k && k < u);
    }
    for k in [b"q1".to_vec(), b"q1;".to_vec(), b"q2".to_vec()] {
        assert!(!(p <= k && k < u));
    }
}
