use fila_core::cluster::convert::{nanos_to_timestamp, timestamp_to_nanos, ConvertError};

#[test]
fn timestamps_convert_to_nanoseconds() {
    assert_eq!(timestamp_to_nanos(0, 0), Ok(0));
    assert_eq!(timestamp_to_nanos(1, 5), Ok(1_000_000_005));
    assert_eq!(timestamp_to_nanos(1_700_000_000, 999_999_999), Ok(1_700_000_000_999_999_999));
}

#[test]
fn out_of_range_timestamps_are_refused() {
    assert_eq!(timestamp_to_nanos(-1, 0), Err(ConvertError::InvalidTimestamp));
    assert_eq!(timestamp_to_nanos(0, -1), Err(ConvertError::InvalidTimestamp));
    assert_eq!(timestamp_to_nanos(0, 1_000_000_000), Err(ConvertError::InvalidTimestamp));
    assert_eq!(timestamp_to_nanos(i64::MAX, 0), Err(ConvertError::InvalidTimestamp));
    assert_eq!(timestamp_to_nanos(18_446_744_073, 709_551_616), Err(ConvertError::InvalidTimestamp));
    assert_eq!(timestamp_to_nanos(18_446_744_073, 709_551_615), Ok(u64::MAX));
}

#[test]
fn nanoseconds_round_trip_through_timestamps() {
    for ts in [0u64, 1, 999_999_999, 1_000_000_000, 1_700_000_000_123_456_789, u64::MAX] {
        let (s, n) = nanos_to_timestamp(ts);
        assert!((0..1_000_000_000).contains(&n));
        assert_eq!(timestamp_to_nanos(s, n), Ok(ts));
    }
}
