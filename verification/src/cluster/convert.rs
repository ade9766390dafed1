//! Timestamps as the cluster's replicated records carry them: whole seconds
//! and nanoseconds since the epoch, converted to and from the nanosecond
//! counts that the storage layer keeps.

use vstd::prelude::*;

verus! {

/// Errors of converting replicated records into domain values.
#[derive(Debug, Clone, PartialEq, Eq)]
pub enum ConvertError {
    /// A required field was absent.
    MissingField(String),
    /// A message id was not a UUID.
    InvalidUuid(String),
    /// A timestamp lay before the epoch, had nanoseconds outside
    /// `0..1_000_000_000`, or does not fit a `u64` count of nanoseconds.
    InvalidTimestamp,
}

/// Nanoseconds in a second.
pub const NANOS_PER_SECOND: u64 = 1_000_000_000;

/// The nanoseconds since the epoch that a timestamp stands for, when it is
/// a valid timestamp that fits a `u64`.
pub open spec fn spec_timestamp_nanos(seconds: i64, nanos: i32) -> Option<u64> {
    if seconds < 0 || nanos < 0 || nanos >= 1_000_000_000 {
        None
    } else if seconds * 1_000_000_000 + nanos > u64::MAX {
        None
    } else {
        Some((seconds * 1_000_000_000 + nanos) as u64)
    }
}

/// Convert a timestamp to nanoseconds since the epoch. Returns an error if
/// seconds or nanos are out of range, or the count overflows.
pub fn timestamp_to_nanos(seconds: i64, nanos: i32) -> (r: Result<u64, ConvertError>)
    ensures
        match spec_timestamp_nanos(seconds, nanos) {
            Some(n) => r == Ok::<u64, ConvertError>(n),
            None => r == Err::<u64, ConvertError>(ConvertError::InvalidTimestamp),
        },
{
    if seconds < 0 || nanos < 0 || nanos >= 1_000_000_000 {
        return Err(ConvertError::InvalidTimestamp);
    }
    let whole = match (seconds as u64).checked_mul(NANOS_PER_SECOND) {
        Some(w) => w,
        None => return Err(ConvertError::InvalidTimestamp),
    };
    match whole.checked_add(nanos as u64) {
        Some(n) => Ok(n),
        None => Err(ConvertError::InvalidTimestamp),
    }
}

/// Split nanoseconds since the epoch into whole seconds and the remaining
/// nanoseconds.
pub fn nanos_to_timestamp(ts: u64) -> (r: (i64, i32))
    ensures
        r.0 == ts / 1_000_000_000,
        r.1 == ts % 1_000_000_000,
{
    ((ts / NANOS_PER_SECOND) as i64, (ts % NANOS_PER_SECOND) as i32)
}

/// Every nanosecond count survives the trip through a timestamp.
pub proof fn law_timestamp_roundtrip(ts: u64)
    ensures
        spec_timestamp_nanos((ts / 1_000_000_000) as i64, (ts % 1_000_000_000) as i32) == Some(ts),
{
    let s = ts / 1_000_000_000;
    let n = ts % 1_000_000_000;
    assert(s * 1_000_000_000 + n == ts) by (nonlinear_arith)
        requires
            s == ts / 1_000_000_000,
            n == ts % 1_000_000_000,
    ;
    assert(s <= i64::MAX) by (nonlinear_arith)
        requires
            s == ts / 1_000_000_000,
            ts <= u64::MAX,
    ;
}

} // verus!
