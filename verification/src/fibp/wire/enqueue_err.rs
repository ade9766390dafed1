//! Enqueue error codes sent in FIBP enqueue responses.

use vstd::prelude::*;

verus! {

/// The queue named in the request does not exist.
pub const QUEUE_NOT_FOUND: u16 = 1;
/// The message could not be stored.
pub const STORAGE: u16 = 2;

} // verus!
