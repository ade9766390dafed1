//! Ack/Nack error codes sent in FIBP ack/nack responses.

use vstd::prelude::*;

verus! {

/// The message named in the request is not leased.
pub const MESSAGE_NOT_FOUND: u16 = 1;
/// The change could not be stored.
pub const STORAGE: u16 = 2;

} // verus!
