//! Decisions of connection setup and access control: the protocol
//! handshake, and how a permission check's answer becomes a protocol error.
//!
//! Reading the client's magic, asking the broker about a caller's
//! permissions and writing frames back are left to the caller.

use vstd::prelude::*;
use crate::error::StorageError;
use crate::fibp::codec::{Frame, FrameView, OP_GOAWAY};
use crate::fibp::error::FibpError;
use crate::fibp::wire::{decimal_string, decimal_text};
use vstd::utf8::encode_utf8;

verus! {

// ---------------------------------------------------------------------------
// Handshake
// ---------------------------------------------------------------------------

/// What the server answers to a client whose handshake it refuses: the
/// GoAway message it sends, and the error that ends the connection.
pub struct HandshakeRefusal {
    pub goaway: Frame,
    pub error: FibpError,
}

/// The GoAway frame carrying `text`.
pub open spec fn goaway_frame(text: Seq<char>) -> FrameView {
    FrameView { flags: 0, op: OP_GOAWAY, correlation_id: 0, payload: encode_utf8(text) }
}

/// `r` refuses the handshake with a GoAway carrying `message` and a
/// handshake error giving `reason`.
pub open spec fn refused_with(r: Result<(), HandshakeRefusal>, message: Seq<char>, reason: Seq<char>) -> bool {
    match r {
        Err(HandshakeRefusal { goaway, error }) => goaway@ == goaway_frame(message) && match error {
            FibpError::HandshakeFailed { reason: why } => why@ == reason,
            _ => false,
        },
        Ok(_) => false,
    }
}

/// Check the six bytes a client opens with against the server's own magic:
/// the first four must match exactly, and the fifth, the protocol's major
/// version, must be the server's. The sixth, the minor version, is free.
pub fn check_handshake(client: &[u8], server: &[u8]) -> (r: Result<(), HandshakeRefusal>)
    requires
        client@.len() == 6,
        server@.len() == 6,
    ensures
        client@.subrange(0, 4) != server@.subrange(0, 4) ==> refused_with(r, "invalid magic"@, "invalid magic bytes"@),
        client@.subrange(0, 4) == server@.subrange(0, 4) && client@[4] != server@[4] ==> refused_with(
            r,
            "unsupported protocol version "@ + decimal_text(client@[4] as nat) + ".x (server supports "@ + decimal_text(
                server@[4] as nat,
            ) + ".x)"@,
            "major version mismatch: client="@ + decimal_text(client@[4] as nat) + ", server="@ + decimal_text(
                server@[4] as nat,
            ),
        ),
        client@.subrange(0, 4) == server@.subrange(0, 4) && client@[4] == server@[4] ==> r is Ok,
{
    if !(client[0] == server[0] && client[1] == server[1] && client[2] == server[2] && client[3] == server[3]) {
        proof {
            if client@.subrange(0, 4) == server@.subrange(0, 4) {
                assert(client@[0] == client@.subrange(0, 4)[0]);
                assert(client@[1] == client@.subrange(0, 4)[1]);
                assert(client@[2] == client@.subrange(0, 4)[2]);
                assert(client@[3] == client@.subrange(0, 4)[3]);
                assert(server@[0] == server@.subrange(0, 4)[0]);
                assert(server@[1] == server@.subrange(0, 4)[1]);
                assert(server@[2] == server@.subrange(0, 4)[2]);
                assert(server@[3] == server@.subrange(0, 4)[3]);
            }
        }
        return Err(
            HandshakeRefusal {
                goaway: Frame::goaway("invalid magic"),
                error: FibpError::HandshakeFailed { reason: String::from_str("invalid magic bytes") },
            },
        );
    }
    assert(client@.subrange(0, 4) =~= server@.subrange(0, 4));
    let client_major = client[4];
    let server_major = server[4];
    if client_major != server_major {
        let c = decimal_string(client_major as u64);
        let s = decimal_string(server_major as u64);
        let mut message = String::from_str("unsupported protocol version ");
        message.append(c.as_str());
        message.append(".x (server supports ");
        message.append(s.as_str());
        message.append(".x)");
        let mut reason = String::from_str("major version mismatch: client=");
        reason.append(c.as_str());
        reason.append(", server=");
        reason.append(s.as_str());
        return Err(
            HandshakeRefusal {
                goaway: Frame::goaway(message.as_str()),
                error: FibpError::HandshakeFailed { reason },
            },
        );
    }
    Ok(())
}

// ---------------------------------------------------------------------------
// Access control
// ---------------------------------------------------------------------------

/// A permission that an API key may hold on a queue.
#[derive(Debug, Clone, Copy, PartialEq, Eq, Structural)]
pub enum Permission {
    Produce,
    Consume,
    Admin,
}

/// The word naming a permission in refusals.
pub open spec fn permission_word(p: Permission) -> Seq<char> {
    match p {
        Permission::Produce => "produce"@,
        Permission::Consume => "consume"@,
        Permission::Admin => "admin"@,
    }
}

/// The reason given when a key lacks `perm` on `queue`.
pub open spec fn denied_on_queue(perm: Permission, queue: Seq<char>) -> Seq<char> {
    "key does not have "@ + permission_word(perm) + " permission on queue \""@ + queue + "\""@
}

fn permission_name(perm: Permission) -> (r: &'static str)
    ensures
        r@ == permission_word(perm),
{
    match perm {
        Permission::Produce => "produce",
        Permission::Consume => "consume",
        Permission::Admin => "admin",
    }
}

/// The outcome of a queue-scoped permission check. `answer` is `None` when
/// the connection has no caller (authentication is off), and otherwise the
/// broker's answer to whether the caller holds `perm` on `queue`.
pub fn queue_permission_outcome(
    perm: Permission,
    queue: &str,
    answer: Option<Result<bool, StorageError>>,
) -> (r: Result<(), FibpError>)
    ensures
        answer is None ==> r is Ok,
        answer matches Some(Ok(true)) ==> r is Ok,
        answer matches Some(Ok(false)) ==> (r matches Err(FibpError::PermissionDenied { reason }) && reason@
            == denied_on_queue(perm, queue@)),
        answer matches Some(Err(e)) ==> r == Err::<(), FibpError>(FibpError::Storage(e)),
{
    match answer {
        None => Ok(()),
        Some(Err(e)) => Err(FibpError::Storage(e)),
        Some(Ok(true)) => Ok(()),
        Some(Ok(false)) => {
            let mut reason = String::from_str("key does not have ");
            reason.append(permission_name(perm));
            reason.append(" permission on queue \"");
            reason.append(queue);
            reason.append("\"");
            Err(FibpError::PermissionDenied { reason })
        },
    }
}

/// The outcome of the global admin check that configuration and listing
/// operations need, with `answer` as in `queue_permission_outcome`.
pub fn admin_permission_outcome(answer: Option<Result<bool, StorageError>>) -> (r: Result<(), FibpError>)
    ensures
        answer is None ==> r is Ok,
        answer matches Some(Ok(true)) ==> r is Ok,
        answer matches Some(Ok(false)) ==> (r matches Err(FibpError::PermissionDenied { reason }) && reason@
            == "key does not have admin permission"@),
        answer matches Some(Err(e)) ==> r == Err::<(), FibpError>(FibpError::Storage(e)),
{
    match answer {
        None => Ok(()),
        Some(Err(e)) => Err(FibpError::Storage(e)),
        Some(Ok(true)) => Ok(()),
        Some(Ok(false)) => Err(
            FibpError::PermissionDenied { reason: String::from_str("key does not have admin permission") },
        ),
    }
}

} // verus!
