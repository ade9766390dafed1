//! Verified core of the Fila message broker: storage key encoding, the
//! write-ahead-log record format, ordered in-memory indexes, the binary
//! wire protocol and the Lua safety state machine.

pub mod encoding;
pub mod text;
pub mod storage;
pub mod error;
pub mod lua;
pub mod fibp;
pub mod message;
pub mod queue;
pub mod cluster;
