//! FIBP, the Fila binary protocol: frame codec and payload encodings.

pub mod codec;
pub mod access;
pub mod admin;
pub mod dispatch;
pub mod error;
pub mod wire;
