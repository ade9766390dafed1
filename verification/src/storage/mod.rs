//! Storage layer: key encodings, ordered indexes, the in-memory engine and
//! the log-structured engine built on a write-ahead log.

pub mod keys;
pub mod bounds;
pub mod fila;
pub mod ordered;
pub mod in_memory;
