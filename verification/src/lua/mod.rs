//! Decisions around running per-queue Lua scripts: circuit breakers,
//! safety limits, and the interpretation of script results.

pub mod safety;
pub mod engine;
pub mod helpers;
pub mod results;
