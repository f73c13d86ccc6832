//! The typed, per-scope, fire-and-forget event bus.

pub mod hub;
pub mod standard;
