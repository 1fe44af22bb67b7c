//! State-change events.

pub mod emitter;
