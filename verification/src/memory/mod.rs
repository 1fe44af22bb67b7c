//! Hot memory, the project brain, and the state store's decisions.

pub mod render;
pub mod state;
