use vstd::prelude::*;

pub mod api;
pub mod config;
pub mod events;
pub mod ingester;
pub mod json;
pub mod memory;
pub mod order;
pub mod secretary;
pub mod text;
pub mod textops;
