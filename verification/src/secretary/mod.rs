//! Preparing extraction prompts and reading extraction results.

pub mod backends;
pub mod extract;
pub mod prompts;
