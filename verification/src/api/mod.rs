//! Request and response data of the HTTP API, and the decisions its handlers make.

pub mod billing;
pub mod context;
pub mod debug;
pub mod ingest;
pub mod memory;
pub mod mermaid;
pub mod projects;
pub mod references;
pub mod session_scan;
pub mod sessions;
