//! The diagram endpoints.

use vstd::prelude::*;

verus! {

/// Query of `GET /mermaid/{project}`.
pub struct DiagramQuery {
    pub source_session: Option<String>,
}

} // verus!
