//! The memory read endpoints.

use vstd::prelude::*;
use crate::memory::state::StoredDecision;

verus! {

/// Query of `GET /memory/{project}/state`.
pub struct StateQuery {
    pub source_session: Option<String>,
}

/// The current phase of a project.
pub struct PhaseInfo {
    pub domain: String,
    pub phase: String,
}

/// Reply to `GET /memory/{project}/state`.
pub struct StateResponse {
    pub project: String,
    pub decisions: Vec<StoredDecision>,
    pub blockers: Vec<String>,
    pub open_questions: Vec<String>,
    pub current_phase: Option<PhaseInfo>,
}

} // verus!
