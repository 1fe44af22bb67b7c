//! Events emitted when the project state changes.

use vstd::prelude::*;

verus! {

/// An event emitted when state changes.
pub enum Event {
    DecisionNew { project: String, domain: String, decision: String },
    DecisionChanged { project: String, domain: String, old_decision: String, new_decision: String },
    PhaseChanged { project: String, domain: String, old_phase: String, new_phase: String },
    StateUpdated { project: String },
    IngestionComplete {
        project: String,
        job_id: String,
        raw_tokens: usize,
        digest_tokens: usize,
        decisions_extracted: usize,
    },
}

} // verus!

verus! {

/// The project an event is about.
pub open spec fn project_of(e: Event) -> Seq<char> {
    match e {
        Event::DecisionNew { project, .. } => project@,
        Event::DecisionChanged { project, .. } => project@,
        Event::PhaseChanged { project, .. } => project@,
        Event::StateUpdated { project } => project@,
        Event::IngestionComplete { project, .. } => project@,
    }
}

/// The project an event is about.
pub fn event_project(e: &Event) -> (r: &String)
    ensures
        r@ == project_of(*e),
{
    match e {
        Event::DecisionNew { project, .. } => project,
        Event::DecisionChanged { project, .. } => project,
        Event::PhaseChanged { project, .. } => project,
        Event::StateUpdated { project } => project,
        Event::IngestionComplete { project, .. } => project,
    }
}

/// Whether a subscriber to `project` receives the event.
pub fn is_for_project(e: &Event, project: &str) -> (r: bool)
    ensures
        r == (project_of(*e) == project@),
{
    crate::text::str_eq(event_project(e).as_str(), project)
}

} // verus!
