//! The ingestion endpoint.

use vstd::prelude::*;

verus! {

/// Body of `POST /ingest`.
pub struct IngestRequest {
    pub project: String,
    /// Path to the log file.
    pub source: String,
    /// "auto", "jsonl", "json", "text".
    pub format: String,
}

/// Reply to `POST /ingest` when the job runs in the background.
pub struct IngestResponse {
    pub job_id: String,
    pub status: String,
}

} // verus!

verus! {

use crate::events::emitter::Event;

/// The format a request gets when it names none.
pub fn default_format() -> (r: String)
    ensures
        r@ == "auto"@,
{
    "auto".to_string()
}

/// How storing one extracted decision went: whether it was new, and its
/// domain and text (`None` where storing failed).
pub struct StoredOutcome {
    pub is_new: bool,
    pub domain: String,
    pub decision: String,
}

/// The `decision.new` events of an ingestion: one per decision stored as
/// new, in order.
pub open spec fn new_decision_events(project: Seq<char>, outcomes: Seq<Option<StoredOutcome>>) -> Seq<(Seq<char>, Seq<char>, Seq<char>)>
    decreases outcomes.len(),
{
    if outcomes.len() == 0 {
        seq![]
    } else {
        let p = new_decision_events(project, outcomes.drop_last());
        match outcomes.last() {
            Some(o) => if o.is_new {
                p.push((project, o.domain@, o.decision@))
            } else {
                p
            },
            None => p,
        }
    }
}

/// The (project, domain, decision) of a `decision.new` event.
pub open spec fn new_decision_view(e: Event) -> (Seq<char>, Seq<char>, Seq<char>) {
    match e {
        Event::DecisionNew { project, domain, decision } => (project@, domain@, decision@),
        _ => (seq![], seq![], seq![]),
    }
}

/// The events announcing the decisions an ingestion stored as new.
pub fn decision_events(project: &str, outcomes: &Vec<Option<StoredOutcome>>) -> (r: Vec<Event>)
    ensures
        forall|k: int| 0 <= k < r@.len() ==> #[trigger] r@[k] is DecisionNew,
        r@.map_values(|e: Event| new_decision_view(e)) == new_decision_events(project@, outcomes@),
{
    let mut r: Vec<Event> = Vec::new();
    let mut i: usize = 0;
    while i < outcomes.len()
        invariant
            i <= outcomes@.len(),
            forall|k: int| 0 <= k < r@.len() ==> #[trigger] r@[k] is DecisionNew,
            r@.map_values(|e: Event| new_decision_view(e)) == new_decision_events(project@, outcomes@.take(i as int)),
        decreases outcomes@.len() - i,
    {
        proof {
            assert(outcomes@.take(i as int + 1).drop_last() =~= outcomes@.take(i as int));
            assert(outcomes@.take(i as int + 1).last() == outcomes@[i as int]);
        }
        if let Some(o) = &outcomes[i] {
            if o.is_new {
                let ghost before = r@;
                let e = Event::DecisionNew {
                    project: project.to_string(),
                    domain: o.domain.clone(),
                    decision: o.decision.clone(),
                };
                r.push(e);
                proof {
                    assert(r@.map_values(|e: Event| new_decision_view(e)) =~= before.map_values(
                        |e: Event| new_decision_view(e),
                    ).push(new_decision_view(e)));
                }
            }
        }
        i = i + 1;
    }
    proof {
        assert(outcomes@.take(outcomes@.len() as int) =~= outcomes@);
    }
    r
}

/// The `phase.changed` event of an ingestion that detected `phase` in
/// `domain`, when it differs from the project's current phase ("unknown"
/// when it has none).
pub fn phase_event(project: &str, domain: &str, current: Option<&str>, phase: &str) -> (r: Option<Event>)
    ensures
        match crate::secretary::extract::phase_left(
            match current {
                Some(p) => Some(p@),
                None => None,
            },
            phase@,
        ) {
            Some(old) => r matches Some(Event::PhaseChanged { project: p, domain: d, old_phase: o, new_phase: n })
                && p@ == project@ && d@ == domain@ && o@ == old && n@ == phase@,
            None => r is None,
        },
{
    match crate::secretary::extract::phase_change(current, phase) {
        Some(old) => Some(
            Event::PhaseChanged {
                project: project.to_string(),
                domain: domain.to_string(),
                old_phase: old,
                new_phase: phase.to_string(),
            },
        ),
        None => None,
    }
}

} // verus!
