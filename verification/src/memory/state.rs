//! Records of the state database.

use vstd::prelude::*;

verus! {

/// A decision stored in the state database.
pub struct StoredDecision {
    pub id: String,
    pub project: String,
    pub domain: String,
    pub decision: String,
    pub rationale: String,
    pub files: Vec<String>,
    pub created_at: String,
    pub updated_at: String,
}

/// A mermaid diagram stored in the state database.
pub struct StoredDiagram {
    pub id: String,
    pub project: String,
    pub title: Option<String>,
    pub diagram_type: String,
    pub content: String,
    pub fingerprint: String,
    pub source_session: Option<String>,
    pub version: i64,
    pub created_at: String,
    pub updated_at: String,
}

} // verus!

verus! {

/// The latest decision stored for a project and domain.
pub struct ExistingDecision {
    pub id: String,
    pub decision: String,
    pub rationale: String,
}

/// What storing an extracted decision does to the state database.
pub enum UpsertAction {
    /// The domain's latest decision says the same: nothing changes.
    Unchanged { id: String },
    /// The domain's latest decision moves to history and is replaced in place.
    Supersede { id: String, old_decision: String, old_rationale: String },
    /// The domain has no decision yet: a new one is inserted under a fresh id.
    Insert { id: String },
}

/// The plan for storing `decision` (with rationale) when `existing` is the
/// domain's latest stored decision and `fresh_id` is an unused id.
pub open spec fn upsert_plan(
    existing: Option<(Seq<char>, Seq<char>, Seq<char>)>,
    decision: Seq<char>,
    fresh_id: Seq<char>,
) -> (Seq<char>, u8) {
    match existing {
        Some((id, old, _)) => if old == decision {
            (id, 0)
        } else {
            (id, 1)
        },
        None => (fresh_id, 2),
    }
}

pub open spec fn action_view(a: UpsertAction) -> (Seq<char>, u8) {
    match a {
        UpsertAction::Unchanged { id } => (id@, 0),
        UpsertAction::Supersede { id, .. } => (id@, 1),
        UpsertAction::Insert { id } => (id@, 2),
    }
}

pub open spec fn existing_view(e: Option<ExistingDecision>) -> Option<(Seq<char>, Seq<char>, Seq<char>)> {
    match e {
        Some(x) => Some((x.id@, x.decision@, x.rationale@)),
        None => None,
    }
}

/// Decide how to store a decision: unchanged when the domain's latest
/// decision has the same text, superseded when it differs, inserted when the
/// domain has none.
pub fn plan_upsert(existing: Option<ExistingDecision>, decision: &str, fresh_id: String) -> (r:
    UpsertAction)
    ensures
        action_view(r) == upsert_plan(existing_view(existing), decision@, fresh_id@),
        match (r, existing) {
            (UpsertAction::Supersede { old_decision, old_rationale, .. }, Some(e)) => old_decision@
                == e.decision@ && old_rationale@ == e.rationale@,
            _ => true,
        },
{
    match existing {
        Some(e) => {
            if crate::text::str_eq(e.decision.as_str(), decision) {
                UpsertAction::Unchanged { id: e.id }
            } else {
                UpsertAction::Supersede {
                    id: e.id,
                    old_decision: e.decision,
                    old_rationale: e.rationale,
                }
            }
        },
        None => UpsertAction::Insert { id: fresh_id },
    }
}

/// The id the decision is stored under, and whether storing changed anything.
pub fn upsert_outcome(action: &UpsertAction) -> (r: (String, bool))
    ensures
        r.0@ == action_view(*action).0,
        r.1 == (action_view(*action).1 != 0),
{
    match action {
        UpsertAction::Unchanged { id } => (id.clone(), false),
        UpsertAction::Supersede { id, .. } => (id.clone(), true),
        UpsertAction::Insert { id } => (id.clone(), true),
    }
}

/// The domain's latest decision once an action with this view has been
/// applied for `decision` and `rationale`: the stored row, or the row written.
pub open spec fn latest_after(
    existing: Option<(Seq<char>, Seq<char>, Seq<char>)>,
    plan: (Seq<char>, u8),
    decision: Seq<char>,
    rationale: Seq<char>,
) -> (Seq<char>, Seq<char>, Seq<char>) {
    if plan.1 == 0 {
        existing->0
    } else {
        (plan.0, decision, rationale)
    }
}

/// Storing a decision makes it the domain's latest one (up to its rationale,
/// when the text was already there), and storing it again changes nothing.
pub proof fn lemma_upsert_idempotent(
    existing: Option<(Seq<char>, Seq<char>, Seq<char>)>,
    decision: Seq<char>,
    rationale: Seq<char>,
    id1: Seq<char>,
    id2: Seq<char>,
)
    ensures
        ({
            let p1 = upsert_plan(existing, decision, id1);
            let after = latest_after(existing, p1, decision, rationale);
            &&& after.1 == decision
            &&& upsert_plan(Some(after), decision, id2) == (after.0, 0u8)
        }),
{
}

} // verus!
