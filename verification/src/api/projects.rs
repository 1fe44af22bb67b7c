//! The project endpoints.

use vstd::prelude::*;

verus! {

/// A project as listed by `GET /projects`.
pub struct ProjectSummary {
    pub name: String,
    pub path: Option<String>,
    pub current_phase: Option<String>,
    pub decision_count: usize,
    pub last_ingestion: Option<String>,
}

/// Body of `POST /projects`.
pub struct CreateProjectRequest {
    pub name: String,
    pub path: Option<String>,
}

} // verus!

verus! {

use crate::order::{lex_lt, lex_lt_exec, sort_by_before, sorted_by, transitive};

/// A valid project name: not empty, without `/` and without `..`.
pub open spec fn valid_project_name(name: Seq<char>) -> bool {
    name.len() > 0 && !crate::textops::has_char(name, '/') && !crate::textops::contains(name, ".."@)
}

/// Whether `name` may name a project (it becomes a directory name).
pub fn validate_project_name(name: &str) -> (r: bool)
    ensures
        r == valid_project_name(name@),
{
    let v = crate::text::chars_of(name);
    let dots = crate::text::chars_of("..");
    v.len() > 0 && !crate::textops::has_char_exec(v.as_slice(), '/') && !crate::textops::contains_chars(
        v.as_slice(),
        dots.as_slice(),
    )
}

/// Projects are listed by name.
pub open spec fn name_before() -> spec_fn(ProjectSummary, ProjectSummary) -> bool {
    |a: ProjectSummary, b: ProjectSummary| lex_lt(a.name@, b.name@)
}

fn project_name_before(a: &ProjectSummary, b: &ProjectSummary) -> (r: bool)
    ensures
        r == lex_lt(a.name@, b.name@),
{
    let x = crate::text::chars_of(a.name.as_str());
    let y = crate::text::chars_of(b.name.as_str());
    lex_lt_exec(x.as_slice(), y.as_slice())
}

/// The projects sorted by name.
pub fn sort_projects(projects: Vec<ProjectSummary>) -> (r: Vec<ProjectSummary>)
    ensures
        sorted_by(r@, name_before()),
        r@.to_multiset() == projects@.to_multiset(),
{
    proof {
        assert forall|a: ProjectSummary, b: ProjectSummary, c: ProjectSummary|
            #[trigger] name_before()(a, b) && #[trigger] name_before()(b, c) implies name_before()(a, c) by {
            crate::order::lemma_lex_transitive(a.name@, b.name@, c.name@);
        }
        assert forall|a: ProjectSummary| !#[trigger] name_before()(a, a) by {
            crate::order::lemma_lex_irreflexive(a.name@);
        }
    }
    sort_by_before(projects, project_name_before, Ghost(name_before()))
}

} // verus!
