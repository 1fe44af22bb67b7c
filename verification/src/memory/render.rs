//! Hot memory and the project brain, rendered from the project state.

use vstd::prelude::*;
use crate::memory::state::StoredDecision;
use crate::ingester::string_views;
use crate::text::{byte_len, chars_of, string_of, extend_str, extend_chars, str_eq};

verus! {

/// `items` joined with `sep`.
pub open spec fn join_with(items: Seq<Seq<char>>, sep: Seq<char>) -> Seq<char>
    decreases items.len(),
{
    if items.len() == 0 {
        seq![]
    } else if items.len() == 1 {
        items[0]
    } else {
        join_with(items.drop_last(), sep) + sep + items.last()
    }
}

/// `items` joined with `sep` (std `[String]::join`).
pub fn join_strings(items: &Vec<String>, sep: &str) -> (r: String)
    ensures
        r@ == join_with(string_views(items@), sep@),
{
    let ghost iv = string_views(items@);
    let mut out: Vec<char> = Vec::new();
    let mut i: usize = 0;
    while i < items.len()
        invariant
            i <= items@.len(),
            iv == string_views(items@),
            out@ == join_with(iv.take(i as int), sep@),
        decreases items@.len() - i,
    {
        proof {
            assert(iv.take(i as int + 1).drop_last() =~= iv.take(i as int));
            assert(iv[i as int] == items@[i as int]@);
        }
        if i > 0 {
            extend_str(&mut out, sep);
        }
        extend_str(&mut out, items[i].as_str());
        proof {
            if i == 0 {
                assert(out@ =~= join_with(iv.take(1), sep@));
            } else {
                assert(out@ =~= join_with(iv.take(i as int + 1), sep@));
            }
        }
        i = i + 1;
    }
    proof {
        assert(iv.take(items@.len() as int) =~= iv);
    }
    string_of(out.as_slice())
}

/// The hot-memory line of one decision.
pub open spec fn hot_decision_line(d: StoredDecision) -> Seq<char> {
    let files_hint = if d.files@.len() == 0 {
        seq![]
    } else {
        " ["@ + join_with(string_views(d.files@), ", "@) + "]"@
    };
    "- DECIDED ("@ + d.domain@ + "): "@ + d.decision@ + files_hint + (if d.rationale@.len() > 0 {
        " — "@ + d.rationale@
    } else {
        seq![]
    }) + "\n"@
}

pub open spec fn hot_decisions(ds: Seq<StoredDecision>) -> Seq<char>
    decreases ds.len(),
{
    if ds.len() == 0 {
        seq![]
    } else {
        hot_decisions(ds.drop_last()) + hot_decision_line(ds.last())
    }
}

/// `prefix + item + "\n"` for every item.
pub open spec fn bullet_lines(prefix: Seq<char>, items: Seq<Seq<char>>) -> Seq<char>
    decreases items.len(),
{
    if items.len() == 0 {
        seq![]
    } else {
        bullet_lines(prefix, items.drop_last()) + prefix + items.last() + "\n"@
    }
}

/// The opening of the hot memory: the project heading and its phase.
pub open spec fn hot_head(project: Seq<char>, phase: Option<(Seq<char>, Seq<char>)>) -> Seq<char> {
    "## Project: "@ + project + "\n"@ + (match phase {
        Some((domain, name)) => "- PHASE: "@ + name + " ("@ + domain + ")\n"@,
        None => seq![],
    })
}

/// The close of the hot memory: blockers, open questions and the time stamp.
pub open spec fn hot_tail(blockers: Seq<Seq<char>>, questions: Seq<Seq<char>>, updated: Seq<char>) -> Seq<char> {
    (if blockers.len() > 0 {
        bullet_lines("- BLOCKER: "@, blockers)
    } else {
        "- BLOCKER: None\n"@
    }) + bullet_lines("- OPEN: "@, questions) + "- UPDATED: "@ + updated + "\n"@
}

/// The hot memory of a project with the given decisions: a shorthand
/// snapshot of its phase, decisions, blockers and open questions, stamped
/// with `updated`.
pub open spec fn hot_memory(
    project: Seq<char>,
    decisions: Seq<StoredDecision>,
    blockers: Seq<Seq<char>>,
    questions: Seq<Seq<char>>,
    phase: Option<(Seq<char>, Seq<char>)>,
    updated: Seq<char>,
) -> Seq<char> {
    hot_head(project, phase) + hot_decisions(decisions) + hot_tail(blockers, questions, updated)
}

/// The token budget of the hot memory.
pub const HOT_MEMORY_BUDGET: usize = 500;

/// Whether a text fits the hot-memory budget (a token taken as 4 bytes).
pub open spec fn within_hot_budget(s: Seq<char>) -> bool {
    byte_len(s) / 4 <= HOT_MEMORY_BUDGET
}

/// How many of the decisions, from the first, the hot memory keeps: the
/// most, up to `k`, whose rendering fits the budget (0 when none does).
pub open spec fn kept_decisions(
    project: Seq<char>,
    decisions: Seq<StoredDecision>,
    blockers: Seq<Seq<char>>,
    questions: Seq<Seq<char>>,
    phase: Option<(Seq<char>, Seq<char>)>,
    updated: Seq<char>,
    k: nat,
) -> nat
    decreases k,
{
    if k == 0 {
        0
    } else if within_hot_budget(
        hot_memory(project, decisions.take(k as int), blockers, questions, phase, updated),
    ) {
        k
    } else {
        kept_decisions(project, decisions, blockers, questions, phase, updated, (k - 1) as nat)
    }
}

/// The hot memory within its budget: decisions past those that fit are left
/// out.
pub open spec fn budgeted_hot_memory(
    project: Seq<char>,
    decisions: Seq<StoredDecision>,
    blockers: Seq<Seq<char>>,
    questions: Seq<Seq<char>>,
    phase: Option<(Seq<char>, Seq<char>)>,
    updated: Seq<char>,
) -> Seq<char> {
    let k = kept_decisions(project, decisions, blockers, questions, phase, updated, decisions.len());
    hot_memory(project, decisions.take(k as int), blockers, questions, phase, updated)
}

/// The hot memory stays within its 500-token budget whenever its parts other
/// than the decisions do, and it keeps as many decisions as fit: no longer
/// run of the decisions would fit.
pub proof fn lemma_hot_memory_budget(
    project: Seq<char>,
    decisions: Seq<StoredDecision>,
    blockers: Seq<Seq<char>>,
    questions: Seq<Seq<char>>,
    phase: Option<(Seq<char>, Seq<char>)>,
    updated: Seq<char>,
)
    requires
        within_hot_budget(hot_memory(project, seq![], blockers, questions, phase, updated)),
    ensures
        within_hot_budget(budgeted_hot_memory(project, decisions, blockers, questions, phase, updated)),
        forall|j: int|
            kept_decisions(project, decisions, blockers, questions, phase, updated, decisions.len()) < j
                <= decisions.len() ==> !within_hot_budget(
                hot_memory(project, #[trigger] decisions.take(j), blockers, questions, phase, updated),
            ),
{
    lemma_kept_decisions(project, decisions, blockers, questions, phase, updated, decisions.len());
}

proof fn lemma_kept_decisions(
    project: Seq<char>,
    decisions: Seq<StoredDecision>,
    blockers: Seq<Seq<char>>,
    questions: Seq<Seq<char>>,
    phase: Option<(Seq<char>, Seq<char>)>,
    updated: Seq<char>,
    k: nat,
)
    requires
        within_hot_budget(hot_memory(project, seq![], blockers, questions, phase, updated)),
        k <= decisions.len(),
    ensures
        ({
            let m = kept_decisions(project, decisions, blockers, questions, phase, updated, k);
            &&& m <= k
            &&& within_hot_budget(hot_memory(project, decisions.take(m as int), blockers, questions, phase, updated))
            &&& forall|j: int|
                m < j <= k ==> !within_hot_budget(
                    hot_memory(project, #[trigger] decisions.take(j), blockers, questions, phase, updated),
                )
        }),
    decreases k,
{
    if k == 0 {
        assert(decisions.take(0) =~= Seq::<StoredDecision>::empty());
    } else {
        lemma_kept_decisions(project, decisions, blockers, questions, phase, updated, (k - 1) as nat);
    }
}

fn push_bullets(out: &mut Vec<char>, prefix: &str, items: &Vec<String>)
    ensures
        final(out)@ == old(out)@ + bullet_lines(prefix@, string_views(items@)),
{
    let ghost iv = string_views(items@);
    let ghost start = out@;
    let mut i: usize = 0;
    while i < items.len()
        invariant
            i <= items@.len(),
            iv == string_views(items@),
            out@ == start + bullet_lines(prefix@, iv.take(i as int)),
        decreases items@.len() - i,
    {
        proof {
            assert(iv.take(i as int + 1).drop_last() =~= iv.take(i as int));
            assert(iv[i as int] == items@[i as int]@);
        }
        extend_str(out, prefix);
        extend_str(out, items[i].as_str());
        extend_str(out, "\n");
        proof {
            assert(out@ =~= start + bullet_lines(prefix@, iv.take(i as int + 1)));
        }
        i = i + 1;
    }
    proof {
        assert(iv.take(items@.len() as int) =~= iv);
    }
}

/// The hot-memory line of one decision.
fn decision_line(d: &StoredDecision) -> (r: String)
    ensures
        r@ == hot_decision_line(*d),
{
    let mut out: Vec<char> = Vec::new();
    extend_str(&mut out, "- DECIDED (");
    extend_str(&mut out, d.domain.as_str());
    extend_str(&mut out, "): ");
    extend_str(&mut out, d.decision.as_str());
    if d.files.len() > 0 {
        extend_str(&mut out, " [");
        let j = join_strings(&d.files, ", ");
        extend_str(&mut out, j.as_str());
        extend_str(&mut out, "]");
    }
    if chars_of(d.rationale.as_str()).len() > 0 {
        extend_str(&mut out, " — ");
        extend_str(&mut out, d.rationale.as_str());
    }
    extend_str(&mut out, "\n");
    proof {
        assert(out@ =~= hot_decision_line(*d));
    }
    string_of(out.as_slice())
}

/// Generate the hot memory text of a project, within its token budget: the
/// decisions are kept from the first for as long as the whole fits.
#[verifier::spinoff_prover]
pub fn render_hot_memory(
    project: &str,
    decisions: &Vec<StoredDecision>,
    blockers: &Vec<String>,
    questions: &Vec<String>,
    phase: &Option<(String, String)>,
    updated: &str,
) -> (r: String)
    ensures
        ({
            let ph = match phase {
                Some(p) => Some((p.0@, p.1@)),
                None => None,
            };
            &&& r@ == budgeted_hot_memory(
                project@,
                decisions@,
                string_views(blockers@),
                string_views(questions@),
                ph,
                updated@,
            )
            &&& within_hot_budget(hot_memory(project@, seq![], string_views(blockers@), string_views(questions@), ph, updated@))
                ==> byte_len(r@) / 4 <= 500
        }),
{
    let ghost ph = match phase {
        Some(p) => Some((p.0@, p.1@)),
        None => None,
    };
    let ghost bv = string_views(blockers@);
    let ghost qv = string_views(questions@);
    let ghost ds = decisions@;
    let mut head: Vec<char> = Vec::new();
    extend_str(&mut head, "## Project: ");
    extend_str(&mut head, project);
    extend_str(&mut head, "\n");
    if let Some((domain, name)) = phase {
        extend_str(&mut head, "- PHASE: ");
        extend_str(&mut head, name.as_str());
        extend_str(&mut head, " (");
        extend_str(&mut head, domain.as_str());
        extend_str(&mut head, ")\n");
    }
    proof {
        assert(head@ =~= hot_head(project@, ph));
    }
    let mut tail: Vec<char> = Vec::new();
    if blockers.len() > 0 {
        push_bullets(&mut tail, "- BLOCKER: ", blockers);
    } else {
        extend_str(&mut tail, "- BLOCKER: None\n");
    }
    push_bullets(&mut tail, "- OPEN: ", questions);
    extend_str(&mut tail, "- UPDATED: ");
    extend_str(&mut tail, updated);
    extend_str(&mut tail, "\n");
    proof {
        assert(tail@ =~= hot_tail(bv, qv, updated@));
    }
    let head_s = string_of(head.as_slice());
    let tail_s = string_of(tail.as_slice());
    let hl = crate::text::str_len(head_s.as_str()) as u64;
    let tl = crate::text::str_len(tail_s.as_str()) as u64;
    let mut acc: u64 = hl.saturating_add(tl);
    proof {
        assert(decisions@.take(0) =~= Seq::<StoredDecision>::empty());
        crate::text::lemma_byte_len_concat(head@, hot_decisions(ds.take(0)));
        crate::text::lemma_byte_len_concat(head@ + hot_decisions(ds.take(0)), tail@);
        assert(head@ + hot_decisions(ds.take(0)) =~= head@);
    }
    let mut lines: Vec<String> = Vec::new();
    let mut best: usize = 0;
    let mut i: usize = 0;
    while i < decisions.len()
        invariant
            i <= ds.len(),
            ds == decisions@,
            lines@.len() == i,
            forall|j: int| 0 <= j < i ==> (#[trigger] lines@[j])@ == hot_decision_line(ds[j]),
            head@ == hot_head(project@, ph),
            tail@ == hot_tail(bv, qv, updated@),
            acc as int == (if byte_len(hot_memory(project@, ds.take(i as int), bv, qv, ph, updated@)) <= u64::MAX {
                byte_len(hot_memory(project@, ds.take(i as int), bv, qv, ph, updated@)) as int
            } else {
                u64::MAX as int
            }),
            best as nat == kept_decisions(project@, ds, bv, qv, ph, updated@, i as nat),
            best <= i,
        decreases ds.len() - i,
    {
        let line = decision_line(&decisions[i]);
        let l = crate::text::str_len(line.as_str()) as u64;
        proof {
            assert(ds.take(i as int + 1).drop_last() =~= ds.take(i as int));
            let a = hot_decisions(ds.take(i as int));
            crate::text::lemma_byte_len_concat(head@, a);
            crate::text::lemma_byte_len_concat(head@ + a, tail@);
            crate::text::lemma_byte_len_concat(a, line@);
            crate::text::lemma_byte_len_concat(head@, a + line@);
            crate::text::lemma_byte_len_concat(head@ + (a + line@), tail@);
        }
        acc = acc.saturating_add(l);
        lines.push(line);
        i = i + 1;
        if acc / 4 <= 500 {
            best = i;
        }
    }
    proof {
        assert(ds.take(ds.len() as int) =~= ds);
    }
    let mut out: Vec<char> = Vec::new();
    extend_chars(&mut out, head.as_slice());
    let mut j: usize = 0;
    while j < best
        invariant
            j <= best <= lines@.len(),
            lines@.len() == ds.len(),
            forall|x: int| 0 <= x < lines@.len() ==> (#[trigger] lines@[x])@ == hot_decision_line(ds[x]),
            out@ == head@ + hot_decisions(ds.take(j as int)),
        decreases best - j,
    {
        proof {
            assert(ds.take(j as int + 1).drop_last() =~= ds.take(j as int));
            assert(lines@[j as int]@ == hot_decision_line(ds[j as int]));
        }
        extend_str(&mut out, lines[j].as_str());
        proof {
            assert(out@ =~= head@ + hot_decisions(ds.take(j as int + 1)));
        }
        j = j + 1;
    }
    extend_chars(&mut out, tail.as_slice());
    proof {
        assert(out@ =~= hot_memory(project@, ds.take(best as int), bv, qv, ph, updated@));
        if within_hot_budget(hot_memory(project@, seq![], bv, qv, ph, updated@)) {
            lemma_hot_memory_budget(project@, ds, bv, qv, ph, updated@);
        }
    }
    string_of(out.as_slice())
}

} // verus!

verus! {

/// The project brain's entry for a decision that follows one in `prev_domain`:
/// a domain heading when the domain changes, the decision in bold, its
/// rationale, and its files.
pub open spec fn brain_decision(d: StoredDecision, prev_domain: Seq<char>) -> Seq<char> {
    (if d.domain@ != prev_domain {
        "\n### "@ + d.domain@ + "\n"@
    } else {
        seq![]
    }) + "- **"@ + d.decision@ + "**"@ + (if d.rationale@.len() > 0 {
        " — "@ + d.rationale@
    } else {
        seq![]
    }) + "\n"@ + (if d.files@.len() > 0 {
        "  Files: "@ + join_with(string_views(d.files@), ", "@) + "\n"@
    } else {
        seq![]
    })
}

pub open spec fn brain_decisions(ds: Seq<StoredDecision>) -> Seq<char>
    decreases ds.len(),
{
    if ds.len() == 0 {
        seq![]
    } else {
        brain_decisions(ds.drop_last()) + brain_decision(
            ds.last(),
            if ds.len() == 1 {
                seq![]
            } else {
                ds[ds.len() - 2].domain@
            },
        )
    }
}

/// The human-readable project brain: phase, decisions grouped by domain,
/// blockers and open questions, stamped with `generated`.
pub open spec fn brain(
    project: Seq<char>,
    decisions: Seq<StoredDecision>,
    blockers: Seq<Seq<char>>,
    questions: Seq<Seq<char>>,
    phase: Option<(Seq<char>, Seq<char>)>,
    generated: Seq<char>,
) -> Seq<char> {
    "# Project Brain — "@ + project + "\n"@ + "Generated: "@ + generated + "\n\n"@ + (match phase {
        Some((domain, name)) => "## Current Phase\n"@ + "- "@ + domain + ": "@ + name + "\n\n"@,
        None => seq![],
    }) + (if decisions.len() > 0 {
        "## Active Decisions\n"@ + brain_decisions(decisions) + "\n"@
    } else {
        seq![]
    }) + "## Blockers\n"@ + (if blockers.len() == 0 {
        "- None\n"@
    } else {
        bullet_lines("- "@, blockers)
    }) + "\n"@ + (if questions.len() > 0 {
        "## Open Questions\n"@ + bullet_lines("- "@, questions) + "\n"@
    } else {
        seq![]
    })
}

fn push_brain_decisions(md: &mut Vec<char>, decisions: &Vec<StoredDecision>)
    ensures
        final(md)@ == old(md)@ + brain_decisions(decisions@),
{
    let ghost start = md@;
    let mut current_domain = String::new();
    let mut i: usize = 0;
    while i < decisions.len()
        invariant
            i <= decisions@.len(),
            md@ == start + brain_decisions(decisions@.take(i as int)),
            current_domain@ == if i == 0 {
                Seq::<char>::empty()
            } else {
                decisions@[i - 1].domain@
            },
        decreases decisions@.len() - i,
    {
        proof {
            assert(decisions@.take(i as int + 1).drop_last() =~= decisions@.take(i as int));
            if i > 0 {
                assert(decisions@.take(i as int + 1)[i - 1] == decisions@[i - 1]);
            }
        }
        let d = &decisions[i];
        let ghost before = md@;
        let ghost prev = current_domain@;
        let mut piece: Vec<char> = Vec::new();
        if !str_eq(d.domain.as_str(), current_domain.as_str()) {
            extend_str(&mut piece, "\n### ");
            extend_str(&mut piece, d.domain.as_str());
            extend_str(&mut piece, "\n");
        }
        current_domain = d.domain.clone();
        extend_str(&mut piece, "- **");
        extend_str(&mut piece, d.decision.as_str());
        extend_str(&mut piece, "**");
        if chars_of(d.rationale.as_str()).len() > 0 {
            extend_str(&mut piece, " — ");
            extend_str(&mut piece, d.rationale.as_str());
        }
        extend_str(&mut piece, "\n");
        if d.files.len() > 0 {
            extend_str(&mut piece, "  Files: ");
            let j = join_strings(&d.files, ", ");
            extend_str(&mut piece, j.as_str());
            extend_str(&mut piece, "\n");
        }
        proof {
            assert(piece@ =~= brain_decision(*d, prev));
        }
        crate::text::extend_chars(md, piece.as_slice());
        proof {
            assert(md@ =~= start + brain_decisions(decisions@.take(i as int + 1)));
        }
        i = i + 1;
    }
    proof {
        assert(decisions@.take(decisions@.len() as int) =~= decisions@);
    }
}

/// Text `a + p + b` holds `p`.
proof fn lemma_occurs_in_middle(a: Seq<char>, p: Seq<char>, b: Seq<char>)
    ensures
        crate::textops::contains(a + p + b, p),
{
    assert((a + p + b).subrange(a.len() as int, (a.len() + p.len()) as int) =~= p);
    assert(crate::textops::occurs_at(a + p + b, p, a.len() as int));
}

/// The brain text of the first `n` decisions begins the brain text of all.
proof fn lemma_brain_decisions_prefix(ds: Seq<StoredDecision>, n: int)
    requires
        0 <= n <= ds.len(),
    ensures
        exists|rest: Seq<char>| #[trigger] (brain_decisions(ds.take(n)) + rest) == brain_decisions(ds),
    decreases ds.len() - n,
{
    if n == ds.len() {
        assert(ds.take(n) =~= ds);
        assert(brain_decisions(ds.take(n)) + Seq::<char>::empty() =~= brain_decisions(ds));
    } else {
        lemma_brain_decisions_prefix(ds, n + 1);
        let rest = choose|rest: Seq<char>| #[trigger] (brain_decisions(ds.take(n + 1)) + rest) == brain_decisions(ds);
        let t = ds.take(n + 1);
        assert(t.drop_last() =~= ds.take(n));
        let piece = brain_decision(t.last(), if t.len() == 1 { seq![] } else { t[t.len() - 2].domain@ });
        assert(brain_decisions(t) == brain_decisions(ds.take(n)) + piece);
        assert(brain_decisions(ds.take(n)) + (piece + rest) =~= brain_decisions(ds));
    }
}

/// Text holding `p` still holds it with text added on either side.
proof fn lemma_contains_within(a: Seq<char>, s: Seq<char>, b: Seq<char>, p: Seq<char>)
    requires
        crate::textops::contains(s, p),
    ensures
        crate::textops::contains(a + s + b, p),
{
    let i = choose|i: int| #[trigger] crate::textops::occurs_at(s, p, i);
    assert((a + s + b).subrange(a.len() + i, a.len() + i + p.len()) =~= s.subrange(i, i + p.len()));
    assert(crate::textops::occurs_at(a + s + b, p, a.len() + i));
}

/// The brain's decision lines hold each decision's rationale line.
#[verifier::spinoff_prover]
proof fn lemma_decisions_keep_rationale(decisions: Seq<StoredDecision>, k: int)
    requires
        0 <= k < decisions.len(),
        decisions[k].rationale@.len() > 0,
    ensures
        crate::textops::contains(
            brain_decisions(decisions),
            "- **"@ + decisions[k].decision@ + "** — "@ + decisions[k].rationale@ + "\n"@,
        ),
{
    reveal_strlit("- **");
    reveal_strlit("**");
    reveal_strlit(" — ");
    reveal_strlit("** — ");
    reveal_strlit("\n");
    let d = decisions[k];
    let line = "- **"@ + d.decision@ + "** — "@ + d.rationale@ + "\n"@;
    let t = decisions.take(k + 1);
    assert(t.drop_last() =~= decisions.take(k));
    assert(t.last() == d);
    let prev = if t.len() == 1 { seq![] } else { t[t.len() - 2].domain@ };
    let head = if d.domain@ != prev { "\n### "@ + d.domain@ + "\n"@ } else { seq![] };
    let files = if d.files@.len() > 0 {
        "  Files: "@ + join_with(string_views(d.files@), ", "@) + "\n"@
    } else {
        seq![]
    };
    assert("- **"@ + d.decision@ + "**"@ + (" — "@ + d.rationale@) =~= "- **"@ + d.decision@ + "** — "@ + d.rationale@);
    assert(brain_decision(d, prev) =~= head + line + files);
    lemma_brain_decisions_prefix(decisions, k + 1);
    let rest = choose|rest: Seq<char>| #[trigger] (brain_decisions(t) + rest) == brain_decisions(decisions);
    assert(brain_decisions(t) == brain_decisions(decisions.take(k)) + brain_decision(d, prev));
    let before = brain_decisions(decisions.take(k)) + head;
    let after = files + rest;
    assert(brain_decisions(decisions) =~= before + line + after);
    lemma_occurs_in_middle(before, line, after);
}

/// Every decision with a rationale appears in the project brain on a line of
/// its own: the decision in bold, a dash, and the rationale.
pub proof fn lemma_brain_keeps_rationales(
    project: Seq<char>,
    decisions: Seq<StoredDecision>,
    blockers: Seq<Seq<char>>,
    questions: Seq<Seq<char>>,
    phase: Option<(Seq<char>, Seq<char>)>,
    generated: Seq<char>,
    k: int,
)
    requires
        0 <= k < decisions.len(),
        decisions[k].rationale@.len() > 0,
    ensures
        crate::textops::contains(
            brain(project, decisions, blockers, questions, phase, generated),
            "- **"@ + decisions[k].decision@ + "** — "@ + decisions[k].rationale@ + "\n"@,
        ),
{
    let line = "- **"@ + decisions[k].decision@ + "** — "@ + decisions[k].rationale@ + "\n"@;
    lemma_decisions_keep_rationale(decisions, k);
    let mid = brain_decisions(decisions);
    let before = "# Project Brain — "@ + project + "\n"@ + "Generated: "@ + generated + "\n\n"@ + (match phase {
        Some((domain, name)) => "## Current Phase\n"@ + "- "@ + domain + ": "@ + name + "\n\n"@,
        None => seq![],
    }) + "## Active Decisions\n"@;
    let after = "\n"@ + "## Blockers\n"@ + (if blockers.len() == 0 {
        "- None\n"@
    } else {
        bullet_lines("- "@, blockers)
    }) + "\n"@ + (if questions.len() > 0 {
        "## Open Questions\n"@ + bullet_lines("- "@, questions) + "\n"@
    } else {
        seq![]
    });
    assert(brain(project, decisions, blockers, questions, phase, generated) =~= before + mid + after);
    lemma_contains_within(before, mid, after, line);
}

/// Generate the text of project_brain.md.
#[verifier::spinoff_prover]
#[verifier::rlimit(40)]
pub fn render_brain(
    project: &str,
    decisions: &Vec<StoredDecision>,
    blockers: &Vec<String>,
    questions: &Vec<String>,
    phase: &Option<(String, String)>,
    generated: &str,
) -> (r: String)
    ensures
        r@ == brain(
            project@,
            decisions@,
            string_views(blockers@),
            string_views(questions@),
            match phase {
                Some(p) => Some((p.0@, p.1@)),
                None => None,
            },
            generated@,
        ),
{
    let ghost pv = match phase {
        Some(p) => Some((p.0@, p.1@)),
        None => None,
    };
    let mut a: Vec<char> = Vec::new();
    extend_str(&mut a, "# Project Brain — ");
    extend_str(&mut a, project);
    extend_str(&mut a, "\n");
    extend_str(&mut a, "Generated: ");
    extend_str(&mut a, generated);
    extend_str(&mut a, "\n\n");
    let mut b: Vec<char> = Vec::new();
    if let Some((domain, name)) = phase {
        extend_str(&mut b, "## Current Phase\n");
        extend_str(&mut b, "- ");
        extend_str(&mut b, domain.as_str());
        extend_str(&mut b, ": ");
        extend_str(&mut b, name.as_str());
        extend_str(&mut b, "\n\n");
    }
    let mut c: Vec<char> = Vec::new();
    if decisions.len() > 0 {
        extend_str(&mut c, "## Active Decisions\n");
        push_brain_decisions(&mut c, decisions);
        extend_str(&mut c, "\n");
    }
    let mut d: Vec<char> = Vec::new();
    extend_str(&mut d, "## Blockers\n");
    if blockers.len() == 0 {
        extend_str(&mut d, "- None\n");
    } else {
        push_bullets(&mut d, "- ", blockers);
    }
    extend_str(&mut d, "\n");
    let mut e: Vec<char> = Vec::new();
    if questions.len() > 0 {
        extend_str(&mut e, "## Open Questions\n");
        push_bullets(&mut e, "- ", questions);
        extend_str(&mut e, "\n");
    }
    proof {
        assert(a@ =~= "# Project Brain — "@ + project@ + "\n"@ + "Generated: "@ + generated@ + "\n\n"@);
        assert(b@ =~= match pv {
            Some((domain, name)) => "## Current Phase\n"@ + "- "@ + domain + ": "@ + name + "\n\n"@,
            None => Seq::<char>::empty(),
        });
    }
    let mut md = a;
    crate::text::extend_chars(&mut md, b.as_slice());
    crate::text::extend_chars(&mut md, c.as_slice());
    crate::text::extend_chars(&mut md, d.as_slice());
    crate::text::extend_chars(&mut md, e.as_slice());
    proof {
        assert(md@ =~= brain(
            project@,
            decisions@,
            string_views(blockers@),
            string_views(questions@),
            pv,
            generated@,
        ));
    }
    string_of(md.as_slice())
}

} // verus!
