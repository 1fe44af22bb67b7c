//! The files and services that an instruction file refers to.

use vstd::prelude::*;
use crate::api::context::{
    NotCharBoundary, resolved, shortened, conditional_ref, condition_of, service_of, resolve_path,
    shorten_path, is_conditional_reference, extract_condition, identify_service,
};
use crate::ingester::string_views;
use crate::secretary::prompts::{join_path, join_paths};
use crate::text::{chars_of, string_of, opt_view, strip_end_by, str_eq};
use crate::textops::{contains, starts_with, ends_with};

verus! {

/// The successive matches of the regular expression `pattern` in `text`:
/// for each, its groups in order (group 0 the whole match), each with the
/// byte offset where it starts and its text, or `None` where the group takes
/// no part; `None` when `pattern` does not compile.
pub uninterp spec fn regex_matches(pattern: Seq<char>, text: Seq<char>) -> Option<
    Seq<Seq<Option<(usize, Seq<char>)>>>,
>;

/// regex: `Regex::new(pattern)`, then `captures_iter(text)`, each match as
/// its groups' start offsets and texts. The result is named, not stated: it
/// depends on the pattern and the text alone.
#[verifier::external_body]
pub(crate) fn regex_captures(pattern: &str, text: &str) -> (r: Option<Vec<Vec<Option<(usize, String)>>>>)
    ensures
        r.deep_view() == regex_matches(pattern@, text@),
{
    match regex::Regex::new(pattern) {
        Ok(re) => Some(
            re.captures_iter(text).map(|c| c.iter().map(|g| g.map(|m| (m.start(), m.as_str().to_string()))).collect()).collect(),
        ),
        Err(_) => None,
    }
}

/// Names that the reference scan cannot hard-wire: the instruction files'
/// own name, and the URL parts of sites that are not services.
pub struct ReferenceRules {
    /// The name of the instruction files.
    pub instructions_file: String,
    /// The directory under home that holds the global instruction file.
    pub global_dir: String,
    pub ignored_url_parts: Vec<String>,
}

/// A reference found in an instruction file, before the file system is
/// consulted.
pub struct PlannedRef {
    /// The path or address shown.
    pub path: String,
    /// "always" | "conditional" | "external"
    pub ref_type: String,
    pub condition: Option<String>,
    pub note: Option<String>,
    /// The file to look at, for references to files.
    pub file: Option<String>,
    /// Whether the file's tokens count (not for secrets).
    pub count_tokens: bool,
    /// Whether the file was found by listing its directory.
    pub listed: bool,
}

pub struct PlanView {
    pub path: Seq<char>,
    pub ref_type: Seq<char>,
    pub condition: Option<Seq<char>>,
    pub note: Option<Seq<char>>,
    pub file: Option<Seq<char>>,
    pub count_tokens: bool,
    pub listed: bool,
}

impl View for PlannedRef {
    type V = PlanView;

    open spec fn view(&self) -> PlanView {
        PlanView {
            path: self.path@,
            ref_type: self.ref_type@,
            condition: opt_view(self.condition),
            note: opt_view(self.note),
            file: opt_view(self.file),
            count_tokens: self.count_tokens,
            listed: self.listed,
        }
    }
}

pub open spec fn plan_views(v: Seq<PlannedRef>) -> Seq<PlanView> {
    v.map_values(|p: PlannedRef| p@)
}

/// The state of a scan for references: the files already referred to (in
/// this file or an earlier one of the chain), the ports and URLs already
/// seen in this file, what was found, and whether slicing the text around a
/// reference has failed.
pub struct RefsView {
    pub seen: Set<Seq<char>>,
    pub ports: Set<Seq<char>>,
    pub urls: Set<Seq<char>>,
    pub out: Seq<PlanView>,
    pub ok: bool,
}

/// A `cat`/`source`/`read ~/...` reference.
pub open spec fn cmd_step(st: RefsView, content: Seq<char>, project_dir: Seq<char>, home: Seq<char>, cap: Option<Seq<char>>) -> RefsView {
    match cap {
        None => st,
        Some(raw) => {
            let r = resolved(raw, project_dir, home);
            if !st.ok || st.seen.contains(r) {
                st
            } else {
                match (conditional_ref(content, raw), condition_of(content, raw)) {
                    (Some(c), Some(cond)) => {
                        let secret = contains(raw, "secrets.env"@);
                        RefsView {
                            seen: st.seen.insert(r),
                            out: st.out.push(
                                PlanView {
                                    path: shortened(r, home),
                                    ref_type: if secret || c {
                                        "conditional"@
                                    } else {
                                        "always"@
                                    },
                                    condition: cond,
                                    note: if secret {
                                        Some("source only, never cat"@)
                                    } else {
                                        None
                                    },
                                    file: Some(r),
                                    count_tokens: !secret,
                                    listed: false,
                                },
                            ),
                            ..st
                        }
                    },
                    _ => RefsView { ok: false, ..st },
                }
            }
        },
    }
}

/// The code of `c` with ASCII capitals mapped to small letters.
pub open spec fn ascii_lower(c: char) -> u32 {
    if 'A' <= c && c <= 'Z' {
        ((c as u32) + 32) as u32
    } else {
        c as u32
    }
}

/// `a` and `b` are equal up to ASCII case (std `eq_ignore_ascii_case`).
pub open spec fn eq_ignore_ascii_case(a: Seq<char>, b: Seq<char>) -> bool {
    a.len() == b.len() && forall|i: int| 0 <= i < a.len() ==> ascii_lower(#[trigger] a[i]) == ascii_lower(b[i])
}

/// A "read/check/consult X.md" reference, to a file of the project.
pub open spec fn read_step(st: RefsView, content: Seq<char>, project_dir: Seq<char>, home: Seq<char>, own: Seq<char>, cap: Option<Seq<char>>) -> RefsView {
    match cap {
        None => st,
        Some(f) => {
            let r = join_path(project_dir, f);
            if !st.ok || eq_ignore_ascii_case(f, own) || st.seen.contains(r) {
                st
            } else {
                match condition_of(content, f) {
                    Some(cond) => RefsView {
                        seen: st.seen.insert(r),
                        out: st.out.push(
                            PlanView {
                                path: shortened(r, home),
                                ref_type: "conditional"@,
                                condition: cond,
                                note: None,
                                file: Some(r),
                                count_tokens: true,
                                listed: false,
                            },
                        ),
                        ..st
                    },
                    None => RefsView { ok: false, ..st },
                }
            }
        },
    }
}

/// A TASK file of the project, when the text mentions TASK files.
pub open spec fn task_step(st: RefsView, project_dir: Seq<char>, home: Seq<char>, fname: Seq<char>) -> RefsView {
    let r = join_path(project_dir, fname);
    if !st.ok || !starts_with(fname, "TASK"@) || !ends_with(fname, ".md"@) || st.seen.contains(r) {
        st
    } else {
        RefsView {
            seen: st.seen.insert(r),
            out: st.out.push(
                PlanView {
                    path: shortened(r, home),
                    ref_type: "conditional"@,
                    condition: Some("if executing a TASK spec"@),
                    note: None,
                    file: Some(r),
                    count_tokens: true,
                    listed: true,
                },
            ),
            ..st
        }
    }
}

/// A `localhost:PORT` service.
pub open spec fn port_step(st: RefsView, content: Seq<char>, cap: Option<Seq<char>>) -> RefsView {
    match cap {
        None => st,
        Some(port) => if !st.ok || st.ports.contains(port) {
            st
        } else {
            match service_of(content, port) {
                Some(name) => RefsView {
                    ports: st.ports.insert(port),
                    out: st.out.push(
                        PlanView {
                            path: "localhost:"@ + port,
                            ref_type: "external"@,
                            condition: None,
                            note: Some(name),
                            file: None,
                            count_tokens: false,
                            listed: false,
                        },
                    ),
                    ..st
                },
                None => RefsView { ok: false, ..st },
            }
        },
    }
}

pub open spec fn url_junk(c: char) -> bool {
    c == ',' || c == '.' || c == '\''
}

pub open spec fn url_junk_pred() -> spec_fn(char) -> bool {
    |c: char| url_junk(c)
}

/// Whether some of `parts` occurs in `text`.
pub open spec fn mentions_any(text: Seq<char>, parts: Seq<Seq<char>>) -> bool {
    exists|i: int| 0 <= i < parts.len() && contains(text, #[trigger] parts[i])
}

/// An `https://` URL of an outside service.
pub open spec fn url_step(st: RefsView, ignored: Seq<Seq<char>>, m: Option<Seq<char>>) -> RefsView {
    match m {
        None => st,
        Some(raw) => {
            let url = strip_end_by(raw, url_junk_pred());
            if !st.ok || st.urls.contains(url) {
                st
            } else if mentions_any(url, ignored) {
                RefsView { urls: st.urls.insert(url), ..st }
            } else {
                RefsView {
                    urls: st.urls.insert(url),
                    out: st.out.push(
                        PlanView {
                            path: url,
                            ref_type: "external"@,
                            condition: None,
                            note: Some("API endpoint"@),
                            file: None,
                            count_tokens: false,
                            listed: false,
                        },
                    ),
                    ..st
                }
            }
        },
    }
}

pub open spec fn cmd_fold(st: RefsView, content: Seq<char>, project_dir: Seq<char>, home: Seq<char>, caps: Seq<Option<Seq<char>>>) -> RefsView
    decreases caps.len(),
{
    if caps.len() == 0 {
        st
    } else {
        cmd_step(cmd_fold(st, content, project_dir, home, caps.drop_last()), content, project_dir, home, caps.last())
    }
}

pub open spec fn read_fold(st: RefsView, content: Seq<char>, project_dir: Seq<char>, home: Seq<char>, own: Seq<char>, caps: Seq<Option<Seq<char>>>) -> RefsView
    decreases caps.len(),
{
    if caps.len() == 0 {
        st
    } else {
        read_step(read_fold(st, content, project_dir, home, own, caps.drop_last()), content, project_dir, home, own, caps.last())
    }
}

pub open spec fn task_fold(st: RefsView, project_dir: Seq<char>, home: Seq<char>, files: Seq<Seq<char>>) -> RefsView
    decreases files.len(),
{
    if files.len() == 0 {
        st
    } else {
        task_step(task_fold(st, project_dir, home, files.drop_last()), project_dir, home, files.last())
    }
}

pub open spec fn port_fold(st: RefsView, content: Seq<char>, caps: Seq<Option<Seq<char>>>) -> RefsView
    decreases caps.len(),
{
    if caps.len() == 0 {
        st
    } else {
        port_step(port_fold(st, content, caps.drop_last()), content, caps.last())
    }
}

pub open spec fn url_fold(st: RefsView, ignored: Seq<Seq<char>>, caps: Seq<Option<Seq<char>>>) -> RefsView
    decreases caps.len(),
{
    if caps.len() == 0 {
        st
    } else {
        url_step(url_fold(st, ignored, caps.drop_last()), ignored, caps.last())
    }
}

/// All references of an instruction file, given what the five patterns
/// match in it: `cmd` (group 1 of each `cat|source|read ~/...`), `read`
/// (group 1 of each "read/check/consult X.md"), whether TASK files are
/// mentioned, `ports` (group 1 of each `localhost:PORT`) and `urls` (each
/// `https://...`). `seen` holds the files that earlier files of the chain
/// already referred to; `task_files` the names in the project directory.
pub open spec fn references_of(
    content: Seq<char>,
    project_dir: Seq<char>,
    home: Seq<char>,
    own: Seq<char>,
    ignored: Seq<Seq<char>>,
    task_files: Seq<Seq<char>>,
    seen: Set<Seq<char>>,
    cmd: Seq<Option<Seq<char>>>,
    read: Seq<Option<Seq<char>>>,
    tasks_mentioned: bool,
    ports: Seq<Option<Seq<char>>>,
    urls: Seq<Option<Seq<char>>>,
) -> RefsView {
    let st0 = RefsView { seen, ports: Set::empty(), urls: Set::empty(), out: seq![], ok: true };
    let st1 = cmd_fold(st0, content, project_dir, home, cmd);
    let st2 = read_fold(st1, content, project_dir, home, own, read);
    let st3 = if tasks_mentioned {
        task_fold(st2, project_dir, home, task_files)
    } else {
        st2
    };
    let st4 = port_fold(st3, content, ports);
    url_fold(st4, ignored, urls)
}

/// Whether `s` is among `v`.
fn contains_string(v: &Vec<String>, s: &str) -> (r: bool)
    ensures
        r == string_views(v@).to_set().contains(s@),
{
    let mut i: usize = 0;
    while i < v.len()
        invariant
            i <= v@.len(),
            forall|k: int| 0 <= k < i ==> v@[k]@ != s@,
        decreases v@.len() - i,
    {
        if str_eq(v[i].as_str(), s) {
            proof {
                assert(string_views(v@)[i as int] == s@);
            }
            return true;
        }
        i = i + 1;
    }
    proof {
        if string_views(v@).to_set().contains(s@) {
            let k = choose|k: int| 0 <= k < string_views(v@).len() && string_views(v@)[k] == s@;
            assert(v@[k]@ == s@);
        }
    }
    false
}

/// Add `s` to the strings of `v`.
fn add_string(v: &mut Vec<String>, s: String)
    ensures
        string_views(final(v)@).to_set() == string_views(old(v)@).to_set().insert(s@),
{
    let ghost before = string_views(v@);
    let ghost sv = s@;
    v.push(s);
    proof {
        assert(string_views(v@) =~= before.push(sv));
        before.lemma_push_to_set_commute(sv);
    }
}

/// The exec side of a reference scan follows `st`.
pub open spec fn scan_tracks(seen: Seq<String>, ports: Seq<String>, urls: Seq<String>, out: Seq<PlannedRef>, ok: bool, st: RefsView) -> bool {
    &&& string_views(seen).to_set() == st.seen
    &&& string_views(ports).to_set() == st.ports
    &&& string_views(urls).to_set() == st.urls
    &&& plan_views(out) == st.out
    &&& ok == st.ok
}

proof fn lemma_push_plan(out: Seq<PlannedRef>, p: PlannedRef)
    ensures
        plan_views(out.push(p)) == plan_views(out).push(p@),
{
    assert(plan_views(out.push(p)) =~= plan_views(out).push(p@));
}

/// Strip trailing `,` `.` `'` from a URL.
fn trim_url(v: &Vec<char>) -> (r: Vec<char>)
    ensures
        r@ == strip_end_by(v@, url_junk_pred()),
{
    let mut k: usize = v.len();
    proof {
        assert(v@.subrange(0, k as int) =~= v@);
    }
    while k > 0 && (v[k - 1] == ',' || v[k - 1] == '.' || v[k - 1] == '\'')
        invariant
            k <= v@.len(),
            strip_end_by(v@, url_junk_pred()) == strip_end_by(v@.subrange(0, k as int), url_junk_pred()),
        decreases k,
    {
        assert(v@.subrange(0, k as int).drop_last() =~= v@.subrange(0, k - 1));
        k = k - 1;
    }
    crate::text::slice_chars(v.as_slice(), 0, k)
}

/// Whether some of `parts` occurs in `text`.
fn mentions_any_exec(text: &Vec<char>, parts: &Vec<String>) -> (r: bool)
    ensures
        r == mentions_any(text@, string_views(parts@)),
{
    let mut i: usize = 0;
    while i < parts.len()
        invariant
            i <= parts@.len(),
            forall|k: int| 0 <= k < i ==> !contains(text@, #[trigger] string_views(parts@)[k]),
        decreases parts@.len() - i,
    {
        let w = chars_of(parts[i].as_str());
        if crate::textops::contains_chars(text.as_slice(), w.as_slice()) {
            proof {
                assert(string_views(parts@)[i as int] == w@);
            }
            return true;
        }
        i = i + 1;
    }
    false
}

fn eq_ignore_ascii_case_exec(a: &str, b: &str) -> (r: bool)
    ensures
        r == eq_ignore_ascii_case(a@, b@),
{
    let av = chars_of(a);
    let bv = chars_of(b);
    if av.len() != bv.len() {
        return false;
    }
    let mut i: usize = 0;
    while i < av.len()
        invariant
            i <= av@.len() == bv@.len(),
            av@ == a@,
            bv@ == b@,
            forall|k: int| 0 <= k < i ==> ascii_lower(#[trigger] av@[k]) == ascii_lower(bv@[k]),
        decreases av@.len() - i,
    {
        let x = av[i];
        let y = bv[i];
        let lx: u32 = if 'A' <= x && x <= 'Z' {
            (x as u32) + 32
        } else {
            x as u32
        };
        let ly: u32 = if 'A' <= y && y <= 'Z' {
            (y as u32) + 32
        } else {
            y as u32
        };
        assert(lx == ascii_lower(x));
        assert(ly == ascii_lower(y));
        if lx != ly {
            assert(ascii_lower(av@[i as int]) != ascii_lower(bv@[i as int]));
            assert(av@ == a@ && bv@ == b@);
            assert(ascii_lower(a@[i as int]) != ascii_lower(b@[i as int]));
            return false;
        }
        i = i + 1;
    }
    true
}

/// The exec state of a reference scan.
pub struct RefScan {
    pub seen: Vec<String>,
    pub ports: Vec<String>,
    pub urls: Vec<String>,
    pub out: Vec<PlannedRef>,
    pub ok: bool,
}

pub open spec fn follows(sc: RefScan, st: RefsView) -> bool {
    scan_tracks(sc.seen@, sc.ports@, sc.urls@, sc.out@, sc.ok, st)
}

fn cmd_item(sc: &mut RefScan, content: &str, project_dir: &str, home: &str, cap: &Option<String>, Ghost(st): Ghost<RefsView>)
    requires
        follows(*old(sc), st),
    ensures
        follows(*final(sc), cmd_step(st, content@, project_dir@, home@, opt_view(*cap))),
{
    if !sc.ok {
        return;
    }
    if let Some(raw) = cap {
        let r = resolve_path(raw.as_str(), project_dir, home);
        if contains_string(&sc.seen, r.as_str()) {
            return;
        }
        match (is_conditional_reference(content, raw.as_str()), extract_condition(content, raw.as_str())) {
            (Ok(c), Ok(cond)) => {
                let secret = crate::textops::str_contains(raw.as_str(), "secrets.env");
                let p = PlannedRef {
                    path: shorten_path(r.as_str(), home),
                    ref_type: if secret || c {
                        "conditional".to_string()
                    } else {
                        "always".to_string()
                    },
                    condition: cond,
                    note: if secret {
                        Some("source only, never cat".to_string())
                    } else {
                        None
                    },
                    file: Some(r.clone()),
                    count_tokens: !secret,
                    listed: false,
                };
                add_string(&mut sc.seen, r);
                proof {
                    lemma_push_plan(sc.out@, p);
                }
                sc.out.push(p);
            },
            _ => {
                sc.ok = false;
            },
        }
    }
}

fn read_item(
    sc: &mut RefScan,
    content: &str,
    project_dir: &str,
    home: &str,
    own: &str,
    cap: &Option<String>,
    Ghost(st): Ghost<RefsView>,
)
    requires
        follows(*old(sc), st),
    ensures
        follows(*final(sc), read_step(st, content@, project_dir@, home@, own@, opt_view(*cap))),
{
    if !sc.ok {
        return;
    }
    if let Some(f) = cap {
        let r = join_paths(project_dir, f.as_str());
        if eq_ignore_ascii_case_exec(f.as_str(), own) || contains_string(&sc.seen, r.as_str()) {
            return;
        }
        match extract_condition(content, f.as_str()) {
            Ok(cond) => {
                let p = PlannedRef {
                    path: shorten_path(r.as_str(), home),
                    ref_type: "conditional".to_string(),
                    condition: cond,
                    note: None,
                    file: Some(r.clone()),
                    count_tokens: true,
                    listed: false,
                };
                add_string(&mut sc.seen, r);
                proof {
                    lemma_push_plan(sc.out@, p);
                }
                sc.out.push(p);
            },
            Err(_) => {
                sc.ok = false;
            },
        }
    }
}

fn task_item(sc: &mut RefScan, project_dir: &str, home: &str, fname: &String, Ghost(st): Ghost<RefsView>)
    requires
        follows(*old(sc), st),
    ensures
        follows(*final(sc), task_step(st, project_dir@, home@, fname@)),
{
    if !sc.ok {
        return;
    }
    let fv = chars_of(fname.as_str());
    let task = chars_of("TASK");
    let md = chars_of(".md");
    if !crate::textops::starts_with_chars(fv.as_slice(), task.as_slice())
        || !crate::textops::ends_with_chars(fv.as_slice(), md.as_slice()) {
        return;
    }
    let r = join_paths(project_dir, fname.as_str());
    if contains_string(&sc.seen, r.as_str()) {
        return;
    }
    let p = PlannedRef {
        path: shorten_path(r.as_str(), home),
        ref_type: "conditional".to_string(),
        condition: Some("if executing a TASK spec".to_string()),
        note: None,
        file: Some(r.clone()),
        count_tokens: true,
        listed: true,
    };
    add_string(&mut sc.seen, r);
    proof {
        lemma_push_plan(sc.out@, p);
    }
    sc.out.push(p);
}

fn port_item(sc: &mut RefScan, content: &str, cap: &Option<String>, Ghost(st): Ghost<RefsView>)
    requires
        follows(*old(sc), st),
    ensures
        follows(*final(sc), port_step(st, content@, opt_view(*cap))),
{
    if !sc.ok {
        return;
    }
    if let Some(port) = cap {
        if contains_string(&sc.ports, port.as_str()) {
            return;
        }
        match identify_service(content, port.as_str()) {
            Ok(name) => {
                let mut pv = chars_of("localhost:");
                crate::text::extend_str(&mut pv, port.as_str());
                let p = PlannedRef {
                    path: string_of(pv.as_slice()),
                    ref_type: "external".to_string(),
                    condition: None,
                    note: Some(name),
                    file: None,
                    count_tokens: false,
                    listed: false,
                };
                add_string(&mut sc.ports, port.clone());
                proof {
                    lemma_push_plan(sc.out@, p);
                }
                sc.out.push(p);
            },
            Err(_) => {
                sc.ok = false;
            },
        }
    }
}

fn url_item(sc: &mut RefScan, ignored: &Vec<String>, cap: &Option<String>, Ghost(st): Ghost<RefsView>)
    requires
        follows(*old(sc), st),
    ensures
        follows(*final(sc), url_step(st, string_views(ignored@), opt_view(*cap))),
{
    if !sc.ok {
        return;
    }
    if let Some(raw) = cap {
        let rv = chars_of(raw.as_str());
        let uv = trim_url(&rv);
        let url = string_of(uv.as_slice());
        if contains_string(&sc.urls, url.as_str()) {
            return;
        }
        let skip = mentions_any_exec(&uv, ignored);
        add_string(&mut sc.urls, url.clone());
        if !skip {
            let p = PlannedRef {
                path: url,
                ref_type: "external".to_string(),
                condition: None,
                note: Some("API endpoint".to_string()),
                file: None,
                count_tokens: false,
                listed: false,
            };
            proof {
                lemma_push_plan(sc.out@, p);
            }
            sc.out.push(p);
        }
    }
}

/// The views of a list of optional strings.
pub open spec fn opt_views(v: Seq<Option<String>>) -> Seq<Option<Seq<char>>> {
    v.map_values(|o: Option<String>| opt_view(o))
}

proof fn lemma_fold_prefix<A>(v: Seq<A>, i: int)
    requires
        0 <= i < v.len(),
    ensures
        v.take(i + 1).drop_last() == v.take(i),
        v.take(i + 1).last() == v[i],
{
    assert(v.take(i + 1).drop_last() =~= v.take(i));
}

/// The references of an instruction file, given what the five patterns
/// match in it (see [`references_of`]); `seen` gains the files referred to.
/// `Err` where slicing the text around a reference would fall inside a
/// character.
pub fn references_from(
    content: &str,
    project_dir: &str,
    home: &str,
    rules: &ReferenceRules,
    task_files: &Vec<String>,
    seen: &mut Vec<String>,
    cmd: &Vec<Option<String>>,
    read: &Vec<Option<String>>,
    tasks_mentioned: bool,
    ports: &Vec<Option<String>>,
    urls: &Vec<Option<String>>,
) -> (r: Result<Vec<PlannedRef>, NotCharBoundary>)
    ensures
        ({
            let st = references_of(
                content@,
                project_dir@,
                home@,
                rules.instructions_file@,
                string_views(rules.ignored_url_parts@),
                string_views(task_files@),
                string_views(old(seen)@).to_set(),
                opt_views(cmd@),
                opt_views(read@),
                tasks_mentioned,
                opt_views(ports@),
                opt_views(urls@),
            );
            match r {
                Ok(v) => st.ok && plan_views(v@) == st.out && string_views(final(seen)@).to_set() == st.seen,
                Err(_) => !st.ok,
            }
        }),
{
    let ghost st0 = RefsView {
        seen: string_views(seen@).to_set(),
        ports: Set::empty(),
        urls: Set::empty(),
        out: seq![],
        ok: true,
    };
    let mut sc = RefScan { seen: Vec::new(), ports: Vec::new(), urls: Vec::new(), out: Vec::new(), ok: true };
    std::mem::swap(&mut sc.seen, seen);
    proof {
        assert(string_views(sc.ports@).to_set() =~= Set::empty());
        assert(string_views(sc.urls@).to_set() =~= Set::empty());
        assert(plan_views(sc.out@) =~= Seq::<PlanView>::empty());
    }
    let ghost cv = opt_views(cmd@);
    let mut i: usize = 0;
    proof {
        assert(cv.take(0) =~= Seq::<Option<Seq<char>>>::empty());
    }
    while i < cmd.len()
        invariant
            i <= cmd@.len(),
            cv == opt_views(cmd@),
            follows(sc, cmd_fold(st0, content@, project_dir@, home@, cv.take(i as int))),
        decreases cmd@.len() - i,
    {
        proof {
            lemma_fold_prefix(cv, i as int);
        }
        cmd_item(&mut sc, content, project_dir, home, &cmd[i], Ghost(cmd_fold(st0, content@, project_dir@, home@, cv.take(i as int))));
        i = i + 1;
    }
    proof {
        assert(cv.take(cv.len() as int) =~= cv);
    }
    let ghost st1 = cmd_fold(st0, content@, project_dir@, home@, cv);
    let ghost rv = opt_views(read@);
    let mut i: usize = 0;
    proof {
        assert(rv.take(0) =~= Seq::<Option<Seq<char>>>::empty());
    }
    while i < read.len()
        invariant
            i <= read@.len(),
            rv == opt_views(read@),
            follows(sc, read_fold(st1, content@, project_dir@, home@, rules.instructions_file@, rv.take(i as int))),
        decreases read@.len() - i,
    {
        proof {
            lemma_fold_prefix(rv, i as int);
        }
        read_item(
            &mut sc,
            content,
            project_dir,
            home,
            rules.instructions_file.as_str(),
            &read[i],
            Ghost(read_fold(st1, content@, project_dir@, home@, rules.instructions_file@, rv.take(i as int))),
        );
        i = i + 1;
    }
    proof {
        assert(rv.take(rv.len() as int) =~= rv);
    }
    let ghost st2 = read_fold(st1, content@, project_dir@, home@, rules.instructions_file@, rv);
    let ghost tv = string_views(task_files@);
    if tasks_mentioned {
        let mut i: usize = 0;
        proof {
            assert(tv.take(0) =~= Seq::<Seq<char>>::empty());
        }
        while i < task_files.len()
            invariant
                i <= task_files@.len(),
                tv == string_views(task_files@),
                follows(sc, task_fold(st2, project_dir@, home@, tv.take(i as int))),
            decreases task_files@.len() - i,
        {
            proof {
                lemma_fold_prefix(tv, i as int);
            }
            task_item(&mut sc, project_dir, home, &task_files[i], Ghost(task_fold(st2, project_dir@, home@, tv.take(i as int))));
            i = i + 1;
        }
        proof {
            assert(tv.take(tv.len() as int) =~= tv);
        }
    }
    let ghost st3 = if tasks_mentioned {
        task_fold(st2, project_dir@, home@, tv)
    } else {
        st2
    };
    let ghost pv = opt_views(ports@);
    let mut i: usize = 0;
    proof {
        assert(pv.take(0) =~= Seq::<Option<Seq<char>>>::empty());
    }
    while i < ports.len()
        invariant
            i <= ports@.len(),
            pv == opt_views(ports@),
            follows(sc, port_fold(st3, content@, pv.take(i as int))),
        decreases ports@.len() - i,
    {
        proof {
            lemma_fold_prefix(pv, i as int);
        }
        port_item(&mut sc, content, &ports[i], Ghost(port_fold(st3, content@, pv.take(i as int))));
        i = i + 1;
    }
    proof {
        assert(pv.take(pv.len() as int) =~= pv);
    }
    let ghost st4 = port_fold(st3, content@, pv);
    let ghost uv = opt_views(urls@);
    let ghost iv = string_views(rules.ignored_url_parts@);
    let mut i: usize = 0;
    proof {
        assert(uv.take(0) =~= Seq::<Option<Seq<char>>>::empty());
    }
    while i < urls.len()
        invariant
            i <= urls@.len(),
            uv == opt_views(urls@),
            iv == string_views(rules.ignored_url_parts@),
            follows(sc, url_fold(st4, iv, uv.take(i as int))),
        decreases urls@.len() - i,
    {
        proof {
            lemma_fold_prefix(uv, i as int);
        }
        url_item(&mut sc, &rules.ignored_url_parts, &urls[i], Ghost(url_fold(st4, iv, uv.take(i as int))));
        i = i + 1;
    }
    proof {
        assert(uv.take(uv.len() as int) =~= uv);
    }
    std::mem::swap(&mut sc.seen, seen);
    if sc.ok {
        Ok(sc.out)
    } else {
        Err(NotCharBoundary)
    }
}

/// The text of group `g` of each match (none where the pattern does not
/// compile).
pub open spec fn group_texts(o: Option<Seq<Seq<Option<(usize, Seq<char>)>>>>, g: int) -> Seq<Option<Seq<char>>> {
    match o {
        Some(ms) => ms.map_values(
            |m: Seq<Option<(usize, Seq<char>)>>|
                if 0 <= g < m.len() {
                    match m[g] {
                        Some(x) => Some(x.1),
                        None => None,
                    }
                } else {
                    None
                },
        ),
        None => seq![],
    }
}

/// `cat|source|read ~/...`: the path.
pub open spec fn cmd_pattern() -> Seq<char> {
    "(?:cat|source|read)\\s+(~/[^\\s`\\)]+)"@
}

/// "read/check/consult [the] [project's] X.md", any case: the file name.
pub open spec fn read_pattern() -> Seq<char> {
    "(?i)(?:read|check|consult)\\s+(?:the\\s+)?(?:project's?\\s+)?(\\w+\\.md)\\b"@
}

/// A mention of TASK files.
pub open spec fn task_pattern() -> Seq<char> {
    "TASK-\\*\\.md|TASK.+\\.md"@
}

/// `localhost:PORT`: the port.
pub open spec fn port_pattern() -> Seq<char> {
    "localhost:(\\d+)"@
}

/// An `https://` URL.
pub open spec fn url_pattern() -> Seq<char> {
    "https://[^\\s\\)\"']+"@
}

/// The references of the instruction file `content` (see
/// [`references_of`]), found with the five patterns above.
pub open spec fn instruction_references(
    content: Seq<char>,
    project_dir: Seq<char>,
    home: Seq<char>,
    own: Seq<char>,
    ignored: Seq<Seq<char>>,
    task_files: Seq<Seq<char>>,
    seen: Set<Seq<char>>,
) -> RefsView {
    references_of(
        content,
        project_dir,
        home,
        own,
        ignored,
        task_files,
        seen,
        group_texts(regex_matches(cmd_pattern(), content), 1),
        group_texts(regex_matches(read_pattern(), content), 1),
        group_texts(regex_matches(task_pattern(), content), 0).len() > 0,
        group_texts(regex_matches(port_pattern(), content), 1),
        group_texts(regex_matches(url_pattern(), content), 0),
    )
}

fn pattern_matches(pattern: &str, content: &str, group: usize) -> (r: Vec<Option<String>>)
    ensures
        opt_views(r@) == group_texts(regex_matches(pattern@, content@), group as int),
{
    let mut r: Vec<Option<String>> = Vec::new();
    match regex_captures(pattern, content) {
        Some(ms) => {
            let ghost mv = ms.deep_view();
            let mut i: usize = 0;
            while i < ms.len()
                invariant
                    i <= ms@.len(),
                    mv == ms.deep_view(),
                    mv == regex_matches(pattern@, content@)->0,
                    r@.len() == i,
                    forall|k: int| 0 <= k < i ==> #[trigger] opt_view(r@[k]) == group_texts(Some(mv), group as int)[k],
                decreases ms@.len() - i,
            {
                let m = &ms[i];
                let item: Option<String> = if group < m.len() {
                    match &m[group] {
                        Some(x) => Some(x.1.clone()),
                        None => None,
                    }
                } else {
                    None
                };
                proof {
                    assert(mv[i as int] == m.deep_view());
                    if group < m@.len() {
                        assert(m.deep_view()[group as int] == m@[group as int].deep_view());
                    }
                }
                r.push(item);
                i = i + 1;
            }
            proof {
                assert(opt_views(r@) =~= group_texts(Some(mv), group as int));
            }
        },
        None => {
            proof {
                assert(opt_views(r@) =~= Seq::<Option<Seq<char>>>::empty());
            }
        },
    }
    r
}

/// The files and services that the instruction file `content` refers to.
/// `project_dir` is the project's directory and `task_files` the names in
/// it; `seen` holds the files that earlier instruction files of the chain
/// referred to, and gains this one's. A pattern that does not compile is
/// taken to match nothing (none of these five fails to). `Err` where a byte
/// window of the text around a reference would cut a character.
pub fn extract_references(
    content: &str,
    project_dir: &str,
    home: &str,
    rules: &ReferenceRules,
    task_files: &Vec<String>,
    seen: &mut Vec<String>,
) -> (r: Result<Vec<PlannedRef>, NotCharBoundary>)
    ensures
        ({
            let st = instruction_references(
                content@,
                project_dir@,
                home@,
                rules.instructions_file@,
                string_views(rules.ignored_url_parts@),
                string_views(task_files@),
                string_views(old(seen)@).to_set(),
            );
            match r {
                Ok(v) => st.ok && plan_views(v@) == st.out && string_views(final(seen)@).to_set() == st.seen,
                Err(_) => !st.ok,
            }
        }),
{
    let cmd = pattern_matches("(?:cat|source|read)\\s+(~/[^\\s`\\)]+)", content, 1);
    let read = pattern_matches(
        "(?i)(?:read|check|consult)\\s+(?:the\\s+)?(?:project's?\\s+)?(\\w+\\.md)\\b",
        content,
        1,
    );
    let tasks = pattern_matches("TASK-\\*\\.md|TASK.+\\.md", content, 0);
    let ports = pattern_matches("localhost:(\\d+)", content, 1);
    let urls = pattern_matches("https://[^\\s\\)\"']+", content, 0);
    references_from(content, project_dir, home, rules, task_files, seen, &cmd, &read, tasks.len() > 0, &ports, &urls)
}

/// A reference completed with what the file system says of its file:
/// whether it exists, and the token estimate of its text where it could be
/// read.
pub fn finish_reference(p: PlannedRef, exists: bool, tokens: Option<usize>) -> (r: crate::api::context::FileReference)
    ensures
        r.path@ == p.path@,
        r.ref_type@ == p.ref_type@,
        opt_view(r.condition) == opt_view(p.condition),
        opt_view(r.note) == opt_view(p.note),
        r.exists == (if p.file is None {
            None
        } else if p.listed {
            Some(true)
        } else {
            Some(exists)
        }),
        r.token_count == (if p.file is None {
            None
        } else if p.listed {
            tokens
        } else if exists && p.count_tokens {
            tokens
        } else {
            None
        }),
{
    let has_file = p.file.is_some();
    let (ex, tc) = if !has_file {
        (None, None)
    } else if p.listed {
        (Some(true), tokens)
    } else if exists && p.count_tokens {
        (Some(exists), tokens)
    } else {
        (Some(exists), None)
    };
    crate::api::context::FileReference {
        path: p.path,
        ref_type: p.ref_type,
        condition: p.condition,
        token_count: tc,
        exists: ex,
        note: p.note,
    }
}

/// An instruction file of the chain, as read: its path, its scope
/// ("global" | "user" | "portfolio" | "project" | "parent"), whether it
/// exists and its text.
pub struct ChainFile {
    pub path: String,
    pub scope: String,
    pub exists: bool,
    pub content: String,
}

/// An entry of the chain whose references still lack file-system facts.
pub struct PlannedEntry {
    pub path: String,
    pub scope: String,
    pub exists: bool,
    pub token_count: usize,
    pub references: Vec<PlannedRef>,
}

pub struct EntryView {
    pub path: Seq<char>,
    pub scope: Seq<char>,
    pub exists: bool,
    pub token_count: int,
    pub references: Seq<PlanView>,
}

pub open spec fn entry_view(e: PlannedEntry) -> EntryView {
    EntryView {
        path: e.path@,
        scope: e.scope@,
        exists: e.exists,
        token_count: e.token_count as int,
        references: plan_views(e.references@),
    }
}

/// The view of a chain file.
pub open spec fn file_view(f: ChainFile) -> (Seq<char>, Seq<char>, bool, Seq<char>) {
    (f.path@, f.scope@, f.exists, f.content@)
}

/// The chain so far: its entries, the files referred to, and whether all
/// went well.
pub struct ChainView {
    pub entries: Seq<EntryView>,
    pub seen: Set<Seq<char>>,
    pub ok: bool,
}

/// One instruction file's entry: missing files of the home and parent
/// directories are left out; the references of a file that exists are
/// scanned.
pub open spec fn chain_step(
    st: ChainView,
    f: (Seq<char>, Seq<char>, bool, Seq<char>),
    project_dir: Seq<char>,
    home: Seq<char>,
    own: Seq<char>,
    ignored: Seq<Seq<char>>,
    task_files: Seq<Seq<char>>,
) -> ChainView {
    let (path, scope, exists, content) = f;
    if !st.ok {
        st
    } else {
        let refs = if exists {
            instruction_references(content, project_dir, home, own, ignored, task_files, st.seen)
        } else {
            RefsView { seen: st.seen, ports: Set::empty(), urls: Set::empty(), out: seq![], ok: true }
        };
        if !refs.ok {
            ChainView { ok: false, ..st }
        } else if !exists && (scope == "parent"@ || scope == "user"@) {
            st
        } else {
            ChainView {
                entries: st.entries.push(
                    EntryView {
                        path: crate::api::context::shortened(path, home),
                        scope,
                        exists,
                        token_count: crate::api::context::token_estimate(if exists {
                            content
                        } else {
                            seq![]
                        }),
                        references: refs.out,
                    },
                ),
                seen: refs.seen,
                ok: true,
            }
        }
    }
}

pub open spec fn chain_fold(
    files: Seq<(Seq<char>, Seq<char>, bool, Seq<char>)>,
    project_dir: Seq<char>,
    home: Seq<char>,
    own: Seq<char>,
    ignored: Seq<Seq<char>>,
    task_files: Seq<Seq<char>>,
) -> ChainView
    decreases files.len(),
{
    if files.len() == 0 {
        ChainView { entries: seq![], seen: Set::empty(), ok: true }
    } else {
        chain_step(
            chain_fold(files.drop_last(), project_dir, home, own, ignored, task_files),
            files.last(),
            project_dir,
            home,
            own,
            ignored,
            task_files,
        )
    }
}

/// A chain that has failed stays failed.
pub proof fn lemma_chain_stays_failed(
    files: Seq<(Seq<char>, Seq<char>, bool, Seq<char>)>,
    k: int,
    project_dir: Seq<char>,
    home: Seq<char>,
    own: Seq<char>,
    ignored: Seq<Seq<char>>,
    task_files: Seq<Seq<char>>,
)
    requires
        0 <= k <= files.len(),
        !chain_fold(files.take(k), project_dir, home, own, ignored, task_files).ok,
    ensures
        !chain_fold(files, project_dir, home, own, ignored, task_files).ok,
    decreases files.len(),
{
    if k == files.len() {
        assert(files.take(k) =~= files);
    } else {
        assert(files.drop_last().take(k) =~= files.take(k));
        lemma_chain_stays_failed(files.drop_last(), k, project_dir, home, own, ignored, task_files);
    }
}

/// The chain of instruction files, from the most general to the project's
/// own, with their references planned. `Err` where slicing the text around
/// a reference would fall inside a character.
pub fn plan_chain(
    files: &Vec<ChainFile>,
    project_dir: &str,
    home: &str,
    rules: &ReferenceRules,
    task_files: &Vec<String>,
) -> (r: Result<Vec<PlannedEntry>, NotCharBoundary>)
    ensures
        ({
            let st = chain_fold(
                files@.map_values(|f: ChainFile| file_view(f)),
                project_dir@,
                home@,
                rules.instructions_file@,
                string_views(rules.ignored_url_parts@),
                string_views(task_files@),
            );
            match r {
                Ok(v) => st.ok && v@.map_values(|e: PlannedEntry| entry_view(e)) == st.entries,
                Err(_) => !st.ok,
            }
        }),
{
    let ghost fv = files@.map_values(|f: ChainFile| file_view(f));
    let ghost own = rules.instructions_file@;
    let ghost ign = string_views(rules.ignored_url_parts@);
    let ghost tf = string_views(task_files@);
    let mut seen: Vec<String> = Vec::new();
    let mut out: Vec<PlannedEntry> = Vec::new();
    let mut i: usize = 0;
    proof {
        assert(fv.take(0) =~= Seq::<(Seq<char>, Seq<char>, bool, Seq<char>)>::empty());
        assert(string_views(seen@).to_set() =~= Set::empty());
        assert(out@.map_values(|e: PlannedEntry| entry_view(e)) =~= Seq::<EntryView>::empty());
    }
    while i < files.len()
        invariant
            i <= files@.len(),
            fv == files@.map_values(|f: ChainFile| file_view(f)),
            own == rules.instructions_file@,
            ign == string_views(rules.ignored_url_parts@),
            tf == string_views(task_files@),
            chain_fold(fv.take(i as int), project_dir@, home@, own, ign, tf).ok,
            out@.map_values(|e: PlannedEntry| entry_view(e)) == chain_fold(fv.take(i as int), project_dir@, home@, own, ign, tf).entries,
            string_views(seen@).to_set() == chain_fold(fv.take(i as int), project_dir@, home@, own, ign, tf).seen,
        decreases files@.len() - i,
    {
        proof {
            lemma_fold_prefix(fv, i as int);
        }
        let f = &files[i];
        let refs: Vec<PlannedRef> = if f.exists {
            match extract_references(f.content.as_str(), project_dir, home, rules, task_files, &mut seen) {
                Ok(v) => v,
                Err(e) => {
                    proof {
                        assert(!chain_fold(fv.take(i as int + 1), project_dir@, home@, own, ign, tf).ok);
                        lemma_chain_stays_failed(fv, i as int + 1, project_dir@, home@, own, ign, tf);
                    }
                    return Err(e);
                },
            }
        } else {
            proof {
                assert(plan_views(Seq::<PlannedRef>::empty()) =~= Seq::<PlanView>::empty());
            }
            Vec::new()
        };
        let skip = !f.exists && (str_eq(f.scope.as_str(), "parent") || str_eq(f.scope.as_str(), "user"));
        if !skip {
            let tokens = if f.exists {
                crate::api::context::estimate_tokens(f.content.as_str())
            } else {
                crate::api::context::estimate_tokens("")
            };
            proof {
                reveal_strlit("");
            }
            let e = PlannedEntry {
                path: shorten_path(f.path.as_str(), home),
                scope: f.scope.clone(),
                exists: f.exists,
                token_count: tokens,
                references: refs,
            };
            let ghost before = out@;
            out.push(e);
            proof {
                assert(out@.map_values(|e: PlannedEntry| entry_view(e)) =~= before.map_values(
                    |e: PlannedEntry| entry_view(e),
                ).push(entry_view(e)));
            }
        }
        i = i + 1;
    }
    proof {
        assert(fv.take(fv.len() as int) =~= fv);
    }
    Ok(out)
}

/// Whether two paths name the same path, component by component (std
/// `Path == Path`).
pub uninterp spec fn paths_equal(a: Seq<char>, b: Seq<char>) -> bool;

/// Whether `base` is a leading run of components of `p` (std
/// `Path::starts_with`).
pub uninterp spec fn path_has_prefix(p: Seq<char>, base: Seq<char>) -> bool;

/// The path without its final component (std `Path::parent`).
pub uninterp spec fn parent_path(p: Seq<char>) -> Option<Seq<char>>;

/// std `Path::new(a) == Path::new(b)`. Named, not stated.
#[verifier::external_body]
fn path_eq(a: &str, b: &str) -> (r: bool)
    ensures
        r == paths_equal(a@, b@),
{
    std::path::Path::new(a) == std::path::Path::new(b)
}

/// std `Path::new(p).starts_with(base)`. Named, not stated.
#[verifier::external_body]
pub(crate) fn path_starts_with(p: &str, base: &str) -> (r: bool)
    ensures
        r == path_has_prefix(p@, base@),
{
    std::path::Path::new(p).starts_with(base)
}

/// std `Path::new(p).parent()`, as text. Named; its documentation ("the
/// path without its final component") makes it shorter than `p`, which is
/// stated.
#[verifier::external_body]
fn path_parent(p: &str) -> (r: Option<String>)
    ensures
        opt_view(r) == parent_path(p@),
        r matches Some(q) ==> q@.len() < p@.len(),
{
    std::path::Path::new(p).parent().map(|q| q.to_string_lossy().to_string())
}

/// The scope of a directory on the way from the project up: the project
/// itself, the portfolio (under `~/1000Problems`), the home directory, or a
/// parent.
pub open spec fn scope_of(dir: Seq<char>, project_dir: Seq<char>, home: Seq<char>) -> Seq<char> {
    if paths_equal(dir, project_dir) {
        "project"@
    } else if path_has_prefix(dir, join_path(home, "1000Problems"@)) && !paths_equal(dir, project_dir) {
        "portfolio"@
    } else if paths_equal(dir, home) {
        "user"@
    } else {
        "parent"@
    }
}

/// The scope of a directory on the way from the project up.
pub fn classify_scope(dir: &str, project_dir: &str, home: &str) -> (r: String)
    ensures
        r@ == scope_of(dir@, project_dir@, home@),
{
    if path_eq(dir, project_dir) {
        "project".to_string()
    } else {
        let portfolio = join_paths(home, "1000Problems");
        if path_starts_with(dir, portfolio.as_str()) && !path_eq(dir, project_dir) {
            "portfolio".to_string()
        } else if path_eq(dir, home) {
            "user".to_string()
        } else {
            "parent".to_string()
        }
    }
}

/// The directories from `d` up: through each parent, up to `stop` or the
/// root, taking at most `fuel` of them.
pub open spec fn dirs_up(d: Seq<char>, stop: Seq<char>, fuel: nat) -> Seq<Seq<char>>
    decreases fuel,
{
    if fuel == 0 {
        seq![]
    } else if paths_equal(d, stop) {
        seq![d]
    } else {
        match parent_path(d) {
            Some(p) => seq![d] + dirs_up(p, stop, (fuel - 1) as nat),
            None => seq![d],
        }
    }
}

/// The instruction files that apply to a project, most general first: the
/// global one under home, then one per directory from just below the home
/// directory's parent down to the project, each with its scope.
pub open spec fn chain_paths_of(project_dir: Seq<char>, home: Seq<char>, file: Seq<char>, global_dir: Seq<char>) -> Seq<(Seq<char>, Seq<char>)> {
    let stop = match parent_path(home) {
        Some(p) => p,
        None => "/"@,
    };
    let dirs = dirs_up(project_dir, stop, project_dir.len() + 1);
    let up = dirs.map_values(|d: Seq<char>| (join_path(d, file), scope_of(d, project_dir, home)));
    up.push((join_path(join_path(home, global_dir), file), "global"@)).reverse()
}

/// The instruction files that apply to a project, most general first.
pub fn chain_paths(project_dir: &str, home: &str, rules: &ReferenceRules) -> (r: Vec<(String, String)>)
    ensures
        r@.map_values(|p: (String, String)| (p.0@, p.1@)) == chain_paths_of(
            project_dir@,
            home@,
            rules.instructions_file@,
            rules.global_dir@,
        ),
{
    let stop = match path_parent(home) {
        Some(p) => p,
        None => "/".to_string(),
    };
    let ghost fuel0: nat = (project_dir@.len() + 1) as nat;
    let ghost all = dirs_up(project_dir@, stop@, fuel0);
    let mut up: Vec<(String, String)> = Vec::new();
    let mut d: String = project_dir.to_string();
    let ghost mut fuel: nat = fuel0;
    let ghost mut done: Seq<Seq<char>> = seq![];
    loop
        invariant_except_break
            fuel >= d@.len() + 1,
            all == done + dirs_up(d@, stop@, fuel),
        invariant
            all == dirs_up(project_dir@, stop@, fuel0),
            up@.len() == done.len(),
            forall|k: int| 0 <= k < done.len() ==> (#[trigger] up@[k]).0@ == join_path(done[k], rules.instructions_file@)
                && up@[k].1@ == scope_of(done[k], project_dir@, home@),
        ensures
            all == done,
            up@.len() == done.len(),
            forall|k: int| 0 <= k < done.len() ==> (#[trigger] up@[k]).0@ == join_path(done[k], rules.instructions_file@)
                && up@[k].1@ == scope_of(done[k], project_dir@, home@),
        decreases d@.len(),
    {
        let f = join_paths(d.as_str(), rules.instructions_file.as_str());
        let sc = classify_scope(d.as_str(), project_dir, home);
        up.push((f, sc));
        let ghost prev = done;
        proof {
            done = done.push(d@);
        }
        if path_eq(d.as_str(), stop.as_str()) {
            proof {
                assert(dirs_up(d@, stop@, fuel) == seq![d@]);
                assert(all =~= done);
            }
            break;
        }
        match path_parent(d.as_str()) {
            Some(p) => {
                proof {
                    assert(dirs_up(d@, stop@, fuel) == seq![d@] + dirs_up(p@, stop@, (fuel - 1) as nat));
                    assert(all =~= done + dirs_up(p@, stop@, (fuel - 1) as nat));
                    fuel = (fuel - 1) as nat;
                }
                d = p;
            },
            None => {
                proof {
                    assert(all =~= done);
                }
                break;
            },
        }
    }
    let g = join_paths(home, rules.global_dir.as_str());
    let gf = join_paths(g.as_str(), rules.instructions_file.as_str());
    up.push((gf, "global".to_string()));
    let mut r: Vec<(String, String)> = Vec::new();
    let n = up.len();
    let mut j: usize = 0;
    while j < n
        invariant
            n == up@.len(),
            j <= n,
            r@.len() == j,
            forall|x: int| 0 <= x < j ==> (#[trigger] r@[x]).0@ == up@[n - 1 - x].0@ && r@[x].1@ == up@[n - 1 - x].1@,
        decreases n - j,
    {
        let item = (up[n - 1 - j].0.clone(), up[n - 1 - j].1.clone());
        r.push(item);
        j = j + 1;
    }
    proof {
        let upv = all.map_values(|d: Seq<char>| (join_path(d, rules.instructions_file@), scope_of(d, project_dir@, home@)));
        let full = upv.push((join_path(join_path(home@, rules.global_dir@), rules.instructions_file@), "global"@));
        assert(r@.map_values(|p: (String, String)| (p.0@, p.1@)) =~= full.reverse());
    }
    r
}

/// Each file is referred to once: the files of `st.out` are distinct, none
/// was referred to before (`seen0`), all are recorded as seen, and the seen
/// files are those of `seen0` and those of `st.out`, no others.
pub open spec fn files_once(st: RefsView, seen0: Set<Seq<char>>) -> bool {
    &&& seen0.subset_of(st.seen)
    &&& forall|x: Seq<char>|
        #[trigger] st.seen.contains(x) ==> seen0.contains(x) || exists|i: int|
            0 <= i < st.out.len() && (#[trigger] st.out[i]).file == Some(x)
    &&& forall|i: int|
        0 <= i < st.out.len() && (#[trigger] st.out[i]).file is Some ==> st.seen.contains(st.out[i].file->0)
            && !seen0.contains(st.out[i].file->0)
    &&& forall|i: int, j: int|
        0 <= i < j < st.out.len() && (#[trigger] st.out[i]).file is Some && (#[trigger] st.out[j]).file
            is Some ==> st.out[i].file != st.out[j].file
}

/// Adding a reference to a file not yet seen keeps each file once.
proof fn lemma_add_file(st: RefsView, seen0: Set<Seq<char>>, p: PlanView, r: Seq<char>)
    requires
        files_once(st, seen0),
        !st.seen.contains(r),
        p.file == Some(r),
    ensures
        files_once(RefsView { seen: st.seen.insert(r), out: st.out.push(p), ..st }, seen0),
{
    let st2 = RefsView { seen: st.seen.insert(r), out: st.out.push(p), ..st };
    assert forall|i: int, j: int|
        0 <= i < j < st2.out.len() && (#[trigger] st2.out[i]).file is Some && (#[trigger] st2.out[j]).file
            is Some implies st2.out[i].file != st2.out[j].file by {
        if j == st.out.len() {
            assert(st.seen.contains(st.out[i].file->0));
        } else {
            assert(st2.out[i] == st.out[i] && st2.out[j] == st.out[j]);
        }
    }
    assert forall|i: int| 0 <= i < st2.out.len() && (#[trigger] st2.out[i]).file is Some implies st2.seen.contains(
        st2.out[i].file->0,
    ) && !seen0.contains(st2.out[i].file->0) by {
        if i < st.out.len() {
            assert(st2.out[i] == st.out[i]);
        } else {
            assert(!seen0.contains(r)) by {
                if seen0.contains(r) {
                    assert(st.seen.contains(r));
                }
            }
        }
    }
    assert forall|x: Seq<char>| #[trigger] st2.seen.contains(x) implies seen0.contains(x) || exists|i: int|
        0 <= i < st2.out.len() && (#[trigger] st2.out[i]).file == Some(x) by {
        if x == r {
            assert(st2.out[st.out.len() as int] == p);
        } else if !seen0.contains(x) {
            let i = choose|i: int| 0 <= i < st.out.len() && (#[trigger] st.out[i]).file == Some(x);
            assert(st2.out[i] == st.out[i]);
        }
    }
}

/// A reference to no file keeps each file once.
proof fn lemma_add_service(st: RefsView, seen0: Set<Seq<char>>, st2: RefsView, p: PlanView)
    requires
        files_once(st, seen0),
        p.file is None,
        st2.seen == st.seen,
        st2.out == st.out.push(p),
    ensures
        files_once(st2, seen0),
{
    assert forall|i: int, j: int|
        0 <= i < j < st2.out.len() && (#[trigger] st2.out[i]).file is Some && (#[trigger] st2.out[j]).file
            is Some implies st2.out[i].file != st2.out[j].file by {
        assert(st2.out[i] == st.out[i] && st2.out[j] == st.out[j]);
    }
    assert forall|i: int| 0 <= i < st2.out.len() && (#[trigger] st2.out[i]).file is Some implies st2.seen.contains(
        st2.out[i].file->0,
    ) && !seen0.contains(st2.out[i].file->0) by {
        assert(st2.out[i] == st.out[i]);
    }
    assert forall|x: Seq<char>| #[trigger] st2.seen.contains(x) implies seen0.contains(x) || exists|i: int|
        0 <= i < st2.out.len() && (#[trigger] st2.out[i]).file == Some(x) by {
        if !seen0.contains(x) {
            let i = choose|i: int| 0 <= i < st.out.len() && (#[trigger] st.out[i]).file == Some(x);
            assert(st2.out[i] == st.out[i]);
        }
    }
}

proof fn lemma_cmd_fold_once(st: RefsView, seen0: Set<Seq<char>>, content: Seq<char>, project_dir: Seq<char>, home: Seq<char>, caps: Seq<Option<Seq<char>>>)
    requires
        files_once(st, seen0),
    ensures
        files_once(cmd_fold(st, content, project_dir, home, caps), seen0),
    decreases caps.len(),
{
    if caps.len() > 0 {
        lemma_cmd_fold_once(st, seen0, content, project_dir, home, caps.drop_last());
        let pre = cmd_fold(st, content, project_dir, home, caps.drop_last());
        match caps.last() {
            Some(raw) => {
                let r = resolved(raw, project_dir, home);
                if pre.ok && !pre.seen.contains(r) {
                    match (conditional_ref(content, raw), condition_of(content, raw)) {
                        (Some(c), Some(cond)) => {
                            let post = cmd_step(pre, content, project_dir, home, caps.last());
                            lemma_add_file(pre, seen0, post.out.last(), r);
                            assert(post.out =~= pre.out.push(post.out.last()));
                        },
                        _ => {},
                    }
                }
            },
            None => {},
        }
    }
}

proof fn lemma_read_fold_once(st: RefsView, seen0: Set<Seq<char>>, content: Seq<char>, project_dir: Seq<char>, home: Seq<char>, own: Seq<char>, caps: Seq<Option<Seq<char>>>)
    requires
        files_once(st, seen0),
    ensures
        files_once(read_fold(st, content, project_dir, home, own, caps), seen0),
    decreases caps.len(),
{
    if caps.len() > 0 {
        lemma_read_fold_once(st, seen0, content, project_dir, home, own, caps.drop_last());
        let pre = read_fold(st, content, project_dir, home, own, caps.drop_last());
        match caps.last() {
            Some(f) => {
                let r = join_path(project_dir, f);
                if pre.ok && !eq_ignore_ascii_case(f, own) && !pre.seen.contains(r) {
                    match condition_of(content, f) {
                        Some(cond) => {
                            let post = read_step(pre, content, project_dir, home, own, caps.last());
                            lemma_add_file(pre, seen0, post.out.last(), r);
                            assert(post.out =~= pre.out.push(post.out.last()));
                        },
                        None => {},
                    }
                }
            },
            None => {},
        }
    }
}

proof fn lemma_task_fold_once(st: RefsView, seen0: Set<Seq<char>>, project_dir: Seq<char>, home: Seq<char>, files: Seq<Seq<char>>)
    requires
        files_once(st, seen0),
    ensures
        files_once(task_fold(st, project_dir, home, files), seen0),
    decreases files.len(),
{
    if files.len() > 0 {
        lemma_task_fold_once(st, seen0, project_dir, home, files.drop_last());
        let pre = task_fold(st, project_dir, home, files.drop_last());
        let fname = files.last();
        let r = join_path(project_dir, fname);
        if pre.ok && starts_with(fname, "TASK"@) && ends_with(fname, ".md"@) && !pre.seen.contains(r) {
            let post = task_step(pre, project_dir, home, fname);
            lemma_add_file(pre, seen0, post.out.last(), r);
            assert(post.out =~= pre.out.push(post.out.last()));
        }
    }
}

proof fn lemma_port_fold_once(st: RefsView, seen0: Set<Seq<char>>, content: Seq<char>, caps: Seq<Option<Seq<char>>>)
    requires
        files_once(st, seen0),
    ensures
        files_once(port_fold(st, content, caps), seen0),
    decreases caps.len(),
{
    if caps.len() > 0 {
        lemma_port_fold_once(st, seen0, content, caps.drop_last());
        let pre = port_fold(st, content, caps.drop_last());
        let post = port_step(pre, content, caps.last());
        if post.out.len() > pre.out.len() {
            lemma_add_service(pre, seen0, post, post.out.last());
            assert(post.out =~= pre.out.push(post.out.last()));
        }
    }
}

proof fn lemma_url_fold_once(st: RefsView, seen0: Set<Seq<char>>, ignored: Seq<Seq<char>>, caps: Seq<Option<Seq<char>>>)
    requires
        files_once(st, seen0),
    ensures
        files_once(url_fold(st, ignored, caps), seen0),
    decreases caps.len(),
{
    if caps.len() > 0 {
        lemma_url_fold_once(st, seen0, ignored, caps.drop_last());
        let pre = url_fold(st, ignored, caps.drop_last());
        let post = url_step(pre, ignored, caps.last());
        if post.out.len() > pre.out.len() {
            lemma_add_service(pre, seen0, post, post.out.last());
            assert(post.out =~= pre.out.push(post.out.last()));
        }
    }
}

/// Within a chain, each file is referred to once: the files an instruction
/// file refers to are distinct, none of them was referred to by an earlier
/// file of the chain (`seen`), and all are recorded as seen afterwards; the
/// seen files grow by these files and no others.
pub proof fn lemma_references_once(
    content: Seq<char>,
    project_dir: Seq<char>,
    home: Seq<char>,
    own: Seq<char>,
    ignored: Seq<Seq<char>>,
    task_files: Seq<Seq<char>>,
    seen: Set<Seq<char>>,
    cmd: Seq<Option<Seq<char>>>,
    read: Seq<Option<Seq<char>>>,
    tasks_mentioned: bool,
    ports: Seq<Option<Seq<char>>>,
    urls: Seq<Option<Seq<char>>>,
)
    ensures
        files_once(
            references_of(content, project_dir, home, own, ignored, task_files, seen, cmd, read, tasks_mentioned, ports, urls),
            seen,
        ),
{
    let st0 = RefsView { seen, ports: Set::empty(), urls: Set::empty(), out: seq![], ok: true };
    assert(files_once(st0, seen));
    lemma_cmd_fold_once(st0, seen, content, project_dir, home, cmd);
    let st1 = cmd_fold(st0, content, project_dir, home, cmd);
    lemma_read_fold_once(st1, seen, content, project_dir, home, own, read);
    let st2 = read_fold(st1, content, project_dir, home, own, read);
    if tasks_mentioned {
        lemma_task_fold_once(st2, seen, project_dir, home, task_files);
    }
    let st3 = if tasks_mentioned {
        task_fold(st2, project_dir, home, task_files)
    } else {
        st2
    };
    lemma_port_fold_once(st3, seen, content, ports);
    lemma_url_fold_once(port_fold(st3, content, ports), seen, ignored, urls);
}

} // verus!
