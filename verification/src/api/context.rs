//! Tracing the chain of instruction files that a project loads as context.

use vstd::prelude::*;

verus! {

/// A file or service that an instruction file refers to.
pub struct FileReference {
    pub path: String,
    /// "always" | "conditional" | "external"
    pub ref_type: String,
    pub condition: Option<String>,
    pub token_count: Option<usize>,
    pub exists: Option<bool>,
    pub note: Option<String>,
}

/// One instruction file of the chain.
pub struct ChainEntry {
    pub path: String,
    /// "global" | "user" | "portfolio" | "project" | "parent"
    pub scope: String,
    pub exists: bool,
    pub token_count: usize,
    pub references: Vec<FileReference>,
}

/// Reply to `POST /pick-folder`.
pub struct PickFolderResponse {
    pub path: Option<String>,
    pub cancelled: bool,
}

/// Query of `GET /read-file`.
pub struct ReadFileParams {
    pub path: String,
}

/// Reply to `GET /read-file`.
pub struct ReadFileResponse {
    pub content: String,
    pub token_count: usize,
    pub exists: bool,
}

} // verus!

verus! {

use crate::text::{byte_len, is_boundary, chars_of, string_of, str_len, slice_chars, char_index_of_byte, str_eq, extend_str};
use crate::textops::{starts_with, contains, is_first_occurrence, lowercase, to_lowercase, find_chars, contains_chars};
use crate::secretary::prompts::{join_path, join_paths};

/// Rough token count of a text: its UTF-8 length over four.
pub open spec fn token_estimate(text: Seq<char>) -> int {
    byte_len(text) as int / 4
}

/// Rough token count of a text: its UTF-8 length over four.
pub fn estimate_tokens(text: &str) -> (r: usize)
    ensures
        r == token_estimate(text@),
{
    str_len(text) / 4
}

/// A path for display: the home directory's prefix shown as `~`.
pub open spec fn shortened(path: Seq<char>, home: Seq<char>) -> Seq<char> {
    if starts_with(path, home) {
        "~"@ + path.skip(home.len() as int)
    } else {
        path
    }
}

/// A path for display: the home directory's prefix shown as `~`.
pub fn shorten_path(path: &str, home: &str) -> (r: String)
    ensures
        r@ == shortened(path@, home@),
{
    let p = chars_of(path);
    let h = chars_of(home);
    if crate::textops::starts_with_chars(p.as_slice(), h.as_slice()) {
        let mut out: Vec<char> = Vec::new();
        out.push('~');
        let rest = slice_chars(p.as_slice(), h.len(), p.len());
        crate::text::extend_chars(&mut out, rest.as_slice());
        proof {
            reveal_strlit("~");
            assert(out@ =~= "~"@ + path@.skip(home@.len() as int));
        }
        string_of(out.as_slice())
    } else {
        path.to_string()
    }
}

/// Where a path named in an instruction file points: `~/` is the home
/// directory, an absolute path stays, anything else is under the project.
pub open spec fn resolved(raw: Seq<char>, project_dir: Seq<char>, home: Seq<char>) -> Seq<char> {
    if starts_with(raw, "~/"@) {
        join_path(home, raw.skip(2))
    } else if starts_with(raw, "/"@) {
        raw
    } else {
        join_path(project_dir, raw)
    }
}

/// Where a path named in an instruction file points.
pub fn resolve_path(raw: &str, project_dir: &str, home: &str) -> (r: String)
    ensures
        r@ == resolved(raw@, project_dir@, home@),
{
    let v = chars_of(raw);
    let tilde = chars_of("~/");
    let slash = chars_of("/");
    if crate::textops::starts_with_chars(v.as_slice(), tilde.as_slice()) {
        proof {
            reveal_strlit("~/");
        }
        let rest = slice_chars(v.as_slice(), 2, v.len());
        let rest_s = string_of(rest.as_slice());
        proof {
            assert(rest_s@ =~= raw@.skip(2));
        }
        join_paths(home, rest_s.as_str())
    } else if crate::textops::starts_with_chars(v.as_slice(), slash.as_slice()) {
        raw.to_string()
    } else {
        join_paths(project_dir, raw)
    }
}

/// The byte offset at which `p` first occurs in `s` (what `str::find` gives).
pub open spec fn find_byte(s: Seq<char>, p: Seq<char>) -> Option<int> {
    if contains(s, p) {
        Some(byte_len(s.take(choose|i: int| is_first_occurrence(s, p, i))) as int)
    } else {
        None
    }
}

/// The characters between byte offsets `a` and `b` of `s` (what `&s[a..b]`
/// gives); `None` where that slice would panic.
pub open spec fn byte_slice(s: Seq<char>, a: int, b: int) -> Option<Seq<char>> {
    if 0 <= a <= b && is_boundary(s, a) && is_boundary(s, b) {
        Some(
            s.subrange(
                choose|k: int| 0 <= k <= s.len() && #[trigger] byte_len(s.take(k)) == a,
                choose|k: int| 0 <= k <= s.len() && #[trigger] byte_len(s.take(k)) == b,
            ),
        )
    } else {
        None
    }
}

proof fn lemma_boundary_unique(s: Seq<char>, b: int, k: int)
    requires
        0 <= k <= s.len(),
        byte_len(s.take(k)) == b,
    ensures
        (choose|c: int| 0 <= c <= s.len() && #[trigger] byte_len(s.take(c)) == b) == k,
{
    let c = choose|c: int| 0 <= c <= s.len() && #[trigger] byte_len(s.take(c)) == b;
    if c < k {
        crate::text::lemma_byte_len_prefix_strict(s, c, k);
    } else if c > k {
        crate::text::lemma_byte_len_prefix_strict(s, k, c);
    }
}

fn find_byte_of(v: &Vec<char>, p: &Vec<char>) -> (r: Option<usize>)
    requires
        byte_len(v@) <= usize::MAX,
    ensures
        match r {
            Some(i) => find_byte(v@, p@) == Some(i as int),
            None => find_byte(v@, p@) is None,
        },
{
    match find_chars(v.as_slice(), p.as_slice()) {
        Some(i) => {
            proof {
                assert(contains(v@, p@));
                let c = choose|c: int| is_first_occurrence(v@, p@, c);
                if c < i {
                    assert(!crate::textops::occurs_at(v@, p@, c));
                } else if c > i {
                    assert(!crate::textops::occurs_at(v@, p@, i as int));
                }
            }
            Some(crate::text::byte_offset(v, i))
        },
        None => None,
    }
}

fn byte_slice_of(v: &Vec<char>, a: usize, b: usize) -> (r: Option<Vec<char>>)
    requires
        byte_len(v@) <= usize::MAX,
    ensures
        match r {
            Some(w) => byte_slice(v@, a as int, b as int) == Some(w@),
            None => byte_slice(v@, a as int, b as int) is None,
        },
{
    if a > b {
        return None;
    }
    match (char_index_of_byte(v, a), char_index_of_byte(v, b)) {
        (Some(i), Some(j)) => {
            proof {
                lemma_boundary_unique(v@, a as int, i as int);
                lemma_boundary_unique(v@, b as int, j as int);
                if j < i {
                    crate::text::lemma_byte_len_prefix_strict(v@, j as int, i as int);
                }
            }
            Some(slice_chars(v.as_slice(), i, j))
        },
        _ => None,
    }
}

/// A byte range that does not fall on character boundaries: slicing the
/// text there would panic.
pub struct NotCharBoundary;

pub open spec fn min_int(a: int, b: int) -> int {
    if a <= b {
        a
    } else {
        b
    }
}

/// The lowercase text of `content` around the first place where `needle`
/// occurs in it (or around its start): from `before` bytes ahead of it to
/// `span + after` bytes past it (`None` where that slice would panic).
pub open spec fn lower_context(content: Seq<char>, needle: Seq<char>, span: int, before: int, after: int) -> Option<Seq<char>> {
    let lower = lowercase(content);
    let idx = match find_byte(lower, needle) {
        Some(i) => i,
        None => 0,
    };
    let start = if idx >= before {
        idx - before
    } else {
        0
    };
    byte_slice(lower, start, min_int(idx + span + after, byte_len(lower) as int))
}

/// Words that make a reference conditional.
pub open spec fn conditional_words() -> Seq<Seq<char>> {
    seq![
        "before implement"@,
        "before building"@,
        "before any"@,
        "if "@,
        "when you"@,
        "only when"@,
        "before doing"@,
        "before making"@,
        "mandatory for"@,
    ]
}

pub open spec fn has_any(text: Seq<char>, words: Seq<Seq<char>>) -> bool {
    exists|i: int| 0 <= i < words.len() && contains(text, #[trigger] words[i])
}

/// Whether the text around a reference (300 bytes before it, 100 past it)
/// says it is needed only under some condition.
pub open spec fn conditional_ref(content: Seq<char>, frag: Seq<char>) -> Option<bool> {
    match lower_context(content, lowercase(frag), byte_len(frag) as int, 300, 100) {
        Some(c) => Some(has_any(c, conditional_words())),
        None => None,
    }
}

fn lower_context_of(content: &str, needle: &str, span: usize, before: usize, after: usize) -> (r: Option<Vec<char>>)
    ensures
        match r {
            Some(c) => lower_context(content@, needle@, span as int, before as int, after as int) == Some(c@),
            None => lower_context(content@, needle@, span as int, before as int, after as int) is None,
        },
{
    let lower = to_lowercase(content);
    let n = str_len(lower.as_str());
    let lv = chars_of(lower.as_str());
    let fv = chars_of(needle);
    let idx: usize = match find_byte_of(&lv, &fv) {
        Some(i) => i,
        None => 0,
    };
    let start: usize = if idx >= before {
        idx - before
    } else {
        0
    };
    let reach = idx.saturating_add(span).saturating_add(after);
    let end: usize = if reach <= n {
        reach
    } else {
        n
    };
    proof {
        if reach < usize::MAX {
            assert(reach == idx + span + after);
        } else {
            assert(idx + span + after >= usize::MAX);
            assert(n <= usize::MAX);
        }
    }
    byte_slice_of(&lv, start, end)
}

fn has_any_exec(text: &Vec<char>, words: &Vec<&str>, Ghost(ws): Ghost<Seq<Seq<char>>>) -> (r: bool)
    requires
        words@.len() == ws.len(),
        forall|i: int| 0 <= i < ws.len() ==> #[trigger] words@[i]@ == ws[i],
    ensures
        r == has_any(text@, ws),
{
    let mut i: usize = 0;
    while i < words.len()
        invariant
            i <= words@.len() == ws.len(),
            forall|k: int| 0 <= k < ws.len() ==> #[trigger] words@[k]@ == ws[k],
            forall|k: int| 0 <= k < i ==> !contains(text@, #[trigger] ws[k]),
        decreases words@.len() - i,
    {
        let w = chars_of(words[i]);
        if contains_chars(text.as_slice(), w.as_slice()) {
            return true;
        }
        i = i + 1;
    }
    false
}

/// Whether the text around a reference says it is needed only under some
/// condition ("before implementing", "if ", "only when", ...). `Err` where
/// the byte window around the reference would cut a character.
pub fn is_conditional_reference(content: &str, path_fragment: &str) -> (r: Result<bool, NotCharBoundary>)
    ensures
        match r {
            Ok(b) => conditional_ref(content@, path_fragment@) == Some(b),
            Err(_) => conditional_ref(content@, path_fragment@) is None,
        },
{
    let needle = to_lowercase(path_fragment);
    let span = str_len(path_fragment);
    match lower_context_of(content, needle.as_str(), span, 300, 100) {
        Some(c) => {
            let words = vec![
                "before implement",
                "before building",
                "before any",
                "if ",
                "when you",
                "only when",
                "before doing",
                "before making",
                "mandatory for",
            ];
            Ok(has_any_exec(&c, &words, Ghost(conditional_words())))
        },
        None => Err(NotCharBoundary),
    }
}

/// The first of `ls` whose lowercase form contains `needle`.
pub open spec fn first_line_with(ls: Seq<Seq<char>>, needle: Seq<char>) -> Option<Seq<char>>
    decreases ls.len(),
{
    if ls.len() == 0 {
        None
    } else if contains(lowercase(ls[0]), needle) {
        Some(ls[0])
    } else {
        first_line_with(ls.drop_first(), needle)
    }
}

/// The sentence of `content` that states the condition under which a
/// reference applies: the line around its first mention (80 bytes before,
/// 40 past), trimmed, if 6 to 119 bytes long. `None` (the outer one) where
/// slicing the text would panic.
pub open spec fn condition_of(content: Seq<char>, frag: Seq<char>) -> Option<Option<Seq<char>>> {
    let lower = lowercase(content);
    let needle = lowercase(frag);
    match find_byte(lower, needle) {
        None => Some(None),
        Some(idx) => {
            let start = if idx >= 80 {
                idx - 80
            } else {
                0
            };
            let end = min_int(idx + byte_len(frag) + 40, byte_len(content) as int);
            match byte_slice(content, start, end) {
                None => None,
                Some(ctx) => {
                    let sentence = match first_line_with(crate::textops::lines(ctx), needle) {
                        Some(l) => l,
                        None => ctx,
                    };
                    let t = crate::text::trim(sentence);
                    Some(
                        if 5 < byte_len(t) && byte_len(t) < 120 {
                            Some(t)
                        } else {
                            None
                        },
                    )
                },
            }
        },
    }
}

/// The sentence that states when a reference applies, if there is a short
/// one. `Err` where the byte window would cut a character.
pub fn extract_condition(content: &str, path_fragment: &str) -> (r: Result<Option<String>, NotCharBoundary>)
    ensures
        match r {
            Ok(c) => condition_of(content@, path_fragment@) == Some(crate::text::opt_view(c)),
            Err(_) => condition_of(content@, path_fragment@) is None,
        },
{
    let lower = to_lowercase(content);
    let needle = to_lowercase(path_fragment);
    let _ln = str_len(lower.as_str());
    let n = str_len(content);
    let span = str_len(path_fragment);
    let lv = chars_of(lower.as_str());
    let nv = chars_of(needle.as_str());
    let idx = match find_byte_of(&lv, &nv) {
        Some(i) => i,
        None => {
            return Ok(None);
        },
    };
    let start: usize = if idx >= 80 {
        idx - 80
    } else {
        0
    };
    let reach = idx.saturating_add(span).saturating_add(40);
    let end: usize = if reach <= n {
        reach
    } else {
        n
    };
    proof {
        if reach < usize::MAX {
            assert(reach == idx + span + 40);
        } else {
            assert(idx + span + 40 >= usize::MAX);
        }
    }
    let cv = chars_of(content);
    let ctx = match byte_slice_of(&cv, start, end) {
        Some(c) => c,
        None => {
            return Err(NotCharBoundary);
        },
    };
    let ls = crate::textops::lines_of(ctx.as_slice());
    let ghost lsv = crate::textops::views(ls@);
    let mut sentence: Option<usize> = None;
    let mut k: usize = 0;
    proof {
        assert(lsv.skip(0) =~= lsv);
    }
    while k < ls.len()
        invariant_except_break
            sentence is None,
        invariant
            k <= ls@.len(),
            lsv == crate::textops::views(ls@),
            nv@ == needle@,
            first_line_with(lsv, needle@) == first_line_with(lsv.skip(k as int), needle@),
        ensures
            match sentence {
                Some(j) => j == k && k < ls@.len() && first_line_with(lsv, needle@) == Some(lsv[k as int]),
                None => k == ls@.len(),
            },
        decreases ls@.len() - k,
    {
        let line = string_of(ls[k].as_slice());
        let ll = to_lowercase(line.as_str());
        let llv = chars_of(ll.as_str());
        proof {
            assert(lsv.skip(k as int)[0] == ls@[k as int]@);
            assert(lsv.skip(k as int).drop_first() =~= lsv.skip(k as int + 1));
            assert(llv@ == lowercase(lsv.skip(k as int)[0]));
        }
        if contains_chars(llv.as_slice(), nv.as_slice()) {
            sentence = Some(k);
            break;
        }
        k = k + 1;
    }
    let chosen: Vec<char> = match sentence {
        Some(j) => slice_chars(ls[j].as_slice(), 0, ls[j].len()),
        None => slice_chars(ctx.as_slice(), 0, ctx.len()),
    };
    proof {
        if sentence is None {
            assert(lsv.skip(k as int) =~= Seq::<Seq<char>>::empty());
        }
    }
    assert(chosen@ == match first_line_with(lsv, needle@) {
        Some(l) => l,
        None => ctx@,
    }) by {
        match sentence {
            Some(j) => {
                assert(chosen@ =~= ls@[j as int]@);
            },
            None => {
                assert(chosen@ =~= ctx@);
            },
        }
    }
    let t = crate::text::trim_chars(chosen.as_slice());
    let ts = string_of(t.as_slice());
    let tn = str_len(ts.as_str());
    if 5 < tn && tn < 120 {
        Ok(Some(ts))
    } else {
        Ok(None)
    }
}

/// The service listening on a local port, guessed from the 60 bytes of
/// lowercase text before its first `localhost:PORT` mention and the 20
/// from it on. `None` where slicing that text would panic.
pub open spec fn service_of(content: Seq<char>, port: Seq<char>) -> Option<Seq<char>> {
    match lower_context(content, "localhost:"@ + port, 0, 60, 20) {
        Some(c) => Some(
            if contains(c, "lightrag"@) || contains(c, "rag"@) {
                "LightRAG knowledge graph"@
            } else if contains(c, "ollama"@) {
                "Ollama LLM"@
            } else if contains(c, "smp"@) || port == "19800"@ {
                "SMP daemon"@
            } else if contains(c, "mcp"@) {
                "MCP server"@
            } else {
                "service on port "@ + port
            },
        ),
        None => None,
    }
}

fn contains_str(v: &Vec<char>, w: &str) -> (r: bool)
    ensures
        r == contains(v@, w@),
{
    let wv = chars_of(w);
    contains_chars(v.as_slice(), wv.as_slice())
}

/// The service listening on a local port, guessed from the text around its
/// first mention. `Err` where a byte window around it would cut a
/// character.
pub fn identify_service(content: &str, port: &str) -> (r: Result<String, NotCharBoundary>)
    ensures
        match r {
            Ok(name) => service_of(content@, port@) == Some(name@),
            Err(_) => service_of(content@, port@) is None,
        },
{
    let mut nv = chars_of("localhost:");
    crate::text::extend_str(&mut nv, port);
    let needle = string_of(nv.as_slice());
    let c = match lower_context_of(content, needle.as_str(), 0, 60, 20) {
        Some(c) => c,
        None => {
            return Err(NotCharBoundary);
        },
    };
    if contains_str(&c, "lightrag") || contains_str(&c, "rag") {
        Ok("LightRAG knowledge graph".to_string())
    } else if contains_str(&c, "ollama") {
        Ok("Ollama LLM".to_string())
    } else if contains_str(&c, "smp") || crate::text::str_eq(port, "19800") {
        Ok("SMP daemon".to_string())
    } else if contains_str(&c, "mcp") {
        Ok("MCP server".to_string())
    } else {
        let mut out = chars_of("service on port ");
        crate::text::extend_str(&mut out, port);
        Ok(string_of(out.as_slice()))
    }
}

/// What a context trace adds up to (its share of a 200k-token window is
/// computed from `total_worst_case` by the caller).
pub struct ContextTotals {
    pub always_tokens: usize,
    pub conditional_tokens: usize,
    pub total_worst_case: usize,
    pub external_services: usize,
    pub files_missing: usize,
}

/// What the references of one entry add up to: tokens of the files that
/// may be loaded, external services, and missing files.
pub open spec fn refs_totals(rs: Seq<FileReference>) -> (int, int, int)
    decreases rs.len(),
{
    if rs.len() == 0 {
        (0, 0, 0)
    } else {
        let p = refs_totals(rs.drop_last());
        let r = rs.last();
        let loads = r.ref_type@ == "conditional"@ || r.ref_type@ == "always"@;
        (
            p.0 + if loads {
                match r.token_count {
                    Some(t) => t as int,
                    None => 0,
                }
            } else {
                0
            },
            p.1 + if r.ref_type@ == "external"@ {
                1int
            } else {
                0
            },
            p.2 + if r.exists == Some(false) {
                1int
            } else {
                0
            },
        )
    }
}

/// What a chain adds up to: the tokens of the instruction files that
/// exist, and the totals of all their references.
pub open spec fn chain_totals(chain: Seq<ChainEntry>) -> (int, int, int, int)
    decreases chain.len(),
{
    if chain.len() == 0 {
        (0, 0, 0, 0)
    } else {
        let p = chain_totals(chain.drop_last());
        let e = chain.last();
        let t = refs_totals(e.references@);
        (
            p.0 + if e.exists {
                e.token_count as int
            } else {
                0
            },
            p.1 + t.0,
            p.2 + t.1,
            p.3 + t.2,
        )
    }
}

proof fn lemma_refs_totals_grow(rs: Seq<FileReference>, i: int)
    requires
        0 <= i <= rs.len(),
    ensures
        0 <= refs_totals(rs.take(i)).0 <= refs_totals(rs).0,
        0 <= refs_totals(rs.take(i)).1 <= refs_totals(rs).1 <= rs.len(),
        0 <= refs_totals(rs.take(i)).2 <= refs_totals(rs).2 <= rs.len(),
    decreases rs.len(),
{
    if rs.len() > 0 {
        if i == rs.len() {
            assert(rs.take(i) =~= rs);
            lemma_refs_totals_grow(rs.drop_last(), i - 1);
        } else {
            lemma_refs_totals_grow(rs.drop_last(), i);
            assert(rs.drop_last().take(i) =~= rs.take(i));
        }
    } else {
        assert(rs.take(i) =~= rs);
    }
}

proof fn lemma_chain_totals_grow(chain: Seq<ChainEntry>, i: int)
    requires
        0 <= i <= chain.len(),
    ensures
        0 <= chain_totals(chain.take(i)).0 <= chain_totals(chain).0,
        0 <= chain_totals(chain.take(i)).1 <= chain_totals(chain).1,
        0 <= chain_totals(chain.take(i)).2 <= chain_totals(chain).2,
        0 <= chain_totals(chain.take(i)).3 <= chain_totals(chain).3,
    decreases chain.len(),
{
    if chain.len() > 0 {
        lemma_refs_totals_grow(chain.last().references@, 0);
        if i == chain.len() {
            assert(chain.take(i) =~= chain);
            lemma_chain_totals_grow(chain.drop_last(), i - 1);
        } else {
            lemma_chain_totals_grow(chain.drop_last(), i);
            assert(chain.drop_last().take(i) =~= chain.take(i));
        }
    } else {
        assert(chain.take(i) =~= chain);
    }
}

/// The totals of one entry's references.
fn refs_totals_exec(rs: &Vec<FileReference>, Ghost(cap): Ghost<int>) -> (r: (usize, usize, usize))
    requires
        refs_totals(rs@).0 <= cap <= usize::MAX,
    ensures
        r.0 == refs_totals(rs@).0,
        r.1 == refs_totals(rs@).1,
        r.2 == refs_totals(rs@).2,
{
    proof {
        reveal_strlit("conditional");
        reveal_strlit("always");
        reveal_strlit("external");
    }
    let mut a: usize = 0;
    let mut b: usize = 0;
    let mut c: usize = 0;
    let mut i: usize = 0;
    while i < rs.len()
        invariant
            i <= rs@.len(),
            refs_totals(rs@).0 <= cap <= usize::MAX,
            a == refs_totals(rs@.take(i as int)).0,
            b == refs_totals(rs@.take(i as int)).1,
            c == refs_totals(rs@.take(i as int)).2,
        decreases rs@.len() - i,
    {
        proof {
            assert(rs@.take(i as int + 1).drop_last() =~= rs@.take(i as int));
            lemma_refs_totals_grow(rs@, i as int + 1);
            lemma_refs_totals_grow(rs@.take(i as int + 1), i as int + 1);
        }
        let r = &rs[i];
        let loads = str_eq(r.ref_type.as_str(), "conditional") || str_eq(r.ref_type.as_str(), "always");
        if loads {
            if let Some(t) = r.token_count {
                a = a + t;
            }
        }
        if str_eq(r.ref_type.as_str(), "external") {
            b = b + 1;
        }
        if r.exists == Some(false) {
            c = c + 1;
        }
        i = i + 1;
    }
    proof {
        assert(rs@.take(rs@.len() as int) =~= rs@);
    }
    (a, b, c)
}

/// `x`, or `u128::MAX` where `x` is larger.
pub open spec fn capped(x: int) -> int {
    if x <= u128::MAX {
        x
    } else {
        u128::MAX as int
    }
}

/// The totals of references, each capped at `u128::MAX`.
fn refs_totals_capped(rs: &Vec<FileReference>) -> (r: (u128, u128, u128))
    ensures
        r.0 == capped(refs_totals(rs@).0),
        r.1 == capped(refs_totals(rs@).1),
        r.2 == capped(refs_totals(rs@).2),
{
    let mut a: u128 = 0;
    let mut b: u128 = 0;
    let mut c: u128 = 0;
    let mut i: usize = 0;
    proof {
        assert(rs@.take(0) =~= Seq::<FileReference>::empty());
    }
    while i < rs.len()
        invariant
            i <= rs@.len(),
            a == capped(refs_totals(rs@.take(i as int)).0),
            b == capped(refs_totals(rs@.take(i as int)).1),
            c == capped(refs_totals(rs@.take(i as int)).2),
        decreases rs@.len() - i,
    {
        proof {
            assert(rs@.take(i as int + 1).drop_last() =~= rs@.take(i as int));
            lemma_refs_totals_grow(rs@.take(i as int + 1), i as int);
            lemma_refs_totals_grow(rs@, i as int);
        }
        let r = &rs[i];
        let loads = str_eq(r.ref_type.as_str(), "conditional") || str_eq(r.ref_type.as_str(), "always");
        if loads {
            let t: u128 = match r.token_count {
                Some(t) => t as u128,
                None => 0,
            };
            a = a.saturating_add(t);
        }
        if str_eq(r.ref_type.as_str(), "external") {
            b = b.saturating_add(1);
        }
        if r.exists == Some(false) {
            c = c.saturating_add(1);
        }
        i = i + 1;
    }
    proof {
        assert(rs@.take(rs@.len() as int) =~= rs@);
    }
    (a, b, c)
}

/// Whether the totals of a chain fit in `usize` (what [`context_totals`]
/// needs): the test a caller makes before it.
pub fn context_totals_fit(chain: &Vec<ChainEntry>) -> (r: bool)
    ensures
        r == (chain_totals(chain@).0 + chain_totals(chain@).1 <= usize::MAX && chain_totals(chain@).2
            <= usize::MAX && chain_totals(chain@).3 <= usize::MAX),
{
    let mut a: u128 = 0;
    let mut b: u128 = 0;
    let mut c: u128 = 0;
    let mut d: u128 = 0;
    let mut i: usize = 0;
    proof {
        assert(chain@.take(0) =~= Seq::<ChainEntry>::empty());
    }
    while i < chain.len()
        invariant
            i <= chain@.len(),
            a == capped(chain_totals(chain@.take(i as int)).0),
            b == capped(chain_totals(chain@.take(i as int)).1),
            c == capped(chain_totals(chain@.take(i as int)).2),
            d == capped(chain_totals(chain@.take(i as int)).3),
        decreases chain@.len() - i,
    {
        proof {
            assert(chain@.take(i as int + 1).drop_last() =~= chain@.take(i as int));
            lemma_chain_totals_grow(chain@.take(i as int + 1), i as int);
            lemma_refs_totals_grow(chain@[i as int].references@, chain@[i as int].references@.len() as int);
            assert(chain@[i as int].references@.take(chain@[i as int].references@.len() as int) =~= chain@[i as int].references@);
        }
        let e = &chain[i];
        if e.exists {
            a = a.saturating_add(e.token_count as u128);
        }
        let t = refs_totals_capped(&e.references);
        b = b.saturating_add(t.0);
        c = c.saturating_add(t.1);
        d = d.saturating_add(t.2);
        i = i + 1;
    }
    proof {
        assert(chain@.take(chain@.len() as int) =~= chain@);
    }
    let m = usize::MAX as u128;
    a.saturating_add(b) <= m && c <= m && d <= m
}

/// What the chain adds up to: the tokens of the instruction files that
/// exist (always loaded), the tokens of the files they refer to (loaded
/// under conditions), the external services and the missing files.
pub fn context_totals(chain: &Vec<ChainEntry>) -> (r: ContextTotals)
    requires
        chain_totals(chain@).0 + chain_totals(chain@).1 <= usize::MAX,
        chain_totals(chain@).2 <= usize::MAX,
        chain_totals(chain@).3 <= usize::MAX,
    ensures
        r.always_tokens == chain_totals(chain@).0,
        r.conditional_tokens == chain_totals(chain@).1,
        r.total_worst_case == chain_totals(chain@).0 + chain_totals(chain@).1,
        r.external_services == chain_totals(chain@).2,
        r.files_missing == chain_totals(chain@).3,
{
    let mut a: usize = 0;
    let mut b: usize = 0;
    let mut c: usize = 0;
    let mut d: usize = 0;
    let mut i: usize = 0;
    while i < chain.len()
        invariant
            i <= chain@.len(),
            chain_totals(chain@).0 + chain_totals(chain@).1 <= usize::MAX,
            chain_totals(chain@).2 <= usize::MAX,
            chain_totals(chain@).3 <= usize::MAX,
            a == chain_totals(chain@.take(i as int)).0,
            b == chain_totals(chain@.take(i as int)).1,
            c == chain_totals(chain@.take(i as int)).2,
            d == chain_totals(chain@.take(i as int)).3,
        decreases chain@.len() - i,
    {
        proof {
            assert(chain@.take(i as int + 1).drop_last() =~= chain@.take(i as int));
            lemma_chain_totals_grow(chain@, i as int + 1);
            lemma_chain_totals_grow(chain@.take(i as int + 1), i as int + 1);
            lemma_refs_totals_grow(chain@[i as int].references@, 0);
        }
        let e = &chain[i];
        if e.exists {
            a = a + e.token_count;
        }
        let t = refs_totals_exec(&e.references, Ghost(chain_totals(chain@).1));
        b = b + t.0;
        c = c + t.1;
        d = d + t.2;
        i = i + 1;
    }
    proof {
        assert(chain@.take(chain@.len() as int) =~= chain@);
    }
    ContextTotals { always_tokens: a, conditional_tokens: b, total_worst_case: a + b, external_services: c, files_missing: d }
}

/// Why a file may not be shown.
pub enum ReadFileError {
    /// Only files under the home directory can be read.
    OutsideHome,
    /// Only `.md`, `.txt` and `.toml` files can be read; the file's
    /// extension ("" for none).
    TypeNotAllowed(String),
}

/// The extensions of the files that may be shown.
pub open spec fn readable_extension(e: Seq<char>) -> bool {
    e == "md"@ || e == "txt"@ || e == "toml"@
}

/// The path named by a read request: `~/` is the home directory.
pub open spec fn requested_path(path: Seq<char>, home: Seq<char>) -> Seq<char> {
    if starts_with(path, "~/"@) {
        join_path(home, path.skip(2))
    } else {
        path
    }
}

/// A path component's effect on the components before it: an empty
/// component and `.` change nothing, `..` drops the last one (nothing above
/// the root), any other name is appended.
pub open spec fn norm_step(stack: Seq<Seq<char>>, part: Seq<char>) -> Seq<Seq<char>> {
    if part.len() == 0 || part == "."@ {
        stack
    } else if part == ".."@ {
        if stack.len() > 0 {
            stack.drop_last()
        } else {
            stack
        }
    } else {
        stack.push(part)
    }
}

/// Reading a path left to right: the components kept so far (each finished
/// at a `/`) and the component being read.
pub open spec fn norm_scan(s: Seq<char>) -> (Seq<Seq<char>>, Seq<char>)
    decreases s.len(),
{
    if s.len() == 0 {
        (seq![], seq![])
    } else {
        let q = norm_scan(s.drop_last());
        if s.last() == '/' {
            (norm_step(q.0, q.1), seq![])
        } else {
            (q.0, q.1.push(s.last()))
        }
    }
}

/// `p` with `.` and `..` resolved and repeated or trailing `/` removed, by
/// its text alone (the file system is not consulted).
pub open spec fn lexical_normal(p: Seq<char>) -> Seq<char> {
    let q = norm_scan(p);
    let cs = norm_step(q.0, q.1);
    if p.len() > 0 && p[0] == '/' {
        "/"@ + crate::memory::render::join_with(cs, "/"@)
    } else {
        crate::memory::render::join_with(cs, "/"@)
    }
}

/// Apply one component to the kept components.
fn norm_push(stack: &mut Vec<String>, part: &Vec<char>)
    ensures
        crate::ingester::string_views(final(stack)@) == norm_step(
            crate::ingester::string_views(old(stack)@),
            part@,
        ),
{
    let dot = chars_of(".");
    let dots = chars_of("..");
    proof {
        reveal_strlit(".");
        reveal_strlit("..");
    }
    if part.len() == 0 || crate::text::chars_eq(part.as_slice(), dot.as_slice()) {
        return;
    }
    let ghost before = crate::ingester::string_views(stack@);
    if crate::text::chars_eq(part.as_slice(), dots.as_slice()) {
        if stack.len() > 0 {
            stack.pop();
            proof {
                assert(crate::ingester::string_views(stack@) =~= before.drop_last());
            }
        }
        return;
    }
    stack.push(string_of(part.as_slice()));
    proof {
        assert(crate::ingester::string_views(stack@) =~= before.push(part@));
    }
}

/// `p` with `.` and `..` resolved by its text alone (see [`lexical_normal`]).
pub fn normalize_path(p: &str) -> (r: String)
    ensures
        r@ == lexical_normal(p@),
{
    let v = chars_of(p);
    let mut stack: Vec<String> = Vec::new();
    let mut cur: Vec<char> = Vec::new();
    let mut i: usize = 0;
    proof {
        assert(v@.take(0) =~= Seq::<char>::empty());
    }
    while i < v.len()
        invariant
            i <= v@.len(),
            v@ == p@,
            (crate::ingester::string_views(stack@), cur@) == norm_scan(v@.take(i as int)),
        decreases v@.len() - i,
    {
        proof {
            assert(v@.take(i as int + 1).drop_last() =~= v@.take(i as int));
        }
        if v[i] == '/' {
            norm_push(&mut stack, &cur);
            cur = Vec::new();
        } else {
            cur.push(v[i]);
        }
        i = i + 1;
    }
    proof {
        assert(v@.take(v@.len() as int) =~= v@);
    }
    norm_push(&mut stack, &cur);
    let joined = crate::memory::render::join_strings(&stack, "/");
    proof {
        reveal_strlit("/");
    }
    if v.len() > 0 && v[0] == '/' {
        let mut out = chars_of("/");
        extend_str(&mut out, joined.as_str());
        string_of(out.as_slice())
    } else {
        joined
    }
}

/// Which file a read request may show: the path it names, with `.` and
/// `..` resolved, if that lies under the (likewise resolved) home directory,
/// component-wise, and has a readable extension.
pub fn read_file_target(path: &str, home: &str) -> (r: Result<String, ReadFileError>)
    ensures
        ({
            let p = lexical_normal(requested_path(path@, home@));
            let h = lexical_normal(home@);
            let e = match crate::ingester::extension(p) {
                Some(x) => x,
                None => seq![],
            };
            match r {
                Ok(t) => t@ == p && crate::api::references::path_has_prefix(p, h) && readable_extension(e),
                Err(ReadFileError::OutsideHome) => !crate::api::references::path_has_prefix(p, h),
                Err(ReadFileError::TypeNotAllowed(x)) => crate::api::references::path_has_prefix(p, h)
                    && !readable_extension(e) && x@ == e,
            }
        }),
{
    let v = chars_of(path);
    let tilde = chars_of("~/");
    let named = if crate::textops::starts_with_chars(v.as_slice(), tilde.as_slice()) {
        proof {
            reveal_strlit("~/");
        }
        let rest = slice_chars(v.as_slice(), 2, v.len());
        let rest_s = string_of(rest.as_slice());
        proof {
            assert(rest_s@ =~= path@.skip(2));
        }
        join_paths(home, rest_s.as_str())
    } else {
        path.to_string()
    };
    let resolved = normalize_path(named.as_str());
    let home_n = normalize_path(home);
    if !crate::api::references::path_starts_with(resolved.as_str(), home_n.as_str()) {
        return Err(ReadFileError::OutsideHome);
    }
    let ext = match crate::ingester::path_extension(resolved.as_str()) {
        Some(x) => x,
        None => String::new(),
    };
    let e = ext.as_str();
    if str_eq(e, "md") || str_eq(e, "txt") || str_eq(e, "toml") {
        Ok(resolved)
    } else {
        Err(ReadFileError::TypeNotAllowed(ext))
    }
}

pub open spec fn slash_pred() -> spec_fn(char) -> bool {
    |c: char| c == '/'
}

/// The folder a picker printed: its output trimmed, without trailing `/`.
pub fn picked_folder(output: &str) -> (r: String)
    ensures
        r@ == crate::text::strip_end_by(crate::text::trim(output@), slash_pred()),
{
    let v = chars_of(output);
    let t = crate::text::trim_chars(v.as_slice());
    let mut k: usize = t.len();
    proof {
        assert(t@.subrange(0, k as int) =~= t@);
    }
    while k > 0 && t[k - 1] == '/'
        invariant
            k <= t@.len(),
            crate::text::strip_end_by(t@, slash_pred()) == crate::text::strip_end_by(t@.subrange(0, k as int), slash_pred()),
        decreases k,
    {
        assert(t@.subrange(0, k as int).drop_last() =~= t@.subrange(0, k - 1));
        k = k - 1;
    }
    let r = slice_chars(t.as_slice(), 0, k);
    string_of(r.as_slice())
}

} // verus!
