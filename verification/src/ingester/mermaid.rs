//! Mermaid diagrams found in session transcripts.

use vstd::prelude::*;
use crate::text::{byte_len, trim, byte_prefix, byte_prefix_of, chars_of, string_of, opt_view};
use crate::textops::{lines, words, lowercase, starts_with, ends_with, replace_all};
use crate::api::references::{regex_matches, regex_captures};

verus! {

/// A mermaid diagram extracted from a session transcript.
pub struct ExtractedDiagram {
    pub title: Option<String>,
    pub diagram_type: String,
    /// Raw mermaid text, no fences.
    pub content: String,
    /// sha256 hex of the trimmed content.
    pub fingerprint: String,
}

pub struct DiagramView {
    pub title: Option<Seq<char>>,
    pub diagram_type: Seq<char>,
    pub content: Seq<char>,
    pub fingerprint: Seq<char>,
}

impl View for ExtractedDiagram {
    type V = DiagramView;

    open spec fn view(&self) -> DiagramView {
        DiagramView {
            title: opt_view(self.title),
            diagram_type: self.diagram_type@,
            content: self.content@,
            fingerprint: self.fingerprint@,
        }
    }
}

/// The SHA-256 digest of the UTF-8 encoding of `text`.
pub uninterp spec fn sha256(text: Seq<char>) -> Seq<u8>;

/// sha2: `Sha256::digest` of the text's bytes. Named, not stated: it
/// depends on the text alone; its output is 32 bytes (the digest's output
/// size).
#[verifier::external_body]
fn sha256_digest(text: &str) -> (r: Vec<u8>)
    ensures
        r@ == sha256(text@),
        r@.len() == 32,
{
    <sha2::Sha256 as sha2::Digest>::digest(text.as_bytes()).to_vec()
}

pub open spec fn hex_digits() -> Seq<char> {
    "0123456789abcdef"@
}

/// Lowercase hexadecimal, two digits per byte.
pub open spec fn hex(bytes: Seq<u8>) -> Seq<char>
    decreases bytes.len(),
{
    if bytes.len() == 0 {
        seq![]
    } else {
        let b = bytes.last();
        hex(bytes.drop_last()) + seq![hex_digits()[(b / 16) as int], hex_digits()[(b % 16) as int]]
    }
}

/// Lowercase hexadecimal, two digits per byte.
pub fn hex_string(bytes: &Vec<u8>) -> (r: String)
    ensures
        r@ == hex(bytes@),
{
    proof {
        reveal_strlit("0123456789abcdef");
    }
    let digits = chars_of("0123456789abcdef");
    let mut out: Vec<char> = Vec::new();
    let mut i: usize = 0;
    while i < bytes.len()
        invariant
            i <= bytes@.len(),
            digits@ == hex_digits(),
            digits@.len() == 16,
            out@ == hex(bytes@.take(i as int)),
        decreases bytes@.len() - i,
    {
        proof {
            assert(bytes@.take(i as int + 1).drop_last() =~= bytes@.take(i as int));
        }
        let b = bytes[i];
        out.push(digits[(b / 16) as usize]);
        out.push(digits[(b % 16) as usize]);
        i = i + 1;
        proof {
            assert(out@ =~= hex(bytes@.take(i as int)));
        }
    }
    proof {
        assert(bytes@.take(bytes@.len() as int) =~= bytes@);
    }
    string_of(out.as_slice())
}

/// The fingerprint of a diagram: the hex SHA-256 of its text's UTF-8 bytes.
pub fn sha256_hex(text: &str) -> (r: String)
    ensures
        r@ == hex(sha256(text@)),
{
    let d = sha256_digest(text);
    hex_string(&d)
}

/// A fenced mermaid block: its text between the fences (the line ends may
/// be real or JSON-escaped).
pub open spec fn mermaid_pattern() -> Seq<char> {
    "```mermaid(?:\\\\n|\\n)([\\s\\S]*?)(?:\\\\n|\\n)```"@
}

/// A diagram's text: JSON-escaped line ends and tabs restored, trimmed.
pub open spec fn unescaped(raw: Seq<char>) -> Seq<char> {
    trim(replace_all(replace_all(raw, "\\n"@, "\n"@), "\\t"@, "\t"@))
}

/// The first of `ls` that is neither blank nor a `%%` comment.
pub open spec fn first_statement(ls: Seq<Seq<char>>) -> Option<Seq<char>>
    decreases ls.len(),
{
    if ls.len() == 0 {
        None
    } else if trim(ls[0]).len() > 0 && !starts_with(trim(ls[0]), "%%"@) {
        Some(ls[0])
    } else {
        first_statement(ls.drop_first())
    }
}

/// The diagram type: the first word of its first statement, lowercased
/// ("unknown" when there is none).
pub open spec fn diagram_type_of(content: Seq<char>) -> Seq<char> {
    match first_statement(lines(content)) {
        Some(l) => if words(l).len() > 0 {
            lowercase(words(l)[0])
        } else {
            lowercase("unknown"@)
        },
        None => lowercase("unknown"@),
    }
}

/// Trailing punctuation and JSON leftovers of a title line.
pub open spec fn title_junk(c: char) -> bool {
    c == ':' || c == '-' || c == '"' || c == '\\'
}

/// `s` without its trailing title junk: `:` `-` `"` `\` and the escaped
/// newline `\n` (a backslash followed by the letter n).
pub open spec fn strip_title_junk(s: Seq<char>) -> Seq<char>
    decreases s.len(),
{
    if s.len() >= 2 && s[s.len() - 2] == '\\' && s[s.len() - 1] == 'n' {
        strip_title_junk(s.subrange(0, s.len() - 2))
    } else if s.len() >= 1 && title_junk(s.last()) {
        strip_title_junk(s.drop_last())
    } else {
        s
    }
}

/// The last of `ls` that, trimmed, is longer than four bytes; trimmed.
pub open spec fn last_long_line(ls: Seq<Seq<char>>) -> Option<Seq<char>>
    decreases ls.len(),
{
    if ls.len() == 0 {
        None
    } else if byte_len(trim(ls.last())) > 4 {
        Some(trim(ls.last()))
    } else {
        last_long_line(ls.drop_last())
    }
}

/// Text that looks like JSON structure rather than prose.
pub open spec fn looks_like_json(t: Seq<char>) -> bool {
    starts_with(t, "{"@) || starts_with(t, "["@) || starts_with(t, "\""@) || ends_with(t, "{"@)
        || ends_with(t, ","@)
}

/// A diagram's title: the last line of some length before its fence, with
/// trailing `:` `-` `"` `\` and escaped newlines removed, if 4 to 120 bytes long and not JSON.
pub open spec fn title_before(raw: Seq<char>, fence_start: int) -> Option<Seq<char>> {
    match last_long_line(lines(byte_prefix(raw, fence_start))) {
        None => None,
        Some(c) => {
            let t = trim(strip_title_junk(c));
            if byte_len(t) < 4 || byte_len(t) > 120 || looks_like_json(t) {
                None
            } else {
                Some(t)
            }
        },
    }
}

/// A diagram's title, from the text before its fence.
pub fn extract_title(raw_text: &str, fence_start: usize) -> (r: Option<String>)
    ensures
        opt_view(r) == title_before(raw_text@, fence_start as int),
{
    let before = byte_prefix_of(raw_text, fence_start);
    let bv = chars_of(before.as_str());
    let ls = crate::textops::lines_of(bv.as_slice());
    let ghost lv = crate::textops::views(ls@);
    let mut k: usize = ls.len();
    let mut found: Option<Vec<char>> = None;
    proof {
        assert(lv.take(k as int) =~= lv);
    }
    while k > 0
        invariant_except_break
            found is None,
        invariant
            k <= ls@.len(),
            lv == crate::textops::views(ls@),
            last_long_line(lv) == last_long_line(lv.take(k as int)),
        ensures
            match found {
                Some(c) => last_long_line(lv) == Some(c@),
                None => last_long_line(lv) is None,
            },
        decreases k,
    {
        let t = crate::text::trim_chars(ls[k - 1].as_slice());
        let ts = string_of(t.as_slice());
        let n = crate::text::str_len(ts.as_str());
        proof {
            assert(lv.take(k as int).last() == ls@[k - 1]@);
            assert(lv.take(k as int).drop_last() =~= lv.take(k - 1));
        }
        if n > 4 {
            found = Some(t);
            break;
        }
        k = k - 1;
    }
    proof {
        if found is None && k == 0 {
            assert(lv.take(0) =~= Seq::<Seq<char>>::empty());
        }
    }
    let c = match found {
        Some(c) => c,
        None => {
            return None;
        },
    };
    let mut e: usize = c.len();
    proof {
        assert(c@.subrange(0, e as int) =~= c@);
    }
    loop
        invariant
            e <= c@.len(),
            strip_title_junk(c@) == strip_title_junk(c@.subrange(0, e as int)),
        ensures
            e <= c@.len(),
            strip_title_junk(c@) == c@.subrange(0, e as int),
        decreases e,
    {
        let ghost cur = c@.subrange(0, e as int);
        if e >= 2 && c[e - 2] == '\\' && c[e - 1] == 'n' {
            assert(cur.subrange(0, cur.len() - 2) =~= c@.subrange(0, e - 2));
            e = e - 2;
        } else if e >= 1 && (c[e - 1] == ':' || c[e - 1] == '-' || c[e - 1] == '"' || c[e - 1] == '\\') {
            assert(cur.drop_last() =~= c@.subrange(0, e - 1));
            e = e - 1;
        } else {
            break;
        }
    }
    let stripped = crate::text::slice_chars(c.as_slice(), 0, e);
    let t = crate::text::trim_chars(stripped.as_slice());
    let ts = string_of(t.as_slice());
    let n = crate::text::str_len(ts.as_str());
    if n < 4 || n > 120 {
        return None;
    }
    let json_like = crate::textops::starts_with_chars(t.as_slice(), chars_of("{").as_slice())
        || crate::textops::starts_with_chars(t.as_slice(), chars_of("[").as_slice())
        || crate::textops::starts_with_chars(t.as_slice(), chars_of("\"").as_slice())
        || crate::textops::ends_with_chars(t.as_slice(), chars_of("{").as_slice())
        || crate::textops::ends_with_chars(t.as_slice(), chars_of(",").as_slice());
    if json_like {
        None
    } else {
        Some(ts)
    }
}

/// A diagram's type: the first word of its first statement, lowercased.
pub fn extract_diagram_type(content: &str) -> (r: String)
    ensures
        r@ == diagram_type_of(content@),
{
    let cv = chars_of(content);
    let ls = crate::textops::lines_of(cv.as_slice());
    let ghost lv = crate::textops::views(ls@);
    let pct = chars_of("%%");
    let mut k: usize = 0;
    proof {
        assert(lv.skip(0) =~= lv);
    }
    while k < ls.len()
        invariant
            k <= ls@.len(),
            lv == crate::textops::views(ls@),
            lv == lines(content@),
            pct@ == "%%"@,
            first_statement(lv) == first_statement(lv.skip(k as int)),
        decreases ls@.len() - k,
    {
        let t = crate::text::trim_chars(ls[k].as_slice());
        proof {
            assert(lv.skip(k as int)[0] == ls@[k as int]@);
            assert(lv.skip(k as int).drop_first() =~= lv.skip(k as int + 1));
        }
        if t.len() > 0 && !crate::textops::starts_with_chars(t.as_slice(), pct.as_slice()) {
            let ws = crate::textops::words_of(ls[k].as_slice());
            proof {
                assert(first_statement(lv) == Some(ls@[k as int]@));
                assert(crate::textops::views(ws@) == words(ls@[k as int]@));
                if ws@.len() > 0 {
                    assert(words(ls@[k as int]@)[0] == ws@[0]@);
                }
            }
            if ws.len() > 0 {
                let w = string_of(ws[0].as_slice());
                return crate::textops::to_lowercase(w.as_str());
            } else {
                return crate::textops::to_lowercase("unknown");
            }
        }
        k = k + 1;
    }
    proof {
        assert(lv.skip(k as int) =~= Seq::<Seq<char>>::empty());
    }
    crate::textops::to_lowercase("unknown")
}

/// The diagrams found so far, and their fingerprints.
pub struct MermaidView {
    pub seen: Set<Seq<char>>,
    pub out: Seq<DiagramView>,
}

/// One fenced block's diagram: kept unless empty or its fingerprint was
/// already seen.
pub open spec fn mermaid_step(st: MermaidView, raw_text: Seq<char>, m: Seq<Option<(usize, Seq<char>)>>) -> MermaidView {
    if m.len() < 2 {
        st
    } else {
        match m[1] {
            None => st,
            Some(g) => {
                let content = unescaped(g.1);
                let fp = hex(sha256(content));
                if content.len() == 0 || st.seen.contains(fp) {
                    st
                } else {
                    let start = match m[0] {
                        Some(w) => w.0 as int,
                        None => 0,
                    };
                    MermaidView {
                        seen: st.seen.insert(fp),
                        out: st.out.push(
                            DiagramView {
                                title: title_before(raw_text, start),
                                diagram_type: diagram_type_of(content),
                                content,
                                fingerprint: fp,
                            },
                        ),
                    }
                }
            },
        }
    }
}

pub open spec fn mermaid_fold(raw_text: Seq<char>, ms: Seq<Seq<Option<(usize, Seq<char>)>>>) -> MermaidView
    decreases ms.len(),
{
    if ms.len() == 0 {
        MermaidView { seen: Set::empty(), out: seq![] }
    } else {
        mermaid_step(mermaid_fold(raw_text, ms.drop_last()), raw_text, ms.last())
    }
}

/// The diagrams of a transcript: each fenced mermaid block, in order, once
/// per distinct fingerprint (the SHA-256 of its text, in hex).
pub open spec fn diagrams_of(raw_text: Seq<char>) -> Seq<DiagramView> {
    match regex_matches(mermaid_pattern(), raw_text) {
        Some(ms) => mermaid_fold(raw_text, ms).out,
        None => seq![],
    }
}

/// Extract all mermaid code blocks from raw session text (JSON lines or
/// plain text alike), once per distinct fingerprint.
pub fn extract_mermaid(raw_text: &str) -> (r: Vec<ExtractedDiagram>)
    ensures
        r@.map_values(|d: ExtractedDiagram| d@) == diagrams_of(raw_text@),
{
    match regex_captures("```mermaid(?:\\\\n|\\n)([\\s\\S]*?)(?:\\\\n|\\n)```", raw_text) {
        Some(ms) => diagrams_from_captures(raw_text, &ms),
        None => {
            let out: Vec<ExtractedDiagram> = Vec::new();
            proof {
                assert(out@.map_values(|d: ExtractedDiagram| d@) =~= Seq::<DiagramView>::empty());
            }
            out
        },
    }
}

/// The diagrams of a transcript, from the matches of the fenced-block
/// pattern in it: each block's text unescaped and trimmed, kept unless
/// empty or its fingerprint (SHA-256, hex) was seen before, with its title
/// and type.
pub fn diagrams_from_captures(raw_text: &str, ms: &Vec<Vec<Option<(usize, String)>>>) -> (r: Vec<ExtractedDiagram>)
    ensures
        r@.map_values(|d: ExtractedDiagram| d@) == mermaid_fold(raw_text@, ms.deep_view()).out,
{
    let mut out: Vec<ExtractedDiagram> = Vec::new();
    let ghost mv = ms.deep_view();
    let mut seen: Vec<String> = Vec::new();
    let mut i: usize = 0;
    proof {
        assert(mv.take(0) =~= Seq::<Seq<Option<(usize, Seq<char>)>>>::empty());
        assert(crate::ingester::string_views(seen@).to_set() =~= Set::empty());
        assert(out@.map_values(|d: ExtractedDiagram| d@) =~= Seq::<DiagramView>::empty());
    }
    while i < ms.len()
        invariant
            i <= ms@.len(),
            mv == ms.deep_view(),
            mv.len() == ms@.len(),
            crate::ingester::string_views(seen@).to_set() == mermaid_fold(raw_text@, mv.take(i as int)).seen,
            out@.map_values(|d: ExtractedDiagram| d@) == mermaid_fold(raw_text@, mv.take(i as int)).out,
        decreases ms@.len() - i,
    {
        proof {
            assert(mv.take(i as int + 1).drop_last() =~= mv.take(i as int));
            assert(mv.take(i as int + 1).last() == mv[i as int]);
            assert(mv[i as int] == ms@[i as int].deep_view());
        }
        let m = &ms[i];
        if m.len() >= 2 {
            proof {
                assert(ms@[i as int].deep_view()[1] == m@[1].deep_view());
                assert(ms@[i as int].deep_view()[0] == m@[0].deep_view());
            }
            if let Some(g) = &m[1] {
                proof {
                    reveal_strlit("\\n");
                    reveal_strlit("\\t");
                }
                let r1 = crate::textops::replace_chars(
                    chars_of(g.1.as_str()).as_slice(),
                    chars_of("\\n").as_slice(),
                    chars_of("\n").as_slice(),
                );
                let r2 = crate::textops::replace_chars(r1.as_slice(), chars_of("\\t").as_slice(), chars_of("\t").as_slice());
                let t = crate::text::trim_chars(r2.as_slice());
                let content = string_of(t.as_slice());
                if content.as_str().is_empty() {
                } else {
                    let fp = sha256_hex(content.as_str());
                    if !contains_str(&seen, fp.as_str()) {
                        let start: usize = match &m[0] {
                            Some(w) => w.0,
                            None => 0,
                        };
                        let d = ExtractedDiagram {
                            title: extract_title(raw_text, start),
                            diagram_type: extract_diagram_type(content.as_str()),
                            content,
                            fingerprint: fp.clone(),
                        };
                        let ghost before = out@;
                        out.push(d);
                        add_str(&mut seen, fp);
                        proof {
                            assert(out@.map_values(|d: ExtractedDiagram| d@) =~= before.map_values(
                                |d: ExtractedDiagram| d@,
                            ).push(d@));
                        }
                    }
                }
            }
        }
        i = i + 1;
    }
    proof {
        assert(mv.take(mv.len() as int) =~= mv);
    }
    out
}

fn contains_str(v: &Vec<String>, s: &str) -> (r: bool)
    ensures
        r == crate::ingester::string_views(v@).to_set().contains(s@),
{
    let mut i: usize = 0;
    while i < v.len()
        invariant
            i <= v@.len(),
            forall|k: int| 0 <= k < i ==> v@[k]@ != s@,
        decreases v@.len() - i,
    {
        if crate::text::str_eq(v[i].as_str(), s) {
            proof {
                assert(crate::ingester::string_views(v@)[i as int] == s@);
            }
            return true;
        }
        i = i + 1;
    }
    proof {
        if crate::ingester::string_views(v@).to_set().contains(s@) {
            let k = choose|k: int| 0 <= k < crate::ingester::string_views(v@).len() && crate::ingester::string_views(v@)[k] == s@;
            assert(v@[k]@ == s@);
        }
    }
    false
}

fn add_str(v: &mut Vec<String>, s: String)
    ensures
        crate::ingester::string_views(final(v)@).to_set() == crate::ingester::string_views(old(v)@).to_set().insert(s@),
{
    let ghost before = crate::ingester::string_views(v@);
    let ghost sv = s@;
    v.push(s);
    proof {
        assert(crate::ingester::string_views(v@) =~= before.push(sv));
        before.lemma_push_to_set_commute(sv);
    }
}

proof fn lemma_mermaid_fold_distinct(raw_text: Seq<char>, ms: Seq<Seq<Option<(usize, Seq<char>)>>>)
    ensures
        forall|i: int| 0 <= i < mermaid_fold(raw_text, ms).out.len() ==> mermaid_fold(raw_text, ms).seen.contains(
            #[trigger] mermaid_fold(raw_text, ms).out[i].fingerprint,
        ),
        forall|i: int, j: int|
            0 <= i < j < mermaid_fold(raw_text, ms).out.len() ==> (#[trigger] mermaid_fold(raw_text, ms).out[i]).fingerprint
                != (#[trigger] mermaid_fold(raw_text, ms).out[j]).fingerprint,
    decreases ms.len(),
{
    if ms.len() > 0 {
        lemma_mermaid_fold_distinct(raw_text, ms.drop_last());
    }
}

/// A transcript's diagrams are told apart by their fingerprints: no two
/// have the same one, so repeated blocks are kept once.
pub proof fn lemma_diagrams_distinct(raw_text: Seq<char>)
    ensures
        forall|i: int, j: int|
            0 <= i < j < diagrams_of(raw_text).len() ==> (#[trigger] diagrams_of(raw_text)[i]).fingerprint
                != (#[trigger] diagrams_of(raw_text)[j]).fingerprint,
{
    match regex_matches(mermaid_pattern(), raw_text) {
        Some(ms) => lemma_mermaid_fold_distinct(raw_text, ms),
        None => {},
    }
}

} // verus!
