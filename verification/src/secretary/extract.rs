//! Decision and phase extraction: what is sent to the model, and what its
//! answers change.

use vstd::prelude::*;
use crate::ingester::{Digest, digest_text, message_views};
use crate::ingester::filter::{chars_in_bytes, last_index_of};
use crate::text::{
    byte_len, is_boundary, chars_of, string_of, slice_chars, str_len, char_index_of_byte,
    byte_offset, lemma_byte_len_prefix, lemma_byte_len_prefix_strict, find_char,
};
use crate::textops::{has_char, rfind_char};

verus! {

/// A decision extracted from a session transcript.
pub struct ExtractedDecision {
    pub decision: String,
    pub rationale: String,
    pub domain: String,
    pub alternatives_rejected: Vec<String>,
    pub files: Vec<String>,
}

pub proof fn lemma_boundary_index(s: Seq<char>, e: int, i: int)
    requires
        is_boundary(s, e),
        0 <= i <= s.len(),
        byte_len(s.take(i)) < e,
    ensures
        0 <= chars_in_bytes(s, e) <= s.len(),
        byte_len(s.take(chars_in_bytes(s, e))) == e,
        chars_in_bytes(s, e) > i,
{
    let k = chars_in_bytes(s, e);
    if k <= i {
        lemma_byte_len_prefix(s, k, i);
    }
}

/// Pieces of `s` from character `i` on, each of at most `max` bytes where the
/// text allows: cut at `max` bytes from the piece's start, then back to just
/// after the last newline before that cut, if any. `None` when a cut would
/// fall inside a character.
pub open spec fn chunk_run(s: Seq<char>, i: int, max: nat) -> Option<Seq<Seq<char>>>
    decreases s.len() - i,
{
    if i < 0 || i >= s.len() || max == 0 {
        Some(seq![])
    } else {
        let b = byte_len(s.take(i));
        let e: int = (b + max) as int;
        if e >= byte_len(s) {
            Some(seq![s.skip(i)])
        } else if !is_boundary(s, e) {
            None
        } else {
            let k = chars_in_bytes(s, e);
            proof {
                lemma_boundary_index(s, e, i);
            }
            let piece = s.subrange(i, k);
            proof {
                if has_char(piece, '\n') {
                    lemma_last_index_props(piece, '\n');
                }
            }
            let j = if has_char(piece, '\n') {
                i + last_index_of(piece, '\n') + 1
            } else {
                k
            };
            match chunk_run(s, j, max) {
                Some(r) => Some(seq![s.subrange(i, j)] + r),
                None => None,
            }
        }
    }
}

/// The chunks of `text` for `max_tokens` tokens (4 bytes each): the whole
/// text when it fits, else the pieces of [`chunk_run`].
pub open spec fn chunks(text: Seq<char>, max_tokens: nat) -> Option<Seq<Seq<char>>> {
    if byte_len(text) <= max_tokens * 4 {
        Some(seq![text])
    } else {
        chunk_run(text, 0, max_tokens * 4)
    }
}

/// The concatenation of a sequence of texts.
pub open spec fn concat(ts: Seq<Seq<char>>) -> Seq<char>
    decreases ts.len(),
{
    if ts.len() == 0 {
        seq![]
    } else {
        ts[0] + concat(ts.drop_first())
    }
}

pub proof fn lemma_last_index_props(s: Seq<char>, c: char)
    requires
        has_char(s, c),
    ensures
        0 <= last_index_of(s, c) < s.len(),
        s[last_index_of(s, c)] == c,
        forall|j: int| last_index_of(s, c) < j < s.len() ==> s[j] != c,
{
    let w = choose|i: int| 0 <= i < s.len() && s[i] == c;
    crate::text::lemma_last_index_of_char_bounds(s, c);
    crate::text::lemma_last_index_of_char_after(s, c);
    let k = crate::text::last_index_of_char(s, c);
    assert(k >= 0);
    crate::text::lemma_last_index_of_char_found(s, c);
    assert(0 <= k < s.len() && s[k] == c && forall|j: int| k < j < s.len() ==> s[j] != c);
}

/// Chunks of a successful run put back together give the text they cut.
pub proof fn lemma_chunk_run_concat(s: Seq<char>, i: int, max: nat)
    requires
        0 <= i <= s.len(),
        max > 0,
        chunk_run(s, i, max) is Some,
    ensures
        concat(chunk_run(s, i, max)->0) == s.skip(i),
    decreases s.len() - i,
{
    if i >= s.len() {
        assert(s.skip(i) =~= seq![]);
    } else {
        let b = byte_len(s.take(i));
        let e: int = (b + max) as int;
        if e >= byte_len(s) {
            let r = seq![s.skip(i)];
            assert(r.drop_first() =~= Seq::<Seq<char>>::empty());
            assert(concat(r.drop_first()) == Seq::<char>::empty());
            assert(concat(r) == r[0] + concat(r.drop_first()));
            assert(r[0] + Seq::<char>::empty() =~= s.skip(i));
        } else {
            let k = chars_in_bytes(s, e);
            lemma_boundary_index(s, e, i);
            let piece = s.subrange(i, k);
            let j = if has_char(piece, '\n') {
                lemma_last_index_props(piece, '\n');
                i + last_index_of(piece, '\n') + 1
            } else {
                k
            };
            lemma_chunk_run_concat(s, j, max);
            let r = chunk_run(s, j, max)->0;
            let all = seq![s.subrange(i, j)] + r;
            assert(all.drop_first() =~= r);
            assert(concat(all) == s.subrange(i, j) + s.skip(j));
            assert(s.subrange(i, j) + s.skip(j) =~= s.skip(i));
        }
    }
}

/// Chunking loses nothing: the chunks of a text, put back together, are
/// the text.
pub proof fn lemma_chunks_rebuild_text(text: Seq<char>, max_tokens: nat)
    requires
        max_tokens > 0,
        chunks(text, max_tokens) is Some,
    ensures
        concat(chunks(text, max_tokens)->0) == text,
{
    if byte_len(text) <= max_tokens * 4 {
        let r = seq![text];
        assert(r.drop_first() =~= Seq::<Seq<char>>::empty());
        assert(concat(r) == r[0] + concat(r.drop_first()));
        assert(text + Seq::<char>::empty() =~= text);
    } else {
        lemma_chunk_run_concat(text, 0, max_tokens * 4);
        assert(text.skip(0) =~= text);
    }
}

/// Every piece of a successful run holds something and takes at most `max`
/// bytes.
pub proof fn lemma_chunk_run_bounded(s: Seq<char>, i: int, max: nat)
    requires
        0 <= i <= s.len(),
        max > 0,
        chunk_run(s, i, max) is Some,
    ensures
        forall|k: int|
            0 <= k < chunk_run(s, i, max)->0.len() ==> (#[trigger] chunk_run(s, i, max)->0[k]).len() > 0
                && byte_len(chunk_run(s, i, max)->0[k]) <= max,
    decreases s.len() - i,
{
    if i < s.len() {
        let b = byte_len(s.take(i));
        let e: int = (b + max) as int;
        crate::text::lemma_byte_len_concat(s.take(i), s.skip(i));
        assert(s.take(i) + s.skip(i) =~= s);
        if e >= byte_len(s) {
            let r = chunk_run(s, i, max)->0;
            assert(r =~= seq![s.skip(i)]);
        } else {
            let k = chars_in_bytes(s, e);
            lemma_boundary_index(s, e, i);
            let piece = s.subrange(i, k);
            let j = if has_char(piece, '\n') {
                lemma_last_index_props(piece, '\n');
                i + last_index_of(piece, '\n') + 1
            } else {
                k
            };
            lemma_chunk_run_bounded(s, j, max);
            crate::text::lemma_byte_len_concat(s.take(i), s.subrange(i, j));
            assert(s.take(i) + s.subrange(i, j) =~= s.take(j));
            lemma_byte_len_prefix(s, j, k);
            let rest = chunk_run(s, j, max)->0;
            let all = seq![s.subrange(i, j)] + rest;
            assert(chunk_run(s, i, max)->0 == all);
            assert forall|x: int| 0 <= x < all.len() implies (#[trigger] all[x]).len() > 0 && byte_len(all[x]) <= max by {
                if x > 0 {
                    assert(all[x] == rest[x - 1]);
                }
            }
        }
    }
}

/// The chunks of a text each take at most `4 * max_tokens` bytes, and none
/// is empty unless the text is.
pub proof fn lemma_chunks_bounded(text: Seq<char>, max_tokens: nat)
    requires
        max_tokens > 0,
        chunks(text, max_tokens) is Some,
    ensures
        forall|k: int|
            0 <= k < chunks(text, max_tokens)->0.len() ==> byte_len(#[trigger] chunks(text, max_tokens)->0[k])
                <= max_tokens * 4 && (text.len() > 0 ==> chunks(text, max_tokens)->0[k].len() > 0),
{
    if byte_len(text) > max_tokens * 4 {
        lemma_chunk_run_bounded(text, 0, max_tokens * 4);
    }
}

/// Split text into chunks of about `max_tokens` tokens at line breaks where
/// possible; `None` where a cut would fall inside a character (slicing the
/// text there would panic).
#[verifier::spinoff_prover]
#[verifier::rlimit(30)]
pub fn try_chunk_text(text: &str, max_tokens: usize) -> (r: Option<Vec<String>>)
    requires
        max_tokens > 0,
        byte_len(text@) + max_tokens * 4 <= usize::MAX,
    ensures
        match r {
            Some(v) => chunks(text@, max_tokens as nat) == Some(crate::ingester::string_views(v@)),
            None => chunks(text@, max_tokens as nat) is None,
        },
{
    let max_chars = max_tokens * 4;
    let n = str_len(text);
    if n <= max_chars {
        let mut r: Vec<String> = Vec::new();
        r.push(text.to_string());
        proof {
            assert(crate::ingester::string_views(r@) =~= seq![text@]);
        }
        return Some(r);
    }
    let v = chars_of(text);
    let ghost s = v@;
    let ghost m = max_chars as nat;
    let mut out: Vec<String> = Vec::new();
    let mut start: usize = 0;
    let mut start_byte: usize = 0;
    proof {
        assert(s.take(0) =~= Seq::<char>::empty());
    }
    while start < v.len()
        invariant
            s == v@,
            s == text@,
            m == max_chars as nat,
            m > 0,
            max_chars == max_tokens * 4,
            n > max_chars,
            n == byte_len(s),
            byte_len(s) + m <= usize::MAX,
            start <= s.len(),
            start_byte == byte_len(s.take(start as int)),
            chunk_run(s, 0, m) == match chunk_run(s, start as int, m) {
                Some(rest) => Some(crate::ingester::string_views(out@) + rest),
                None => None,
            },
        decreases s.len() - start,
    {
        let ghost before = crate::ingester::string_views(out@);
        proof {
            lemma_byte_len_prefix(s, start as int, s.len() as int);
            assert(s.take(s.len() as int) =~= s);
        }
        let end = start_byte + max_chars;
        if end >= n {
            let rest = slice_chars(v.as_slice(), start, v.len());
            out.push(string_of(rest.as_slice()));
            proof {
                assert(rest@ =~= s.skip(start as int));
                assert(crate::ingester::string_views(out@) =~= before.push(s.skip(start as int)));
                assert(chunk_run(s, v@.len() as int, m) == Some(Seq::<Seq<char>>::empty()));
                assert(before + seq![s.skip(start as int)] =~= before.push(s.skip(start as int)) + Seq::<Seq<char>>::empty());
            }
            start = v.len();
            start_byte = n;
            proof {
                assert(s.take(s.len() as int) =~= s);
            }
        } else {
            let k = match char_index_of_byte(&v, end) {
                Some(k) => k,
                None => {
                    proof {
                        assert(!is_boundary(s, end as int));
                        assert(chunk_run(s, start as int, m) is None);
                    }
                    return None;
                },
            };
            proof {
                lemma_boundary_index(s, end as int, start as int);
                assert forall|j: int|
                    0 <= j <= s.len() && byte_len(s.take(j)) == end implies j == k by {
                    if j < k {
                        lemma_byte_len_prefix_strict(s, j, k as int);
                    } else if j > k {
                        lemma_byte_len_prefix_strict(s, k as int, j);
                    }
                }
                assert(chars_in_bytes(s, end as int) == k);
            }
            let piece = slice_chars(v.as_slice(), start, k);
            let brk: usize = match rfind_char(piece.as_slice(), '\n') {
                Some(p) => {
                    proof {
                        assert(has_char(piece@, '\n'));
                        lemma_last_index_props(piece@, '\n');
                        if last_index_of(piece@, '\n') < p {
                            assert(piece@[p as int] == '\n');
                        }
                        assert(last_index_of(piece@, '\n') == p);
                    }
                    start + p + 1
                },
                None => k,
            };
            let c = slice_chars(v.as_slice(), start, brk);
            out.push(string_of(c.as_slice()));
            proof {
                assert(crate::ingester::string_views(out@) =~= before.push(c@));
                let rr = chunk_run(s, brk as int, m)->0;
                assert(before + (seq![c@] + rr) =~= before.push(c@) + rr);
                lemma_byte_len_prefix(s, brk as int, s.len() as int);
            }
            start_byte = byte_offset(&v, brk);
            start = brk;
        }
    }
    proof {
        assert(chunk_run(s, start as int, m) == Some(Seq::<Seq<char>>::empty()));
        assert(crate::ingester::string_views(out@) + Seq::<Seq<char>>::empty() =~= crate::ingester::string_views(out@));
    }
    Some(out)
}

/// Split text into chunks of about `max_tokens` tokens at line breaks where
/// possible.
pub fn chunk_text(text: &str, max_tokens: usize) -> (r: Vec<String>)
    requires
        max_tokens > 0,
        byte_len(text@) + max_tokens * 4 <= usize::MAX,
        chunks(text@, max_tokens as nat) is Some,
    ensures
        crate::ingester::string_views(r@) == chunks(text@, max_tokens as nat)->0,
{
    match try_chunk_text(text, max_tokens) {
        Some(v) => v,
        None => Vec::new(),
    }
}

/// The last ~`max_tokens` tokens of `text`: from `4 * max_tokens` bytes before
/// its end, moved forward to just after the next newline if there is one.
pub open spec fn tail_of(text: Seq<char>, max_tokens: nat) -> Seq<char> {
    if byte_len(text) <= max_tokens * 4 {
        text
    } else {
        let i = chars_in_bytes(text, byte_len(text) - max_tokens * 4);
        let rest = text.skip(i);
        if has_char(rest, '\n') {
            text.skip(i + crate::text::first_index_of(rest, '\n') + 1)
        } else {
            rest
        }
    }
}

proof fn lemma_first_index_exists(s: Seq<char>, c: char)
    requires
        has_char(s, c),
    ensures
        exists|i: int| 0 <= i < s.len() && s[i] == c && forall|j: int| 0 <= j < i ==> s[j] != c,
    decreases s.len(),
{
    if s[0] == c {
        assert(0 < s.len() && s[0] == c && forall|j: int| 0 <= j < 0 ==> s[j] != c);
    } else {
        let w = choose|i: int| 0 <= i < s.len() && s[i] == c;
        assert(s.drop_first()[w - 1] == c);
        lemma_first_index_exists(s.drop_first(), c);
        let i = choose|i: int| 0 <= i < s.drop_first().len() && s.drop_first()[i] == c && forall|j: int|
            0 <= j < i ==> s.drop_first()[j] != c;
        assert(s[i + 1] == c);
        assert forall|j: int| 0 <= j < i + 1 implies s[j] != c by {
            if j > 0 {
                assert(s[j] == s.drop_first()[j - 1]);
            }
        }
    }
}

/// The tail of a text is a suffix of it. A text within `4 * max_tokens`
/// bytes is its own tail. A longer text's tail takes at most
/// `4 * max_tokens` bytes: it starts at the first line break at or after the
/// character `c` where the last `4 * max_tokens` bytes begin (just after that
/// break), or at `c` itself when no break follows.
pub proof fn lemma_tail_within_budget(text: Seq<char>, max_tokens: nat, c: int)
    requires
        0 <= c <= text.len(),
        byte_len(text) > max_tokens * 4 ==> byte_len(text.take(c)) == byte_len(text) - max_tokens * 4,
    ensures
        ({
            let t = tail_of(text, max_tokens);
            let k = text.len() - t.len();
            &&& t.len() <= text.len()
            &&& text.skip(k) == t
            &&& byte_len(text) <= max_tokens * 4 ==> t == text
            &&& byte_len(text) > max_tokens * 4 ==> {
                &&& byte_len(t) <= max_tokens * 4
                &&& k >= c
                &&& if has_char(text.skip(c), '\n') {
                    &&& k > c
                    &&& text[k - 1] == '\n'
                    &&& forall|j: int| c <= j < k - 1 ==> text[j] != '\n'
                } else {
                    k == c
                }
            }
        }),
{
    let t = tail_of(text, max_tokens);
    if byte_len(text) <= max_tokens * 4 {
        assert(text.skip(0) =~= text);
    } else {
        let e = byte_len(text) - max_tokens * 4;
        assert(crate::text::is_boundary(text, e));
        let i = chars_in_bytes(text, e);
        assert(0 <= i <= text.len() && byte_len(text.take(i)) == e);
        if i < c {
            lemma_byte_len_prefix_strict(text, i, c);
        } else if i > c {
            lemma_byte_len_prefix_strict(text, c, i);
        }
        assert(i == c);
        let rest = text.skip(c);
        let k: int = if has_char(rest, '\n') {
            lemma_first_index_exists(rest, '\n');
            let q = crate::text::first_index_of(rest, '\n');
            assert(0 <= q < rest.len() && rest[q] == '\n' && forall|j: int| 0 <= j < q ==> rest[j] != '\n');
            assert forall|j: int| c <= j < c + q implies text[j] != '\n' by {
                assert(rest[j - c] == text[j]);
            }
            assert(rest[q] == text[c + q]);
            c + q + 1
        } else {
            c
        };
        assert(t =~= text.skip(k));
        assert(text.len() - t.len() == k);
        crate::text::lemma_byte_len_concat(text.take(k), text.skip(k));
        assert(text.take(k) + text.skip(k) =~= text);
        lemma_byte_len_prefix(text, c, k);
    }
}

/// Get the last ~`max_tokens` tokens of text, starting at a line break.
pub fn tail_text(text: &str, max_tokens: usize) -> (r: String)
    requires
        max_tokens * 4 <= usize::MAX,
        byte_len(text@) <= max_tokens * 4 || is_boundary(
            text@,
            byte_len(text@) - max_tokens * 4,
        ),
    ensures
        r@ == tail_of(text@, max_tokens as nat),
        text@.len() >= r@.len() && text@.skip(text@.len() - r@.len()) == r@,
{
    let max_chars = max_tokens * 4;
    let n = str_len(text);
    if n <= max_chars {
        proof {
            assert(text@.skip(0) =~= text@);
        }
        return text.to_string();
    }
    let v = chars_of(text);
    let start = n - max_chars;
    let i = match char_index_of_byte(&v, start) {
        Some(i) => i,
        None => {
            proof {
                assert(false);
            }
            0
        },
    };
    proof {
        assert forall|j: int| 0 <= j <= v@.len() && byte_len(v@.take(j)) == start implies j
            == i by {
            if j < i {
                lemma_byte_len_prefix_strict(v@, j, i as int);
            } else if j > i {
                lemma_byte_len_prefix_strict(v@, i as int, j);
            }
        }
        assert(chars_in_bytes(text@, start as int) == i);
    }
    let rest = slice_chars(v.as_slice(), i, v.len());
    proof {
        assert(rest@ =~= text@.skip(i as int));
    }
    match find_char(rest.as_slice(), '\n') {
        Some(p) => {
            proof {
                assert(has_char(rest@, '\n'));
                assert(crate::text::first_index_of(rest@, '\n') == p) by {
                    let q = crate::text::first_index_of(rest@, '\n');
                    if q < p {
                        assert(rest@[q] == '\n');
                    } else if q > p {
                    }
                }
            }
            let t = slice_chars(v.as_slice(), i + p + 1, v.len());
            proof {
                assert(t@ =~= text@.skip(i + p + 1));
                assert(text@.skip(text@.len() - t@.len()) =~= t@);
            }
            string_of(t.as_slice())
        },
        None => {
            proof {
                assert(!has_char(rest@, '\n'));
                assert(text@.skip(text@.len() - rest@.len()) =~= rest@);
            }
            string_of(rest.as_slice())
        },
    }
}

} // verus!

verus! {

/// The decision-extraction prompts for a transcript: the template filled with
/// each chunk of about 6000 tokens of the transcript text.
pub open spec fn decision_prompt_texts(template: Seq<char>, transcript: Seq<char>) -> Seq<Seq<char>> {
    chunks(transcript, 6000)->0.map_values(|c: Seq<char>| crate::secretary::prompts::filled(template, c))
}

/// The prompts that decision extraction sends for a digest, one per chunk;
/// `None` where cutting the transcript would split a character (slicing it
/// there would panic).
pub fn decision_prompts(digest: &Digest, template: &str) -> (r: Option<Vec<String>>)
    requires
        byte_len(digest_text(message_views(digest.messages@))) + 24000 <= usize::MAX,
    ensures
        match r {
            Some(v) => chunks(digest_text(message_views(digest.messages@)), 6000) is Some
                && crate::ingester::string_views(v@) == decision_prompt_texts(
                template@,
                digest_text(message_views(digest.messages@)),
            ),
            None => chunks(digest_text(message_views(digest.messages@)), 6000) is None,
        },
{
    let text = digest.to_text();
    let cs = match try_chunk_text(text.as_str(), 6000) {
        Some(cs) => cs,
        None => {
            return None;
        },
    };
    let ghost want = decision_prompt_texts(template@, text@);
    let mut out: Vec<String> = Vec::new();
    let mut i: usize = 0;
    while i < cs.len()
        invariant
            i <= cs@.len(),
            crate::ingester::string_views(cs@) == chunks(text@, 6000)->0,
            want == decision_prompt_texts(template@, text@),
            out@.len() == i,
            forall|j: int| 0 <= j < i ==> #[trigger] out@[j]@ == want[j],
        decreases cs@.len() - i,
    {
        let p = crate::secretary::prompts::PromptLoader::fill(template, cs[i].as_str());
        proof {
            assert(crate::ingester::string_views(cs@)[i as int] == cs@[i as int]@);
        }
        out.push(p);
        i = i + 1;
    }
    proof {
        assert(crate::ingester::string_views(out@) =~= want);
    }
    Some(out)
}

/// Where the last ~3000 tokens of a transcript can be cut off: the cut
/// falls between two characters (or the text is short enough).
pub open spec fn tail_cut_ok(text: Seq<char>) -> bool {
    byte_len(text) <= 12000 || is_boundary(text, byte_len(text) - 12000)
}

/// The phase-detection prompt for a transcript: the template filled with the
/// last ~3000 tokens of the transcript text; `None` where the cut would
/// split a character (slicing the text there would panic).
pub fn phase_prompt(digest: &Digest, template: &str) -> (r: Option<String>)
    ensures
        match r {
            Some(p) => tail_cut_ok(digest_text(message_views(digest.messages@))) && p@
                == crate::secretary::prompts::filled(
                template@,
                tail_of(digest_text(message_views(digest.messages@)), 3000),
            ),
            None => !tail_cut_ok(digest_text(message_views(digest.messages@))),
        },
{
    let text = digest.to_text();
    let n = str_len(text.as_str());
    if n > 12000 {
        let v = chars_of(text.as_str());
        if char_index_of_byte(&v, n - 12000).is_none() {
            return None;
        }
    }
    let tail = tail_text(text.as_str(), 3000);
    Some(crate::secretary::prompts::PromptLoader::fill(template, tail.as_str()))
}

/// The phase a project leaves when a new phase is detected: the current
/// phase (or "unknown") when it differs from the detected one, else `None`.
pub open spec fn phase_left(current: Option<Seq<char>>, detected: Seq<char>) -> Option<Seq<char>> {
    let old = match current {
        Some(p) => p,
        None => "unknown"@,
    };
    if old != detected {
        Some(old)
    } else {
        None
    }
}

/// Whether a detected phase changes the project's phase, and from what.
pub fn phase_change(current: Option<&str>, detected: &str) -> (r: Option<String>)
    ensures
        crate::text::opt_view(r) == phase_left(
            match current {
                Some(p) => Some(p@),
                None => None,
            },
            detected@,
        ),
{
    let old: &str = match current {
        Some(p) => p,
        None => "unknown",
    };
    if crate::text::str_eq(old, detected) {
        None
    } else {
        Some(old.to_string())
    }
}

} // verus!
