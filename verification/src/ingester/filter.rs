//! Filtering and compression of parsed messages into a lean digest.

use vstd::prelude::*;
use crate::config::IngesterConfig;
use crate::ingester::{DigestMessage, MessageView, message_views, clone_strings, string_views};
use crate::text::{
    byte_len, is_blank, is_boundary, trim, trim_end, opt_view, strip_by, chars_of,
    string_of, extend_chars, extend_str, str_eq, str_len, is_blank_chars, trim_chars,
    trim_end_chars, slice_chars, char_index_of_byte, strip_chars_by, lemma_byte_len_prefix,
};
use crate::textops::{
    lines, words, contains, starts_with, has_char, decimal, lowercase, alphanumeric, views,
    lines_of, words_of, contains_chars, starts_with_chars, has_char_exec, rfind_char,
    decimal_chars, to_lowercase, is_alphanumeric,
};

verus! {

// ───────────────────────── Outside calls ─────────────────────────

/// What serde_json yields for `text` parsed as a JSON value, then the member
/// `key` of it taken as a string: `None` when the text is not JSON, not an
/// object, lacks the member, or the member is not a string.
pub uninterp spec fn json_member_as_str(text: Seq<char>, key: Seq<char>) -> Option<Seq<char>>;

/// serde_json `from_str::<Value>`, then `Value::get(key)` and `Value::as_str`.
#[verifier::external_body]
pub fn json_member_str(text: &str, key: &str) -> (r: Option<String>)
    ensures
        opt_view(r) == json_member_as_str(text@, key@),
{
    serde_json::from_str::<serde_json::Value>(text).ok().and_then(
        |v| v.get(key).and_then(|m| m.as_str()).map(|m| m.to_string()),
    )
}

// ───────────────────────── Specification ─────────────────────────

/// The name of an edit or write tool.
pub open spec fn is_edit_tool_name(name: Seq<char>) -> bool {
    let l = lowercase(name);
    contains(l, "edit"@) || contains(l, "write"@) || contains(l, "replace"@) || contains(
        l,
        "patch"@,
    )
}

/// Characters trimmed from a word before it is taken as an edit target.
pub open spec fn edit_junk(c: char) -> bool {
    !alphanumeric(c) && c != '/' && c != '.' && c != '_' && c != '-'
}

pub open spec fn edit_junk_pred() -> spec_fn(char) -> bool {
    |c: char| edit_junk(c)
}

/// A word that looks like a file path (not a URL).
pub open spec fn looks_like_path(w: Seq<char>) -> bool {
    has_char(w, '/') && has_char(w, '.') && !starts_with(w, "http"@)
}

/// The first word of `ws` that, trimmed, looks like a file path.
pub open spec fn first_path_word(ws: Seq<Seq<char>>) -> Option<Seq<char>>
    decreases ws.len(),
{
    if ws.len() == 0 {
        None
    } else {
        let c = strip_by(ws[0], edit_junk_pred());
        if looks_like_path(c) {
            Some(c)
        } else {
            first_path_word(ws.drop_first())
        }
    }
}

/// The file an edit tool's input targets: the first string member among
/// `file_path`, `path`, `file`, `filename` of the input read as JSON, else the
/// first path-like word.
pub open spec fn edit_target(content: Seq<char>) -> Option<Seq<char>> {
    if json_member_as_str(content, "file_path"@) is Some {
        json_member_as_str(content, "file_path"@)
    } else if json_member_as_str(content, "path"@) is Some {
        json_member_as_str(content, "path"@)
    } else if json_member_as_str(content, "file"@) is Some {
        json_member_as_str(content, "file"@)
    } else if json_member_as_str(content, "filename"@) is Some {
        json_member_as_str(content, "filename"@)
    } else {
        first_path_word(words(content))
    }
}

/// The piece that line `i` of `ls` contributes before the final trim: the line
/// without trailing whitespace and a newline, or one newline for the first of
/// a run of blank lines.
pub open spec fn compress_piece(ls: Seq<Seq<char>>, i: int) -> Seq<char> {
    let t = trim_end(ls[i]);
    if t.len() == 0 {
        if i == 0 || trim_end(ls[i - 1]).len() > 0 {
            seq!['\n']
        } else {
            seq![]
        }
    } else {
        t.push('\n')
    }
}

pub open spec fn compress_join(ls: Seq<Seq<char>>, n: nat) -> Seq<char>
    decreases n,
{
    if n == 0 {
        seq![]
    } else {
        compress_join(ls, (n - 1) as nat) + compress_piece(ls, n - 1)
    }
}

/// `content` with trailing spaces removed from every line, runs of blank lines
/// collapsed to one, and the whole trimmed.
pub open spec fn compressed(content: Seq<char>) -> Seq<char> {
    trim(compress_join(lines(content), lines(content).len()))
}

/// Number of characters of `s` whose encoding takes exactly `b` bytes.
pub open spec fn chars_in_bytes(s: Seq<char>, b: int) -> int {
    choose|k: int| 0 <= k <= s.len() && byte_len(s.take(k)) == b
}

/// Index of the last `c` in `s`.
pub open spec fn last_index_of(s: Seq<char>, c: char) -> int {
    choose|i: int| 0 <= i < s.len() && s[i] == c && forall|j: int| i < j < s.len() ==> s[j] != c
}

/// `text` cut to about `max_tokens` tokens (4 bytes each): when longer, the
/// first `4 * max_tokens` bytes, cut back to the last newline among them.
pub open spec fn truncated(text: Seq<char>, max_tokens: nat) -> Seq<char> {
    if byte_len(text) <= max_tokens * 4 {
        text
    } else {
        let slice = text.take(chars_in_bytes(text, (max_tokens * 4) as int));
        if has_char(slice, '\n') {
            slice.take(last_index_of(slice, '\n'))
        } else {
            slice
        }
    }
}

/// A long tool result as it appears in the digest.
pub open spec fn truncation_notice(content: Seq<char>, max_tokens: nat) -> Seq<char> {
    truncated(content, max_tokens) + "\n[... truncated from ~"@ + decimal(byte_len(content) / 4)
        + " tokens]"@
}

/// A run of edits to one file, as it appears in the digest.
pub open spec fn collapse_notice(n: nat, target: Seq<char>, content: Seq<char>) -> Seq<char> {
    "["@ + decimal(n) + " edits to "@ + target + " — showing latest]\n"@ + content
}

pub open spec fn with_content(m: MessageView, content: Seq<char>) -> MessageView {
    MessageView { content, ..m }
}

/// What the filter has produced, and the edit run it is tracking.
pub struct FilterState {
    pub out: Seq<MessageView>,
    pub last_edit: Option<Seq<char>>,
    pub edit_count: nat,
}

/// Append `m` (compressed) unless, compressed, it repeats the previous
/// assistant message.
pub open spec fn push_unless_repeat(
    out: Seq<MessageView>,
    m: MessageView,
    last_edit: Option<Seq<char>>,
    edit_count: nat,
) -> FilterState {
    if m.role == "assistant"@ && out.len() > 0 && out.last().role == "assistant"@
        && out.last().content == compressed(m.content) {
        FilterState { out, last_edit, edit_count }
    } else {
        FilterState { out: out.push(with_content(m, compressed(m.content))), last_edit, edit_count }
    }
}

/// One message through the filter.
pub open spec fn filter_step(st: FilterState, m: MessageView, max: nat, collapse: bool) -> FilterState {
    if is_blank(m.content) || m.role == "thinking"@ {
        st
    } else if m.role == "tool_result"@ && byte_len(m.content) / 4 > max {
        FilterState {
            out: st.out.push(with_content(m, truncation_notice(m.content, max))),
            ..st
        }
    } else {
        let edit_msg = collapse && m.role == "tool_use"@ && is_edit_tool_name(m.tool_name);
        let target = edit_target(m.content);
        if edit_msg && target is Some && st.last_edit == target {
            let count = st.edit_count + 1;
            if st.out.len() > 0 && is_edit_tool_name(st.out.last().tool_name) {
                FilterState {
                    out: st.out.update(
                        st.out.len() - 1,
                        with_content(
                            st.out.last(),
                            collapse_notice(count + 1, target->0, m.content),
                        ),
                    ),
                    last_edit: st.last_edit,
                    edit_count: count,
                }
            } else {
                push_unless_repeat(st.out, m, st.last_edit, count)
            }
        } else if edit_msg && target is Some {
            push_unless_repeat(st.out, m, target, 0)
        } else if edit_msg || m.role == "tool_result"@ {
            push_unless_repeat(st.out, m, st.last_edit, st.edit_count)
        } else {
            push_unless_repeat(st.out, m, None, 0)
        }
    }
}

/// The filter's state after reading `ms`.
pub open spec fn filter_fold(ms: Seq<MessageView>, max: nat, collapse: bool) -> FilterState
    decreases ms.len(),
{
    if ms.len() == 0 {
        FilterState { out: seq![], last_edit: None, edit_count: 0 }
    } else {
        filter_step(filter_fold(ms.drop_last(), max, collapse), ms.last(), max, collapse)
    }
}

/// The digest messages that the filter makes of `ms`.
pub open spec fn filtered(ms: Seq<MessageView>, max: nat, collapse: bool) -> Seq<MessageView> {
    filter_fold(ms, max, collapse).out
}

/// One message through the filter removes no message already written and
/// changes none of them, except that collapsing a run of edits may rewrite
/// the last one, and only when that one is an edit tool's.
pub proof fn lemma_filter_step_keeps(st: FilterState, m: MessageView, max: nat, collapse: bool)
    ensures
        filter_step(st, m, max, collapse).out.len() >= st.out.len(),
        forall|i: int|
            0 <= i < st.out.len() && !(i == st.out.len() - 1 && is_edit_tool_name(st.out[i].tool_name))
                ==> #[trigger] filter_step(st, m, max, collapse).out[i] == st.out[i],
{
}

/// Every tool result of the input that is not blank, is within the size
/// limit and does not name an edit tool is in the digest, its text
/// compressed: nothing later overwrites it.
pub proof fn lemma_short_tool_results_kept(ms: Seq<MessageView>, max: nat, collapse: bool, i: int)
    requires
        0 <= i < ms.len(),
        ms[i].role == "tool_result"@,
        !is_blank(ms[i].content),
        byte_len(ms[i].content) / 4 <= max,
        !is_edit_tool_name(ms[i].tool_name),
    ensures
        exists|j: int|
            0 <= j < filtered(ms, max, collapse).len() && #[trigger] filtered(ms, max, collapse)[j]
                == with_content(ms[i], compressed(ms[i].content)),
{
    reveal_strlit("tool_result");
    reveal_strlit("thinking");
    reveal_strlit("tool_use");
    reveal_strlit("assistant");
    assert("tool_result"@.len() != "thinking"@.len());
    assert("tool_result"@.len() != "tool_use"@.len());
    assert("tool_result"@.len() != "assistant"@.len());
    let target = with_content(ms[i], compressed(ms[i].content));
    let p = filter_fold(ms.take(i), max, collapse).out.len();
    assert(ms.take(i + 1).drop_last() =~= ms.take(i));
    assert(ms.take(i + 1).last() == ms[i]);
    assert(filter_fold(ms.take(i + 1), max, collapse).out[p as int] == target);
    lemma_kept_after(ms, max, collapse, i + 1, p as int, target);
    assert(filtered(ms, max, collapse)[p as int] == target);
}

proof fn lemma_kept_after(ms: Seq<MessageView>, max: nat, collapse: bool, n: int, p: int, target: MessageView)
    requires
        0 < n <= ms.len(),
        0 <= p < filter_fold(ms.take(n), max, collapse).out.len(),
        filter_fold(ms.take(n), max, collapse).out[p] == target,
        !is_edit_tool_name(target.tool_name),
    ensures
        p < filter_fold(ms, max, collapse).out.len(),
        filter_fold(ms, max, collapse).out[p] == target,
    decreases ms.len() - n,
{
    if n == ms.len() {
        assert(ms.take(n) =~= ms);
    } else {
        let st = filter_fold(ms.take(n), max, collapse);
        assert(ms.take(n + 1).drop_last() =~= ms.take(n));
        assert(ms.take(n + 1).last() == ms[n]);
        lemma_filter_step_keeps(st, ms[n], max, collapse);
        assert(filter_step(st, ms[n], max, collapse).out[p] == st.out[p]);
        lemma_kept_after(ms, max, collapse, n + 1, p, target);
    }
}

/// Every tool result that the filter cuts can be cut at `4 * max` bytes
/// without splitting a character (else slicing the text would panic).
pub open spec fn cuts_on_boundaries(ms: Seq<MessageView>, max: nat) -> bool {
    forall|i: int|
        0 <= i < ms.len() && (#[trigger] ms[i]).role == "tool_result"@ && !is_blank(ms[i].content)
            && byte_len(ms[i].content) / 4 > max ==> is_boundary(ms[i].content, (max * 4) as int)
}

// ───────────────────────── Implementation ─────────────────────────

/// Whether a tool name is an edit or write tool.
pub fn is_edit_tool(name: &str) -> (r: bool)
    ensures
        r == is_edit_tool_name(name@),
{
    let lower = to_lowercase(name);
    let l = chars_of(lower.as_str());
    let ls = l.as_slice();
    contains_chars(ls, chars_of("edit").as_slice()) || contains_chars(
        ls,
        chars_of("write").as_slice(),
    ) || contains_chars(ls, chars_of("replace").as_slice()) || contains_chars(
        ls,
        chars_of("patch").as_slice(),
    )
}

fn edit_junk_exec(c: char) -> (r: bool)
    ensures
        r == edit_junk(c),
{
    !is_alphanumeric(c) && c != '/' && c != '.' && c != '_' && c != '-'
}

fn looks_like_path_exec(w: &[char]) -> (r: bool)
    ensures
        r == looks_like_path(w@),
{
    has_char_exec(w, '/') && has_char_exec(w, '.') && !starts_with_chars(
        w,
        chars_of("http").as_slice(),
    )
}

/// The first path-like word of `content`.
fn first_path_word_of(content: &str) -> (r: Option<String>)
    ensures
        opt_view(r) == first_path_word(words(content@)),
{
    let v = chars_of(content);
    let ws = words_of(v.as_slice());
    let mut i: usize = 0;
    proof {
        assert(views(ws@).skip(0) =~= views(ws@));
    }
    while i < ws.len()
        invariant
            i <= ws@.len(),
            views(ws@) == words(content@),
            first_path_word(views(ws@)) == first_path_word(views(ws@).skip(i as int)),
        decreases ws@.len() - i,
    {
        let ghost rest = views(ws@).skip(i as int);
        let c = strip_chars_by(
            ws[i].as_slice(),
            edit_junk_exec,
            Ghost(edit_junk_pred()),
        );
        proof {
            assert(rest[0] == ws@[i as int]@);
        }
        if looks_like_path_exec(c.as_slice()) {
            return Some(string_of(c.as_slice()));
        }
        proof {
            assert(rest.drop_first() =~= views(ws@).skip(i as int + 1));
        }
        i = i + 1;
    }
    proof {
        assert(views(ws@).skip(i as int).len() == 0);
    }
    None
}

/// The file an edit tool's input targets.
pub fn extract_edit_target(content: &str) -> (r: Option<String>)
    ensures
        opt_view(r) == edit_target(content@),
{
    let a = json_member_str(content, "file_path");
    if a.is_some() {
        return a;
    }
    let b = json_member_str(content, "path");
    if b.is_some() {
        return b;
    }
    let c = json_member_str(content, "file");
    if c.is_some() {
        return c;
    }
    let d = json_member_str(content, "filename");
    if d.is_some() {
        return d;
    }
    first_path_word_of(content)
}

/// Collapse runs of blank lines to one, strip trailing spaces, trim.
pub fn compress_content(content: &str) -> (r: String)
    ensures
        r@ == compressed(content@),
{
    let v = chars_of(content);
    let ls = lines_of(v.as_slice());
    let ghost lv = views(ls@);
    let mut result: Vec<char> = Vec::new();
    let mut blank_count: usize = 0;
    let mut i: usize = 0;
    while i < ls.len()
        invariant
            i <= ls@.len(),
            lv == views(ls@),
            lv == lines(content@),
            result@ == compress_join(lv, i as nat),
            blank_count <= i,
            i > 0 ==> (blank_count == 0 <==> trim_end(lv[i - 1]).len() > 0),
        decreases ls@.len() - i,
    {
        let trimmed = trim_end_chars(ls[i].as_slice());
        proof {
            assert(lv[i as int] == ls@[i as int]@);
        }
        if trimmed.len() == 0 {
            blank_count = blank_count + 1;
            if blank_count <= 1 {
                result.push('\n');
            }
        } else {
            blank_count = 0;
            extend_chars(&mut result, trimmed.as_slice());
            result.push('\n');
        }
        proof {
            assert(result@ =~= compress_join(lv, (i + 1) as nat));
        }
        i = i + 1;
    }
    let t = trim_chars(result.as_slice());
    string_of(t.as_slice())
}

/// Cut `text` to about `max_tokens` tokens, at a line break where possible.
pub fn truncate_to_tokens(text: &str, max_tokens: usize) -> (r: String)
    requires
        max_tokens * 4 <= usize::MAX,
        byte_len(text@) <= max_tokens * 4 || is_boundary(text@, max_tokens * 4),
    ensures
        r@ == truncated(text@, max_tokens as nat),
{
    let max_chars = max_tokens * 4;
    let n = str_len(text);
    if n <= max_chars {
        return text.to_string();
    }
    let v = chars_of(text);
    let k = char_index_of_byte(&v, max_chars);
    match k {
        Some(k) => {
            proof {
                assert forall|j: int|
                    0 <= j <= v@.len() && byte_len(v@.take(j)) == max_chars implies j
                    == k by {
                    if j < k {
                        crate::text::lemma_byte_len_prefix_strict(v@, j, k as int);
                    } else if j > k {
                        crate::text::lemma_byte_len_prefix_strict(v@, k as int, j);
                    }
                }
                assert(chars_in_bytes(text@, max_chars as int) == k);
            }
            let slice = slice_chars(v.as_slice(), 0, k);
            proof {
                assert(slice@ =~= text@.take(k as int));
            }
            match rfind_char(slice.as_slice(), '\n') {
                Some(p) => {
                    proof {
                        assert(has_char(slice@, '\n'));
                        assert(last_index_of(slice@, '\n') == p);
                    }
                    let cut = slice_chars(slice.as_slice(), 0, p);
                    proof {
                        assert(cut@ =~= slice@.take(p as int));
                    }
                    string_of(cut.as_slice())
                },
                None => string_of(slice.as_slice()),
            }
        },
        None => {
            proof {
                assert(false);
            }
            String::new()
        },
    }
}

/// Whether two optional strings are equal.
pub fn opt_str_eq(a: &Option<String>, b: &Option<String>) -> (r: bool)
    ensures
        r == (opt_view(*a) == opt_view(*b)),
{
    match (a, b) {
        (Some(x), Some(y)) => str_eq(x.as_str(), y.as_str()),
        (None, None) => true,
        _ => false,
    }
}

/// `m` with its content replaced.
fn message_with_content(m: &DigestMessage, content: String) -> (r: DigestMessage)
    ensures
        r@ == with_content(m@, content@),
{
    DigestMessage {
        role: m.role.clone(),
        content,
        tool_name: m.tool_name.clone(),
        files_mentioned: clone_strings(&m.files_mentioned),
    }
}

/// Append `m` compressed, unless, compressed, it repeats the previous
/// assistant message.
fn push_unless_repeat_exec(out: &mut Vec<DigestMessage>, m: &DigestMessage)
    ensures
        message_views(final(out)@) == push_unless_repeat(message_views(old(out)@), m@, None, 0).out,
{
    let ghost before = message_views(out@);
    let c = compress_content(m.content.as_str());
    if str_eq(m.role.as_str(), "assistant") && out.len() > 0 {
        let last = &out[out.len() - 1];
        proof {
            assert(before.last() == last@);
        }
        if str_eq(last.role.as_str(), "assistant") && str_eq(last.content.as_str(), c.as_str()) {
            return;
        }
    }
    let nm = message_with_content(m, c);
    out.push(nm);
    proof {
        assert(message_views(out@) =~= before.push(with_content(m@, compressed(m@.content))));
    }
}

/// Whether every tool result that [`filter_messages`] cuts can be cut at
/// `4 * max_tokens` bytes without splitting a character: the test a caller
/// makes before filtering.
pub fn cuts_fit_check(messages: &Vec<DigestMessage>, max_tokens: usize) -> (r: bool)
    ensures
        r == cuts_on_boundaries(message_views(messages@), max_tokens as nat),
{
    let ghost ms = message_views(messages@);
    let mut i: usize = 0;
    while i < messages.len()
        invariant
            i <= messages@.len(),
            ms == message_views(messages@),
            forall|j: int|
                0 <= j < i && (#[trigger] ms[j]).role == "tool_result"@ && !is_blank(ms[j].content)
                    && byte_len(ms[j].content) / 4 > max_tokens ==> is_boundary(
                    ms[j].content,
                    (max_tokens * 4) as int,
                ),
        decreases messages@.len() - i,
    {
        let m = &messages[i];
        proof {
            assert(ms[i as int] == m@);
        }
        if str_eq(m.role.as_str(), "tool_result") {
            let v = chars_of(m.content.as_str());
            if !is_blank_chars(v.as_slice()) {
                let n = str_len(m.content.as_str());
                if n / 4 > max_tokens {
                    match char_index_of_byte(&v, max_tokens * 4) {
                        Some(k) => {
                            proof {
                                assert(byte_len(v@.take(k as int)) == max_tokens * 4);
                            }
                        },
                        None => {
                            return false;
                        },
                    }
                }
            }
        }
        i = i + 1;
    }
    true
}

/// Filter and compress parsed messages into a lean digest: drop blank and
/// thinking messages, cut long tool results, collapse runs of edits to one
/// file, drop repeated assistant messages, and compress whitespace.
pub fn filter_messages(messages: Vec<DigestMessage>, config: &IngesterConfig) -> (r: Vec<
    DigestMessage,
>)
    requires
        cuts_on_boundaries(message_views(messages@), config.max_tool_result_tokens as nat),
    ensures
        message_views(r@) == filtered(
            message_views(messages@),
            config.max_tool_result_tokens as nat,
            config.collapse_repeated_edits,
        ),
{
    let ghost ms = message_views(messages@);
    let ghost max = config.max_tool_result_tokens as nat;
    let ghost collapse = config.collapse_repeated_edits;
    let mut out: Vec<DigestMessage> = Vec::new();
    let mut last_edit_file: Option<String> = None;
    let mut edit_count: usize = 0;
    let mut i: usize = 0;
    proof {
        assert(message_views(out@) =~= filter_fold(ms.take(0), max, collapse).out);
    }
    while i < messages.len()
        invariant
            i <= messages@.len(),
            ms == message_views(messages@),
            max == config.max_tool_result_tokens as nat,
            collapse == config.collapse_repeated_edits,
            cuts_on_boundaries(ms, max),
            message_views(out@) == filter_fold(ms.take(i as int), max, collapse).out,
            opt_view(last_edit_file) == filter_fold(ms.take(i as int), max, collapse).last_edit,
            edit_count == filter_fold(ms.take(i as int), max, collapse).edit_count,
            edit_count <= i,
            last_edit_file is Some ==> edit_count < i,
        decreases messages@.len() - i,
    {
        let ghost st = filter_fold(ms.take(i as int), max, collapse);
        let ghost before = message_views(out@);
        proof {
            assert(ms.take(i as int + 1).drop_last() =~= ms.take(i as int));
            assert(ms.take(i as int + 1).last() == messages@[i as int]@);
        }
        let msg = &messages[i];
        let ghost m = msg@;
        if is_blank_chars(chars_of(msg.content.as_str()).as_slice()) || str_eq(
            msg.role.as_str(),
            "thinking",
        ) {
            i = i + 1;
            continue;
        }
        if str_eq(msg.role.as_str(), "tool_result") {
            let token_est = str_len(msg.content.as_str()) / 4;
            if token_est > config.max_tool_result_tokens {
                proof {
                    assert(ms[i as int] == m);
                    assert(is_boundary(m.content, (max * 4) as int));
                }
                let cut = truncate_to_tokens(msg.content.as_str(), config.max_tool_result_tokens);
                let mut notice = chars_of(cut.as_str());
                extend_str(&mut notice, "\n[... truncated from ~");
                let digits = decimal_chars(token_est as u64);
                extend_chars(&mut notice, digits.as_slice());
                extend_str(&mut notice, " tokens]");
                let nm = message_with_content(msg, string_of(notice.as_slice()));
                out.push(nm);
                proof {
                    assert(nm@.content =~= truncation_notice(m.content, max));
                    assert(message_views(out@) =~= before.push(
                        with_content(m, truncation_notice(m.content, max)),
                    ));
                }
                i = i + 1;
                continue;
            }
        }
        let edit_msg = config.collapse_repeated_edits && str_eq(msg.role.as_str(), "tool_use")
            && is_edit_tool(msg.tool_name.as_str());
        let target: Option<String> = if edit_msg {
            extract_edit_target(msg.content.as_str())
        } else {
            None
        };
        if edit_msg && target.is_some() && opt_str_eq(&last_edit_file, &target) {
            edit_count = edit_count + 1;
            let mut collapsed = false;
            if out.len() > 0 {
                proof {
                    assert(before.last() == out@[out@.len() - 1]@);
                }
                if is_edit_tool(out[out.len() - 1].tool_name.as_str()) {
                    let t = target.unwrap();
                    let mut notice: Vec<char> = Vec::new();
                    extend_str(&mut notice, "[");
                    let digits = decimal_chars((edit_count + 1) as u64);
                    extend_chars(&mut notice, digits.as_slice());
                    extend_str(&mut notice, " edits to ");
                    extend_str(&mut notice, t.as_str());
                    extend_str(&mut notice, " — showing latest]\n");
                    extend_str(&mut notice, msg.content.as_str());
                    let last = out.pop().unwrap();
                    let nm = message_with_content(&last, string_of(notice.as_slice()));
                    out.push(nm);
                    proof {
                        assert(nm@.content =~= collapse_notice(
                            (st.edit_count + 2) as nat,
                            t@,
                            m.content,
                        ));
                        assert(message_views(out@) =~= before.update(
                            before.len() - 1,
                            with_content(
                                before.last(),
                                collapse_notice((st.edit_count + 2) as nat, t@, m.content),
                            ),
                        ));
                    }
                    collapsed = true;
                }
            }
            if !collapsed {
                push_unless_repeat_exec(&mut out, msg);
            }
        } else if edit_msg && target.is_some() {
            last_edit_file = target;
            edit_count = 0;
            push_unless_repeat_exec(&mut out, msg);
        } else if edit_msg || str_eq(msg.role.as_str(), "tool_result") {
            push_unless_repeat_exec(&mut out, msg);
        } else {
            last_edit_file = None;
            edit_count = 0;
            push_unless_repeat_exec(&mut out, msg);
        }
        i = i + 1;
    }
    proof {
        assert(ms.take(messages@.len() as int) =~= ms);
    }
    out
}

/// The filter never lets a thinking message through and never adds a
/// message: the digest has at most as many messages as the log.
pub proof fn lemma_filter_drops_thinking(ms: Seq<MessageView>, max: nat, collapse: bool)
    ensures
        filtered(ms, max, collapse).len() <= ms.len(),
        forall|i: int|
            0 <= i < filtered(ms, max, collapse).len() ==> (#[trigger] filtered(ms, max, collapse)[i]).role
                != "thinking"@,
    decreases ms.len(),
{
    if ms.len() > 0 {
        lemma_filter_drops_thinking(ms.drop_last(), max, collapse);
        let st = filter_fold(ms.drop_last(), max, collapse);
        let m = ms.last();
        let out = filtered(ms, max, collapse);
        assert(out == filter_step(st, m, max, collapse).out);
        assert forall|i: int| 0 <= i < out.len() implies (#[trigger] out[i]).role != "thinking"@ by {
            if i < st.out.len() && out[i] == st.out[i] {
            } else if i < st.out.len() {
                assert(out[i].role == st.out[i].role);
            }
        }
    }
}

} // verus!
