//! Log format parsers: plain-text transcripts and JSON log entries.

use vstd::prelude::*;
use crate::ingester::{DigestMessage, MessageView, message_views, string_views};
use crate::ingester::filter::looks_like_path;
use crate::order::{strictly_sorted, sorted_elements, insert_sorted_unique, lemma_sorted_elements};
use crate::text::{
    byte_len, trim, strip_by, chars_of, string_of, extend_chars, extend_str, slice_chars,
    trim_chars, strip_chars_by, byte_len_capped, first_index_of, find_char,
};
use crate::json::{Json, JsonValue, member, get, as_str, get_str, as_array, is_null, json_get, json_get_str};
use crate::text::is_blank;
use crate::textops::{
    words, lines, starts_with, ends_with, has_char, lowercase, views, words_of, lines_of,
    starts_with_chars, ends_with_chars, has_char_exec, to_lowercase,
};

verus! {

// ───────────────────────── File paths ─────────────────────────

/// Quoting and punctuation trimmed from a word before it is taken as a path.
pub open spec fn quote_junk(c: char) -> bool {
    c == '`' || c == '"' || c == '\'' || c == ',' || c == ')' || c == '('
}

pub open spec fn quote_junk_pred() -> spec_fn(char) -> bool {
    |c: char| quote_junk(c)
}

/// A name with one of the source-file extensions the digest tracks.
pub open spec fn has_code_ext(w: Seq<char>) -> bool {
    ||| ends_with(w, ".rs"@)
    ||| ends_with(w, ".ts"@)
    ||| ends_with(w, ".tsx"@)
    ||| ends_with(w, ".js"@)
    ||| ends_with(w, ".py"@)
    ||| ends_with(w, ".toml"@)
    ||| ends_with(w, ".json"@)
    ||| ends_with(w, ".sql"@)
    ||| ends_with(w, ".md"@)
}

/// A word taken, once trimmed, as a file path.
pub open spec fn is_path_word(w: Seq<char>) -> bool {
    let c = strip_by(w, quote_junk_pred());
    (looks_like_path(c) || has_code_ext(c)) && 3 < byte_len(c) < 200
}

/// The file paths that `text` mentions.
pub open spec fn path_set(text: Seq<char>) -> Set<Seq<char>> {
    let ws = words(text);
    Set::new(
        |p: Seq<char>|
            exists|i: int|
                0 <= i < ws.len() && is_path_word(#[trigger] ws[i]) && strip_by(
                    ws[i],
                    quote_junk_pred(),
                ) == p,
    )
}

/// The file paths that `text` mentions, sorted, each once.
pub open spec fn file_paths(text: Seq<char>) -> Seq<Seq<char>> {
    sorted_elements(path_set(text))
}

fn quote_junk_exec(c: char) -> (r: bool)
    ensures
        r == quote_junk(c),
{
    c == '`' || c == '"' || c == '\'' || c == ',' || c == ')' || c == '('
}

fn ends_with_str(v: &[char], suffix: &str) -> (r: bool)
    ensures
        r == ends_with(v@, suffix@),
{
    let s = chars_of(suffix);
    ends_with_chars(v, s.as_slice())
}

fn has_code_ext_exec(w: &[char]) -> (r: bool)
    ensures
        r == has_code_ext(w@),
{
    ends_with_str(w, ".rs") || ends_with_str(w, ".ts") || ends_with_str(w, ".tsx")
        || ends_with_str(w, ".js") || ends_with_str(w, ".py") || ends_with_str(w, ".toml")
        || ends_with_str(w, ".json") || ends_with_str(w, ".sql") || ends_with_str(w, ".md")
}

/// Extract file paths from text content: words that look like paths or
/// source files, trimmed of quotes, sorted and without duplicates.
pub fn extract_file_paths(text: &str) -> (r: Vec<String>)
    ensures
        string_views(r@) == file_paths(text@),
        strictly_sorted(string_views(r@)),
{
    let v = chars_of(text);
    let ws = words_of(v.as_slice());
    let ghost wv = views(ws@);
    let mut acc: Vec<Vec<char>> = Vec::new();
    let mut i: usize = 0;
    proof {
        assert(views(acc@).to_set() =~= Set::empty());
    }
    while i < ws.len()
        invariant
            i <= ws@.len(),
            wv == views(ws@),
            wv == words(text@),
            strictly_sorted(views(acc@)),
            views(acc@).to_set() == Set::new(
                |p: Seq<char>|
                    exists|k: int|
                        0 <= k < i && is_path_word(#[trigger] wv[k]) && strip_by(
                            wv[k],
                            quote_junk_pred(),
                        ) == p,
            ),
        decreases ws@.len() - i,
    {
        let ghost before = views(acc@).to_set();
        let clean = strip_chars_by(ws[i].as_slice(), quote_junk_exec, Ghost(quote_junk_pred()));
        proof {
            assert(wv[i as int] == ws@[i as int]@);
        }
        let cs = clean.as_slice();
        let looks = has_char_exec(cs, '/') && has_char_exec(cs, '.') && !starts_with_chars(
            cs,
            chars_of("http").as_slice(),
        );
        let n = byte_len_capped(cs, 200);
        let is_path = (looks || has_code_ext_exec(cs)) && n > 3 && n < 200;
        if is_path {
            insert_sorted_unique(&mut acc, clean);
        }
        proof {
            let next = Set::new(
                |p: Seq<char>|
                    exists|k: int|
                        0 <= k < i + 1 && is_path_word(#[trigger] wv[k]) && strip_by(
                            wv[k],
                            quote_junk_pred(),
                        ) == p,
            );
            assert forall|p: Seq<char>| #[trigger] views(acc@).to_set().contains(p) <==> next.contains(p) by {
                if next.contains(p) {
                    let k = choose|k: int|
                        0 <= k < i + 1 && is_path_word(#[trigger] wv[k]) && strip_by(
                            wv[k],
                            quote_junk_pred(),
                        ) == p;
                    if k < i {
                        assert(before.contains(p));
                    }
                }
                if before.contains(p) {
                    let k = choose|k: int|
                        0 <= k < i && is_path_word(#[trigger] wv[k]) && strip_by(
                            wv[k],
                            quote_junk_pred(),
                        ) == p;
                    assert(next.contains(p));
                }
            }
            assert(views(acc@).to_set() =~= next);
        }
        i = i + 1;
    }
    let mut r: Vec<String> = Vec::new();
    let mut j: usize = 0;
    while j < acc.len()
        invariant
            j <= acc@.len(),
            r@.len() == j,
            forall|k: int| 0 <= k < j ==> #[trigger] r@[k]@ == acc@[k]@,
        decreases acc@.len() - j,
    {
        r.push(string_of(acc[j].as_slice()));
        j = j + 1;
    }
    proof {
        assert(string_views(r@) =~= views(acc@));
        assert(path_set(text@) =~= views(acc@).to_set());
        lemma_sorted_elements(views(acc@));
    }
    r
}

} // verus!

verus! {

// ───────────────────────── Plain-text transcripts ─────────────────────────

/// The role that a line of a plain transcript opens, if it starts with a
/// role marker ("Human:", "[user]", "Assistant:", "[assistant]", "Tool:", "[tool").
pub open spec fn role_marker(line: Seq<char>) -> Option<Seq<char>> {
    let t = lowercase(trim(line));
    if starts_with(t, "human:"@) || starts_with(t, "[user]"@) {
        Some("user"@)
    } else if starts_with(t, "assistant:"@) || starts_with(t, "[assistant]"@) {
        Some("assistant"@)
    } else if starts_with(t, "tool:"@) || starts_with(t, "[tool"@) {
        Some("tool_result"@)
    } else {
        None
    }
}

/// Where a marker line's role prefix ends, in the trimmed line: at the
/// first `]` of a bracketed marker ("[user] ..."), else at the first colon
/// ("Human: ...").
pub open spec fn marker_end(t: Seq<char>) -> Option<int> {
    if t.len() > 0 && t[0] == '[' && has_char(t, ']') {
        Some(first_index_of(t, ']'))
    } else if has_char(t, ':') {
        Some(first_index_of(t, ':'))
    } else {
        None
    }
}

/// What a marker line contributes to its message: the rest of the line
/// after its role prefix, trimmed, as one line.
pub open spec fn after_marker(line: Seq<char>) -> Seq<char> {
    let t = trim(line);
    match marker_end(t) {
        Some(k) => trim(t.skip(k + 1)).push('\n'),
        None => seq![],
    }
}

/// A message of a plain transcript, from its role and collected lines.
pub open spec fn plain_message(role: Seq<char>, content: Seq<char>) -> MessageView {
    MessageView {
        role,
        content: trim(content),
        tool_name: seq![],
        files_mentioned: file_paths(content),
    }
}

/// Messages finished so far, and the role and lines of the message being read.
pub struct PlainState {
    pub msgs: Seq<MessageView>,
    pub role: Seq<char>,
    pub content: Seq<char>,
}

pub open spec fn plain_step(st: PlainState, line: Seq<char>) -> PlainState {
    match role_marker(line) {
        Some(r) => PlainState {
            msgs: if st.content.len() > 0 {
                st.msgs.push(plain_message(st.role, st.content))
            } else {
                st.msgs
            },
            role: r,
            content: after_marker(line),
        },
        None => PlainState { content: st.content + line.push('\n'), ..st },
    }
}

pub open spec fn plain_fold(ls: Seq<Seq<char>>) -> PlainState
    decreases ls.len(),
{
    if ls.len() == 0 {
        PlainState { msgs: seq![], role: seq![], content: seq![] }
    } else {
        plain_step(plain_fold(ls.drop_last()), ls.last())
    }
}

/// The messages of a plain-text transcript, split at role markers.
pub open spec fn plain_messages(text: Seq<char>) -> Seq<MessageView> {
    let st = plain_fold(lines(text));
    if st.content.len() > 0 {
        st.msgs.push(plain_message(st.role, st.content))
    } else {
        st.msgs
    }
}

fn starts_with_str(v: &[char], prefix: &str) -> (r: bool)
    ensures
        r == starts_with(v@, prefix@),
{
    let p = chars_of(prefix);
    starts_with_chars(v, p.as_slice())
}

/// Detect role markers in plain text transcripts.
pub fn detect_role_marker(line: &str) -> (r: Option<String>)
    ensures
        crate::text::opt_view(r) == role_marker(line@),
{
    let v = chars_of(line);
    let t = trim_chars(v.as_slice());
    let lower = to_lowercase(string_of(t.as_slice()).as_str());
    let l = chars_of(lower.as_str());
    let ls = l.as_slice();
    if starts_with_str(ls, "human:") || starts_with_str(ls, "[user]") {
        Some("user".to_string())
    } else if starts_with_str(ls, "assistant:") || starts_with_str(ls, "[assistant]") {
        Some("assistant".to_string())
    } else if starts_with_str(ls, "tool:") || starts_with_str(ls, "[tool") {
        Some("tool_result".to_string())
    } else {
        None
    }
}

fn plain_message_exec(role: &[char], content: &[char]) -> (r: DigestMessage)
    ensures
        r@ == plain_message(role@, content@),
{
    let text = string_of(content);
    let files = extract_file_paths(text.as_str());
    let t = trim_chars(content);
    DigestMessage {
        role: string_of(role),
        content: string_of(t.as_slice()),
        tool_name: String::new(),
        files_mentioned: files,
    }
}

/// Where the role prefix of a trimmed marker line ends (see [`marker_end`]).
fn marker_end_exec(t: &Vec<char>) -> (r: Option<usize>)
    ensures
        r is Some <==> marker_end(t@) is Some,
        r matches Some(p) ==> p < t@.len() && marker_end(t@) == Some(p as int),
{
    if t.len() > 0 && t[0] == '[' {
        if let Some(p) = find_char(t.as_slice(), ']') {
            proof {
                assert(has_char(t@, ']'));
            }
            return Some(p);
        }
    }
    match find_char(t.as_slice(), ':') {
        Some(p) => {
            proof {
                assert(has_char(t@, ':'));
            }
            Some(p)
        },
        None => None,
    }
}

/// Parse plain text transcripts: split into messages at role markers.
pub fn parse_plain_text(content: &str) -> (r: Vec<DigestMessage>)
    ensures
        message_views(r@) == plain_messages(content@),
{
    let v = chars_of(content);
    let ls = lines_of(v.as_slice());
    let ghost lv = views(ls@);
    let mut messages: Vec<DigestMessage> = Vec::new();
    let mut current_role: Vec<char> = Vec::new();
    let mut current_content: Vec<char> = Vec::new();
    let mut i: usize = 0;
    proof {
        assert(message_views(messages@) =~= plain_fold(lv.take(0)).msgs);
        assert(lv.take(0) =~= Seq::<Seq<char>>::empty());
    }
    while i < ls.len()
        invariant
            i <= ls@.len(),
            lv == views(ls@),
            lv == lines(content@),
            message_views(messages@) == plain_fold(lv.take(i as int)).msgs,
            current_role@ == plain_fold(lv.take(i as int)).role,
            current_content@ == plain_fold(lv.take(i as int)).content,
        decreases ls@.len() - i,
    {
        proof {
            assert(lv.take(i as int + 1).drop_last() =~= lv.take(i as int));
            assert(lv.take(i as int + 1).last() == ls@[i as int]@);
        }
        let line = string_of(ls[i].as_slice());
        let ghost before = message_views(messages@);
        match detect_role_marker(line.as_str()) {
            Some(role) => {
                if current_content.len() > 0 {
                    let m = plain_message_exec(current_role.as_slice(), current_content.as_slice());
                    messages.push(m);
                    proof {
                        assert(message_views(messages@) =~= before.push(m@));
                    }
                }
                current_role = chars_of(role.as_str());
                current_content = Vec::new();
                let t = trim_chars(ls[i].as_slice());
                let end = marker_end_exec(&t);
                match end {
                    Some(p) => {
                        let n = t.len();
                        let after = slice_chars(t.as_slice(), p + 1, n);
                        let rest = trim_chars(after.as_slice());
                        extend_chars(&mut current_content, rest.as_slice());
                        current_content.push('\n');
                        proof {
                            assert(after@ =~= t@.skip(p + 1));
                            assert(current_content@ =~= after_marker(ls@[i as int]@));
                        }
                    },
                    None => {
                        proof {
                            assert(current_content@ =~= after_marker(ls@[i as int]@));
                        }
                    },
                }
            },
            None => {
                extend_chars(&mut current_content, ls[i].as_slice());
                current_content.push('\n');
                proof {
                    assert(current_content@ =~= plain_fold(lv.take(i as int)).content + (
                    lv[i as int]).push('\n'));
                }
            },
        }
        i = i + 1;
    }
    proof {
        assert(lv.take(ls@.len() as int) =~= lv);
    }
    if current_content.len() > 0 {
        let ghost before = message_views(messages@);
        let m = plain_message_exec(current_role.as_slice(), current_content.as_slice());
        messages.push(m);
        proof {
            assert(message_views(messages@) =~= before.push(m@));
        }
    }
    messages
}

} // verus!

verus! {

// ───────────────────────── JSON log entries ─────────────────────────

/// A log entry in the shape the JSONL logs use. Every field may be missing
/// from the log; a missing text is empty and a missing value is `None`.
pub struct RawLogEntry {
    /// "human", "assistant", "tool_use", "tool_result", "system"
    pub entry_type: String,
    /// Alternative to `entry_type`: "user", "assistant"
    pub role: String,
    /// A string or an array of content blocks; `None` when the entry has none.
    pub content: Option<Json>,
    /// A nested message, when some formats wrap one.
    pub message: Option<Json>,
    pub tool_name: String,
    /// Alternative tool name field.
    pub name: String,
    pub tool_input: Option<Json>,
    pub input: Option<Json>,
    pub timestamp: Option<String>,
}

/// The role of an entry, from its `type` (or, when empty, its `role`),
/// lowercased and with synonyms unified.
pub open spec fn normalized_role(type_field: Seq<char>, role_field: Seq<char>) -> Seq<char> {
    let l = lowercase(if type_field.len() > 0 { type_field } else { role_field });
    if l == "human"@ || l == "user"@ {
        "user"@
    } else if l == "assistant"@ || l == "ai"@ {
        "assistant"@
    } else if l == "tool_use"@ || l == "tooluse"@ {
        "tool_use"@
    } else if l == "tool_result"@ || l == "toolresult"@ {
        "tool_result"@
    } else {
        l
    }
}

/// Normalising a role twice gives what normalising once gives, and the type
/// field wins over the role field when it is not empty. The first part is
/// stated for roles that lowercasing leaves as they are: std's documentation
/// does not say that lowercasing a lowercased text changes nothing.
pub proof fn lemma_normalize_role_idempotent(type_field: Seq<char>, role_field: Seq<char>)
    requires
        lowercase(normalized_role(type_field, role_field)) == normalized_role(type_field, role_field),
    ensures
        normalized_role(normalized_role(type_field, role_field), seq![]) == normalized_role(
            type_field,
            role_field,
        ),
        normalized_role(type_field, role_field) == normalized_role(
            if type_field.len() > 0 {
                type_field
            } else {
                role_field
            },
            seq![],
        ),
{
    reveal_strlit("human");
    reveal_strlit("user");
    reveal_strlit("assistant");
    reveal_strlit("ai");
    reveal_strlit("tool_use");
    reveal_strlit("tooluse");
    reveal_strlit("tool_result");
    reveal_strlit("toolresult");
    let n = normalized_role(type_field, role_field);
    if n.len() == 0 {
        assert(n =~= seq![]);
    }
    assert(lowercase(if n.len() > 0 { n } else { seq![] }) == n);
    if type_field.len() == 0 && role_field.len() == 0 {
        assert(role_field =~= seq![]);
    }
}

/// The texts of the `text` blocks among `bs`, in order.
pub open spec fn block_texts(bs: Seq<Json>) -> Seq<Seq<char>>
    decreases bs.len(),
{
    if bs.len() == 0 {
        seq![]
    } else {
        let p = block_texts(bs.drop_last());
        let b = bs.last();
        if get_str(b, "type"@) == Some("text"@) && get_str(b, "text"@) is Some {
            p.push(get_str(b, "text"@)->0)
        } else {
            p
        }
    }
}

/// `ts` joined with newlines.
pub open spec fn join_nl(ts: Seq<Seq<char>>) -> Seq<char>
    decreases ts.len(),
{
    if ts.len() == 0 {
        seq![]
    } else if ts.len() == 1 {
        ts[0]
    } else {
        join_nl(ts.drop_last()) + seq!['\n'] + ts.last()
    }
}

/// The text of an entry: its string content, else its text blocks joined by
/// newlines, else the string content of its nested message, else nothing.
pub open spec fn text_content(content: Option<Json>, message: Option<Json>) -> Seq<char> {
    let direct = match content {
        Some(c) => as_str(c),
        None => None,
    };
    let texts = match content {
        Some(c) => match as_array(c) {
            Some(bs) => block_texts(bs),
            None => seq![],
        },
        None => seq![],
    };
    if direct is Some {
        direct->0
    } else if texts.len() > 0 {
        join_nl(texts)
    } else {
        match message {
            Some(m) => match get_str(m, "content"@) {
                Some(s) => s,
                None => seq![],
            },
            None => seq![],
        }
    }
}

/// The digest message of an entry with these fields, unless it is a system
/// or thinking entry or has no text.
pub open spec fn entry_message(
    type_field: Seq<char>,
    role_field: Seq<char>,
    content: Option<Json>,
    message: Option<Json>,
    tool_name: Seq<char>,
    name: Seq<char>,
) -> Option<MessageView> {
    let role = normalized_role(type_field, role_field);
    let text = text_content(content, message);
    if role == "system"@ || role == "thinking"@ || is_blank(text) {
        None
    } else {
        Some(
            MessageView {
                role,
                content: text,
                tool_name: if tool_name.len() > 0 {
                    tool_name
                } else {
                    name
                },
                files_mentioned: file_paths(text),
            },
        )
    }
}

/// The digest message of a log entry.
pub open spec fn raw_entry_message(e: RawLogEntry) -> Option<MessageView> {
    entry_message(e.entry_type@, e.role@, e.content, e.message, e.tool_name@, e.name@)
}

/// Field `i`, named `key`, of a JSON value read as a log entry: the member
/// `key` of an object, or element `i` of an array.
pub open spec fn slot(v: Json, i: int, key: Seq<char>) -> Option<Json> {
    match v.value {
        JsonValue::Object(fields) => member(fields@, key),
        JsonValue::Array(a) => if 0 <= i < a@.len() {
            Some(a@[i])
        } else {
            None
        },
        _ => None,
    }
}

pub open spec fn text_slot_ok(s: Option<Json>) -> bool {
    match s {
        Some(j) => as_str(j) is Some,
        None => true,
    }
}

pub open spec fn text_slot(s: Option<Json>) -> Seq<char> {
    match s {
        Some(j) => match as_str(j) {
            Some(x) => x,
            None => seq![],
        },
        None => seq![],
    }
}

pub open spec fn value_slot(s: Option<Json>) -> Option<Json> {
    match s {
        Some(j) => if is_null(j) {
            None
        } else {
            Some(j)
        },
        None => None,
    }
}

/// A JSON value reads as a log entry: an object, or an array of at most the
/// nine fields in order, whose text fields are strings and whose timestamp is
/// a string or null.
pub open spec fn decodes_as_entry(v: Json) -> bool {
    let shape_ok = match v.value {
        JsonValue::Object(_) => true,
        JsonValue::Array(a) => a@.len() <= 9,
        _ => false,
    };
    &&& shape_ok
    &&& text_slot_ok(slot(v, 0, "type"@))
    &&& text_slot_ok(slot(v, 1, "role"@))
    &&& text_slot_ok(slot(v, 4, "tool_name"@))
    &&& text_slot_ok(slot(v, 5, "name"@))
    &&& match slot(v, 8, "timestamp"@) {
        Some(j) => is_null(j) || as_str(j) is Some,
        None => true,
    }
}

/// The digest message of a JSON value read as a log entry.
pub open spec fn decoded_message(v: Json) -> Option<MessageView> {
    entry_message(
        text_slot(slot(v, 0, "type"@)),
        text_slot(slot(v, 1, "role"@)),
        slot(v, 2, "content"@),
        value_slot(slot(v, 3, "message"@)),
        text_slot(slot(v, 4, "tool_name"@)),
        text_slot(slot(v, 5, "name"@)),
    )
}

/// The text of a tool result block: its string `content`, `text` or `output`.
pub open spec fn value_text(v: Json) -> Seq<char> {
    if get_str(v, "content"@) is Some {
        get_str(v, "content"@)->0
    } else if get_str(v, "text"@) is Some {
        get_str(v, "text"@)->0
    } else if get_str(v, "output"@) is Some {
        get_str(v, "output"@)->0
    } else {
        seq![]
    }
}

pub open spec fn simple_message(role: Seq<char>, content: Seq<char>, tool_name: Seq<char>) -> MessageView {
    MessageView { role, content, tool_name, files_mentioned: file_paths(content) }
}

/// The digest message of one content block of a message with role `role`.
pub open spec fn block_message(role: Seq<char>, b: Json) -> Option<MessageView> {
    let t = match get_str(b, "type"@) {
        Some(t) => t,
        None => seq![],
    };
    if t == "text"@ {
        match get_str(b, "text"@) {
            Some(x) => Some(simple_message(role, x, seq![])),
            None => None,
        }
    } else if t == "tool_use"@ {
        let name = match get_str(b, "name"@) {
            Some(n) => n,
            None => "unknown"@,
        };
        let input = match get(b, "input"@) {
            Some(i) => i.pretty@,
            None => seq![],
        };
        Some(simple_message("tool_use"@, input, name))
    } else if t == "tool_result"@ {
        let x = value_text(b);
        if x.len() > 0 {
            Some(simple_message("tool_result"@, x, seq![]))
        } else {
            None
        }
    } else {
        None
    }
}

/// A tool-result block becomes a tool-result message, whatever the role of
/// the message it sits in: its message is the same under any role, is
/// labelled `tool_result` with no tool name, and carries the block's
/// `content` text when that text is not empty.
pub proof fn lemma_tool_result_block(role: Seq<char>, other_role: Seq<char>, b: Json)
    requires
        get_str(b, "type"@) == Some("tool_result"@),
    ensures
        block_message(role, b) == block_message(other_role, b),
        block_message(role, b) matches Some(m) ==> m.role == "tool_result"@ && m.tool_name.len() == 0,
        get_str(b, "content"@) is Some && get_str(b, "content"@)->0.len() > 0 ==> block_message(role, b)
            is Some && block_message(role, b)->0.content == get_str(b, "content"@)->0,
{
    reveal_strlit("text");
    reveal_strlit("tool_use");
    reveal_strlit("tool_result");
    assert("text"@.len() != "tool_result"@.len());
    assert("tool_use"@.len() != "tool_result"@.len());
}

pub open spec fn block_messages(role: Seq<char>, bs: Seq<Json>) -> Seq<MessageView>
    decreases bs.len(),
{
    if bs.len() == 0 {
        seq![]
    } else {
        let p = block_messages(role, bs.drop_last());
        match block_message(role, bs.last()) {
            Some(m) => p.push(m),
            None => p,
        }
    }
}

/// The messages of a JSON value that is not itself a log entry: its nested
/// `message`, else the blocks of a `{role, content: [...]}` message.
pub open spec fn value_messages(v: Json) -> Option<Seq<MessageView>> {
    let nested = match get(v, "message"@) {
        Some(m) => if decodes_as_entry(m) {
            decoded_message(m)
        } else {
            None
        },
        None => None,
    };
    if nested is Some {
        Some(seq![nested->0])
    } else {
        content_blocks(v)
    }
}

/// The messages of the blocks of a `{role, content: [...]}` message: its
/// text, tool-use and tool-result blocks, thinking left out; `None` when `v`
/// has no such blocks or none of them gives a message.
pub open spec fn content_blocks(v: Json) -> Option<Seq<MessageView>> {
    match (get_str(v, "role"@), get(v, "content"@)) {
        (Some(r), Some(c)) => match as_array(c) {
            Some(bs) => if block_messages(r, bs).len() > 0 {
                Some(block_messages(r, bs))
            } else {
                None
            },
            None => None,
        },
        _ => None,
    }
}

// ─── implementation ───

/// Normalize role strings from various formats.
pub fn normalize_role(type_field: &str, role_field: &str) -> (r: String)
    ensures
        r@ == normalized_role(type_field@, role_field@),
{
    let raw = if crate::text::chars_of(type_field).len() > 0 {
        type_field
    } else {
        role_field
    };
    let lower = to_lowercase(raw);
    let l = lower.as_str();
    if crate::text::str_eq(l, "human") || crate::text::str_eq(l, "user") {
        "user".to_string()
    } else if crate::text::str_eq(l, "assistant") || crate::text::str_eq(l, "ai") {
        "assistant".to_string()
    } else if crate::text::str_eq(l, "tool_use") || crate::text::str_eq(l, "tooluse") {
        "tool_use".to_string()
    } else if crate::text::str_eq(l, "tool_result") || crate::text::str_eq(l, "toolresult") {
        "tool_result".to_string()
    } else {
        lower
    }
}

/// Text of the entry's content (see [`text_content`]).
pub fn extract_text_content(content: Option<&Json>, message: Option<&Json>) -> (r: String)
    ensures
        r@ == text_content(
            match content {
                Some(c) => Some(*c),
                None => None,
            },
            match message {
                Some(m) => Some(*m),
                None => None,
            },
        ),
{
    let ghost co = match content {
        Some(c) => Some(*c),
        None => None::<Json>,
    };
    if let Some(c) = content {
        match &c.value {
            JsonValue::Str(s) => {
                return s.clone();
            },
            JsonValue::Array(blocks) => {
                let mut acc: Vec<char> = Vec::new();
                let mut found = false;
                let mut i: usize = 0;
                while i < blocks.len()
                    invariant
                        i <= blocks@.len(),
                        found == (block_texts(blocks@.take(i as int)).len() > 0),
                        acc@ == join_nl(block_texts(blocks@.take(i as int))),
                    decreases blocks@.len() - i,
                {
                    let ghost p = block_texts(blocks@.take(i as int));
                    proof {
                        assert(blocks@.take(i as int + 1).drop_last() =~= blocks@.take(i as int));
                    }
                    let b = &blocks[i];
                    let is_text = match json_get_str(b, "type") {
                        Some(t) => crate::text::str_eq(t.as_str(), "text"),
                        None => false,
                    };
                    if is_text {
                        if let Some(t) = json_get_str(b, "text") {
                            if found {
                                acc.push('\n');
                            }
                            crate::text::extend_str(&mut acc, t.as_str());
                            found = true;
                            proof {
                                let q = p.push(t@);
                                assert(q.drop_last() =~= p);
                                if p.len() == 0 {
                                    assert(acc@ =~= join_nl(q));
                                } else {
                                    assert(acc@ =~= join_nl(q));
                                }
                            }
                        }
                    }
                    i = i + 1;
                }
                proof {
                    assert(blocks@.take(blocks@.len() as int) =~= blocks@);
                }
                if found {
                    return string_of(acc.as_slice());
                }
            },
            _ => {},
        }
    }
    if let Some(m) = message {
        if let Some(s) = json_get_str(m, "content") {
            return s.clone();
        }
    }
    String::new()
}

/// Text of a tool result block (see [`value_text`]).
pub fn extract_text_from_value(v: &Json) -> (r: String)
    ensures
        r@ == value_text(*v),
{
    if let Some(s) = json_get_str(v, "content") {
        return s.clone();
    }
    if let Some(s) = json_get_str(v, "text") {
        return s.clone();
    }
    if let Some(s) = json_get_str(v, "output") {
        return s.clone();
    }
    String::new()
}

fn convert_parts(
    type_field: &str,
    role_field: &str,
    content: Option<&Json>,
    message: Option<&Json>,
    tool_name: &str,
    name: &str,
) -> (r: Option<DigestMessage>)
    ensures
        match r {
            Some(m) => entry_message(
                type_field@,
                role_field@,
                match content {
                    Some(c) => Some(*c),
                    None => None,
                },
                match message {
                    Some(c) => Some(*c),
                    None => None,
                },
                tool_name@,
                name@,
            ) == Some(m@),
            None => entry_message(
                type_field@,
                role_field@,
                match content {
                    Some(c) => Some(*c),
                    None => None,
                },
                match message {
                    Some(c) => Some(*c),
                    None => None,
                },
                tool_name@,
                name@,
            ) is None,
        },
{
    let role = normalize_role(type_field, role_field);
    if crate::text::str_eq(role.as_str(), "system") || crate::text::str_eq(
        role.as_str(),
        "thinking",
    ) {
        return None;
    }
    let content = extract_text_content(content, message);
    if crate::text::is_blank_chars(chars_of(content.as_str()).as_slice()) {
        return None;
    }
    let tool = if chars_of(tool_name).len() > 0 {
        tool_name.to_string()
    } else {
        name.to_string()
    };
    let files = extract_file_paths(content.as_str());
    Some(DigestMessage { files_mentioned: files, role, content, tool_name: tool })
}

/// Convert a raw log entry into a digest message.
pub fn convert_entry(entry: &RawLogEntry) -> (r: Option<DigestMessage>)
    ensures
        match r {
            Some(m) => raw_entry_message(*entry) == Some(m@),
            None => raw_entry_message(*entry) is None,
        },
{
    convert_parts(
        entry.entry_type.as_str(),
        entry.role.as_str(),
        entry.content.as_ref(),
        entry.message.as_ref(),
        entry.tool_name.as_str(),
        entry.name.as_str(),
    )
}

} // verus!

verus! {

/// Field `i`, named `key`, of `v` read as a log entry.
fn slot_of<'a>(v: &'a Json, i: usize, key: &str) -> (r: Option<&'a Json>)
    ensures
        match r {
            Some(j) => slot(*v, i as int, key@) == Some(*j),
            None => slot(*v, i as int, key@) is None,
        },
{
    match &v.value {
        JsonValue::Object(_) => json_get(v, key),
        JsonValue::Array(a) => if i < a.len() {
            Some(&a[i])
        } else {
            None
        },
        _ => None,
    }
}

fn text_slot_ok_exec(s: Option<&Json>) -> (r: bool)
    ensures
        r == text_slot_ok(
            match s {
                Some(j) => Some(*j),
                None => None,
            },
        ),
{
    match s {
        Some(j) => match &j.value {
            JsonValue::Str(_) => true,
            _ => false,
        },
        None => true,
    }
}

fn text_slot_exec(s: Option<&Json>) -> (r: &str)
    ensures
        r@ == text_slot(
            match s {
                Some(j) => Some(*j),
                None => None,
            },
        ),
{
    proof {
        reveal_strlit("");
    }
    match s {
        Some(j) => match &j.value {
            JsonValue::Str(x) => x.as_str(),
            _ => "",
        },
        None => "",
    }
}

fn value_slot_exec(s: Option<&Json>) -> (r: Option<&Json>)
    ensures
        match r {
            Some(j) => value_slot(
                match s {
                    Some(j) => Some(*j),
                    None => None,
                },
            ) == Some(*j),
            None => value_slot(
                match s {
                    Some(j) => Some(*j),
                    None => None,
                },
            ) is None,
        },
{
    match s {
        Some(j) => match &j.value {
            JsonValue::Null => None,
            _ => Some(j),
        },
        None => None,
    }
}

/// Whether `v` reads as a log entry (see [`decodes_as_entry`]).
pub fn entry_decodes(v: &Json) -> (r: bool)
    ensures
        r == decodes_as_entry(*v),
{
    let shape_ok = match &v.value {
        JsonValue::Object(_) => true,
        JsonValue::Array(a) => a.len() <= 9,
        _ => false,
    };
    let ts_ok = match slot_of(v, 8, "timestamp") {
        Some(j) => match &j.value {
            JsonValue::Null => true,
            JsonValue::Str(_) => true,
            _ => false,
        },
        None => true,
    };
    shape_ok && text_slot_ok_exec(slot_of(v, 0, "type")) && text_slot_ok_exec(slot_of(v, 1, "role"))
        && text_slot_ok_exec(slot_of(v, 4, "tool_name")) && text_slot_ok_exec(
        slot_of(v, 5, "name"),
    ) && ts_ok
}

/// The digest message of `v` read as a log entry (see [`decoded_message`]).
pub fn convert_value_entry(v: &Json) -> (r: Option<DigestMessage>)
    ensures
        match r {
            Some(m) => decoded_message(*v) == Some(m@),
            None => decoded_message(*v) is None,
        },
{
    convert_parts(
        text_slot_exec(slot_of(v, 0, "type")),
        text_slot_exec(slot_of(v, 1, "role")),
        slot_of(v, 2, "content"),
        value_slot_exec(slot_of(v, 3, "message")),
        text_slot_exec(slot_of(v, 4, "tool_name")),
        text_slot_exec(slot_of(v, 5, "name")),
    )
}

fn simple_message_exec(role: String, content: String, tool_name: String) -> (r: DigestMessage)
    ensures
        r@ == simple_message(role@, content@, tool_name@),
{
    let files = extract_file_paths(content.as_str());
    DigestMessage { role, content, tool_name, files_mentioned: files }
}

fn block_message_exec(role: &str, b: &Json) -> (r: Option<DigestMessage>)
    ensures
        match r {
            Some(m) => block_message(role@, *b) == Some(m@),
            None => block_message(role@, *b) is None,
        },
{
    proof {
        reveal_strlit("");
        reveal_strlit("text");
        reveal_strlit("tool_use");
        reveal_strlit("tool_result");
    }
    let t: &str = match json_get_str(b, "type") {
        Some(t) => t.as_str(),
        None => "",
    };
    let ghost tt = match get_str(*b, "type"@) {
        Some(t) => t,
        None => seq![],
    };
    assert(tt == t@);
    if crate::text::str_eq(t, "text") {
        match json_get_str(b, "text") {
            Some(x) => {
                let r = role.to_string();
                let m = simple_message_exec(r, x.clone(), String::new());
                assert(m@ == simple_message(role@, x@, seq![]));
                assert(block_message(role@, *b) == Some(simple_message(role@, x@, seq![])));
                Some(m)
            },
            None => None,
        }
    } else if crate::text::str_eq(t, "tool_use") {
        let name = match json_get_str(b, "name") {
            Some(n) => n.clone(),
            None => "unknown".to_string(),
        };
        let input = match json_get(b, "input") {
            Some(i) => i.pretty.clone(),
            None => String::new(),
        };
        let m = simple_message_exec("tool_use".to_string(), input, name);
        assert(get_str(*b, "type"@) is None ==> t@ == Seq::<char>::empty());
        assert(t@ == "tool_use"@);
        assert(block_message(role@, *b) == Some(m@));
        Some(m)
    } else if crate::text::str_eq(t, "tool_result") {
        let x = extract_text_from_value(b);
        if chars_of(x.as_str()).len() > 0 {
            let m = simple_message_exec("tool_result".to_string(), x, String::new());
            assert(block_message(role@, *b) == Some(m@));
            Some(m)
        } else {
            None
        }
    } else {
        None
    }
}

/// Try to extract messages from a JSON value that is not a log entry: a
/// `{ "message": {...} }` wrapper or a message with an array of content blocks.
pub fn try_extract_from_value(v: &Json) -> (r: Option<Vec<DigestMessage>>)
    ensures
        match r {
            Some(ms) => value_messages(*v) == Some(message_views(ms@)),
            None => value_messages(*v) is None,
        },
{
    if let Some(m) = json_get(v, "message") {
        if entry_decodes(m) {
            if let Some(dm) = convert_value_entry(m) {
                let mut out: Vec<DigestMessage> = Vec::new();
                out.push(dm);
                proof {
                    assert(message_views(out@) =~= seq![dm@]);
                }
                return Some(out);
            }
        }
    }
    content_block_messages(v)
}

/// The messages of the content blocks of `v` (see [`content_blocks`]).
pub fn content_block_messages(v: &Json) -> (r: Option<Vec<DigestMessage>>)
    ensures
        match r {
            Some(ms) => content_blocks(*v) == Some(message_views(ms@)),
            None => content_blocks(*v) is None,
        },
{
    if let Some(role) = json_get_str(v, "role") {
        if let Some(c) = json_get(v, "content") {
            if let JsonValue::Array(blocks) = &c.value {
                let mut out: Vec<DigestMessage> = Vec::new();
                let mut i: usize = 0;
                while i < blocks.len()
                    invariant
                        i <= blocks@.len(),
                        message_views(out@) == block_messages(role@, blocks@.take(i as int)),
                    decreases blocks@.len() - i,
                {
                    proof {
                        assert(blocks@.take(i as int + 1).drop_last() =~= blocks@.take(i as int));
                    }
                    let ghost before = message_views(out@);
                    if let Some(m) = block_message_exec(role.as_str(), &blocks[i]) {
                        out.push(m);
                        proof {
                            assert(message_views(out@) =~= before.push(m@));
                        }
                    }
                    i = i + 1;
                }
                proof {
                    assert(blocks@.take(blocks@.len() as int) =~= blocks@);
                }
                if out.len() > 0 {
                    return Some(out);
                }
            }
        }
    }
    None
}

/// A line of a JSONL log: the line read as a log entry, if it reads as one,
/// and the line read as a JSON value, if it is one.
pub struct JsonlLine {
    pub entry: Option<RawLogEntry>,
    pub value: Option<Json>,
}

/// The messages of one JSONL line: those of its content blocks if it is a
/// `{role, content: [...]}` message with any, else those of the entry if the
/// line reads as one, else those of the JSON value.
pub open spec fn line_messages(l: JsonlLine) -> Seq<MessageView> {
    let blocks = match l.value {
        Some(v) => content_blocks(v),
        None => None,
    };
    if blocks is Some {
        blocks->0
    } else {
        match l.entry {
            Some(e) => match raw_entry_message(e) {
                Some(m) => seq![m],
                None => seq![],
            },
            None => match l.value {
                Some(v) => match value_messages(v) {
                    Some(ms) => ms,
                    None => seq![],
                },
                None => seq![],
            },
        }
    }
}

/// The messages of the lines `ls`, in order.
pub open spec fn jsonl_messages(ls: Seq<JsonlLine>) -> Seq<MessageView>
    decreases ls.len(),
{
    if ls.len() == 0 {
        seq![]
    } else {
        jsonl_messages(ls.drop_last()) + line_messages(ls.last())
    }
}

/// The messages of one JSON array element: those of its content blocks if
/// it has any, else those of the element read as a log entry if it reads as
/// one, else those of the element as a value.
pub open spec fn element_messages(v: Json) -> Seq<MessageView> {
    if content_blocks(v) is Some {
        content_blocks(v)->0
    } else if decodes_as_entry(v) {
        match decoded_message(v) {
            Some(m) => seq![m],
            None => seq![],
        }
    } else {
        match value_messages(v) {
            Some(ms) => ms,
            None => seq![],
        }
    }
}

pub open spec fn array_messages(vs: Seq<Json>) -> Seq<MessageView>
    decreases vs.len(),
{
    if vs.len() == 0 {
        seq![]
    } else {
        array_messages(vs.drop_last()) + element_messages(vs.last())
    }
}

fn append_messages(out: &mut Vec<DigestMessage>, more: Vec<DigestMessage>)
    ensures
        message_views(final(out)@) == message_views(old(out)@) + message_views(more@),
{
    let ghost a = out@;
    let ghost b = more@;
    let mut more = more;
    out.append(&mut more);
    proof {
        assert(out@ == a + b);
        assert(message_views(out@) =~= message_views(a) + message_views(b));
    }
}

/// The messages of the lines of a JSONL log, in order.
pub fn parse_jsonl_lines(lines: &Vec<JsonlLine>) -> (r: Vec<DigestMessage>)
    ensures
        message_views(r@) == jsonl_messages(lines@),
{
    let mut out: Vec<DigestMessage> = Vec::new();
    let mut i: usize = 0;
    while i < lines.len()
        invariant
            i <= lines@.len(),
            message_views(out@) == jsonl_messages(lines@.take(i as int)),
        decreases lines@.len() - i,
    {
        proof {
            assert(lines@.take(i as int + 1).drop_last() =~= lines@.take(i as int));
        }
        let ghost before = message_views(out@);
        let l = &lines[i];
        let blocks = match &l.value {
            Some(v) => content_block_messages(v),
            None => None,
        };
        if let Some(ms) = blocks {
            append_messages(&mut out, ms);
            i = i + 1;
            continue;
        }
        match &l.entry {
            Some(e) => {
                if let Some(m) = convert_entry(e) {
                    out.push(m);
                    proof {
                        assert(message_views(out@) =~= before + seq![m@]);
                    }
                } else {
                    proof {
                        assert(before + seq![] =~= before);
                    }
                }
            },
            None => {
                let found = match &l.value {
                    Some(v) => try_extract_from_value(v),
                    None => None,
                };
                match found {
                    Some(ms) => append_messages(&mut out, ms),
                    None => {
                        proof {
                            assert(before + seq![] =~= before);
                        }
                    },
                }
            },
        }
        i = i + 1;
    }
    proof {
        assert(lines@.take(lines@.len() as int) =~= lines@);
    }
    out
}

/// The messages of the elements of a JSON array log, in order.
pub fn parse_json_values(values: &Vec<Json>) -> (r: Vec<DigestMessage>)
    ensures
        message_views(r@) == array_messages(values@),
{
    let mut out: Vec<DigestMessage> = Vec::new();
    let mut i: usize = 0;
    while i < values.len()
        invariant
            i <= values@.len(),
            message_views(out@) == array_messages(values@.take(i as int)),
        decreases values@.len() - i,
    {
        proof {
            assert(values@.take(i as int + 1).drop_last() =~= values@.take(i as int));
        }
        let ghost before = message_views(out@);
        let v = &values[i];
        if let Some(ms) = content_block_messages(v) {
            append_messages(&mut out, ms);
        } else if entry_decodes(v) {
            if let Some(m) = convert_value_entry(v) {
                out.push(m);
                proof {
                    assert(message_views(out@) =~= before + seq![m@]);
                }
            } else {
                proof {
                    assert(before + seq![] =~= before);
                }
            }
        } else {
            match try_extract_from_value(v) {
                Some(ms) => append_messages(&mut out, ms),
                None => {
                    proof {
                        assert(before + seq![] =~= before);
                    }
                },
            }
        }
        i = i + 1;
    }
    proof {
        assert(values@.take(values@.len() as int) =~= values@);
    }
    out
}

/// The lines of `ls` that are not blank, trimmed.
pub open spec fn nonblank_trimmed(ls: Seq<Seq<char>>) -> Seq<Seq<char>>
    decreases ls.len(),
{
    if ls.len() == 0 {
        seq![]
    } else {
        let p = nonblank_trimmed(ls.drop_last());
        let t = trim(ls.last());
        if t.len() > 0 {
            p.push(t)
        } else {
            p
        }
    }
}

/// Where a scan of a JSONL log stands: the pieces finished so far, the piece
/// being read, how deeply it is nested in `{`/`[`, and whether the scan is
/// inside a JSON string (and just after a backslash there).
pub struct DocScan {
    pub pieces: Seq<Seq<char>>,
    pub cur: Seq<char>,
    pub depth: nat,
    pub in_str: bool,
    pub escaped: bool,
}

/// One character of the log. A newline ends the piece when nothing is open;
/// inside an open object or array it belongs to the piece. JSON strings
/// cannot hold a raw newline, so a newline also ends any string.
pub open spec fn doc_step(st: DocScan, c: char) -> DocScan {
    if c == '\n' {
        if st.depth == 0 {
            DocScan { pieces: st.pieces.push(st.cur), cur: seq![], depth: 0, in_str: false, escaped: false }
        } else {
            DocScan { cur: st.cur.push(c), in_str: false, escaped: false, ..st }
        }
    } else if st.in_str {
        if st.escaped {
            DocScan { cur: st.cur.push(c), escaped: false, ..st }
        } else if c == '\\' {
            DocScan { cur: st.cur.push(c), escaped: true, ..st }
        } else if c == '"' {
            DocScan { cur: st.cur.push(c), in_str: false, ..st }
        } else {
            DocScan { cur: st.cur.push(c), ..st }
        }
    } else if c == '"' {
        DocScan { cur: st.cur.push(c), in_str: true, ..st }
    } else if c == '{' || c == '[' {
        DocScan { cur: st.cur.push(c), depth: st.depth + 1, ..st }
    } else if (c == '}' || c == ']') && st.depth > 0 {
        DocScan { cur: st.cur.push(c), depth: (st.depth - 1) as nat, ..st }
    } else {
        DocScan { cur: st.cur.push(c), ..st }
    }
}

pub open spec fn doc_scan(s: Seq<char>) -> DocScan
    decreases s.len(),
{
    if s.len() == 0 {
        DocScan { pieces: seq![], cur: seq![], depth: 0, in_str: false, escaped: false }
    } else {
        doc_step(doc_scan(s.drop_last()), s.last())
    }
}

/// The log cut at the newlines that fall outside every open object or array.
pub open spec fn doc_pieces(content: Seq<char>) -> Seq<Seq<char>> {
    let st = doc_scan(content);
    st.pieces.push(st.cur)
}

/// The JSON documents of a JSONL log, trimmed, blank ones left out: one per
/// line, except that an object or array spread over several lines is one
/// document.
pub open spec fn jsonl_documents(content: Seq<char>) -> Seq<Seq<char>> {
    nonblank_trimmed(doc_pieces(content))
}

/// The JSON documents of a JSONL log (see [`jsonl_documents`]).
pub fn jsonl_records(content: &str) -> (r: Vec<String>)
    ensures
        string_views(r@) == jsonl_documents(content@),
{
    let v = chars_of(content);
    let mut pieces: Vec<Vec<char>> = Vec::new();
    let mut cur: Vec<char> = Vec::new();
    let mut depth: usize = 0;
    let mut in_str = false;
    let mut escaped = false;
    let mut i: usize = 0;
    proof {
        assert(v@.take(0) =~= Seq::<char>::empty());
    }
    while i < v.len()
        invariant
            i <= v@.len(),
            v@ == content@,
            depth <= i,
            ({
                let st = doc_scan(v@.take(i as int));
                &&& views(pieces@) == st.pieces
                &&& cur@ == st.cur
                &&& depth as nat == st.depth
                &&& in_str == st.in_str
                &&& escaped == st.escaped
            }),
        decreases v@.len() - i,
    {
        proof {
            assert(v@.take(i as int + 1).drop_last() =~= v@.take(i as int));
        }
        let c = v[i];
        let ghost before = views(pieces@);
        if c == '\n' {
            if depth == 0 {
                pieces.push(cur);
                cur = Vec::new();
                proof {
                    assert(views(pieces@) =~= before.push(doc_scan(v@.take(i as int)).cur));
                }
            } else {
                cur.push(c);
            }
            in_str = false;
            escaped = false;
        } else if in_str {
            cur.push(c);
            if escaped {
                escaped = false;
            } else if c == '\\' {
                escaped = true;
            } else if c == '"' {
                in_str = false;
            }
        } else {
            cur.push(c);
            if c == '"' {
                in_str = true;
            } else if c == '{' || c == '[' {
                depth = depth + 1;
            } else if (c == '}' || c == ']') && depth > 0 {
                depth = depth - 1;
            }
        }
        i = i + 1;
    }
    proof {
        assert(v@.take(v@.len() as int) =~= v@);
    }
    let ghost before = views(pieces@);
    pieces.push(cur);
    proof {
        assert(views(pieces@) =~= doc_pieces(content@));
    }
    let ghost pv = views(pieces@);
    let mut out: Vec<String> = Vec::new();
    let mut k: usize = 0;
    while k < pieces.len()
        invariant
            k <= pieces@.len(),
            pv == views(pieces@),
            pv == doc_pieces(content@),
            string_views(out@) == nonblank_trimmed(pv.take(k as int)),
        decreases pieces@.len() - k,
    {
        proof {
            assert(pv.take(k as int + 1).drop_last() =~= pv.take(k as int));
            assert(pv.take(k as int + 1).last() == pieces@[k as int]@);
        }
        let ghost b = string_views(out@);
        let t = trim_chars(pieces[k].as_slice());
        if t.len() > 0 {
            out.push(string_of(t.as_slice()));
            proof {
                assert(string_views(out@) =~= b.push(t@));
            }
        }
        k = k + 1;
    }
    proof {
        assert(pv.take(pieces@.len() as int) =~= pv);
    }
    out
}

} // verus!
