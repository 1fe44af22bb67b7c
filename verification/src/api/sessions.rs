//! Browsing the session logs of the coding assistant.

use vstd::prelude::*;
use crate::json::Json;

verus! {

/// A project directory of session logs.
pub struct SessionsListEntry {
    pub slug: String,
    pub session_count: usize,
    /// Unix timestamp, seconds.
    pub latest_modified: Option<u64>,
}

/// One session log of a project.
pub struct SessionEntry {
    pub id: String,
    pub title: String,
    pub model: Option<String>,
    pub size_bytes: u64,
    pub line_count: usize,
    pub modified_at: Option<u64>,
    pub active: bool,
    pub user_turns: usize,
    pub output_tokens: u64,
    pub context_size: u64,
}

/// Statistics of one session.
pub struct SessionStats {
    pub session_id: String,
    pub title: String,
    pub cwd: Option<String>,
    pub model: Option<String>,
    pub models_used: Vec<String>,
    pub active: bool,
    pub user_turns: usize,
    pub assistant_turns: usize,
    pub total_output_tokens: u64,
    pub context_size: u64,
    /// Calls per tool name, sorted by name.
    pub tools: Vec<(String, usize)>,
    pub files_read: Vec<String>,
    pub files_edited: Vec<String>,
    pub started_at: Option<u64>,
    pub last_activity: Option<u64>,
    pub suggestions: Vec<String>,
}

pub struct BillingPeriod {
    pub output_tokens: u64,
    pub sessions: usize,
}

pub struct BillingCycle {
    pub start: String,
    pub output_tokens: u64,
    pub sessions: usize,
}

pub struct DailyUsage {
    pub date: String,
    pub output_tokens: u64,
    pub sessions: usize,
}

/// Reply to `GET /billing`.
pub struct BillingResponse {
    pub today: BillingPeriod,
    pub billing_cycle: BillingCycle,
    pub daily: Vec<DailyUsage>,
}

/// Token usage of one assistant message.
pub struct Usage {
    pub input_tokens: u64,
    pub output_tokens: u64,
    pub cache_read_input_tokens: Option<u64>,
    pub cache_creation_input_tokens: Option<u64>,
}

/// One block of a message's content.
pub struct ContentBlock {
    /// "text" | "thinking" | "tool_use" | "tool_result"
    pub kind: String,
    pub text: Option<String>,
    pub tool_name: Option<String>,
    pub tool_use_id: Option<String>,
    pub tool_input: Option<Json>,
}

/// One message of a session.
pub struct ParsedMessage {
    /// "user" | "assistant"
    pub role: String,
    pub content_blocks: Vec<ContentBlock>,
    pub usage: Option<Usage>,
}

/// A whole session.
pub struct ParsedSession {
    pub session_id: String,
    pub source_path: String,
    pub messages: Vec<ParsedMessage>,
}

} // verus!

verus! {

use crate::json::{JsonValue, get, get_str, as_array, as_u64, json_eqv, json_get, json_get_str, json_get_u64};
use crate::text::{opt_view, str_eq};

/// The text of the first `text` block among `arr`, if that block's text is a
/// string; `None` when there is no text block.
pub open spec fn first_text_block(arr: Seq<Json>) -> Option<Option<Seq<char>>>
    decreases arr.len(),
{
    if arr.len() == 0 {
        None
    } else if get_str(arr[0], "type"@) == Some("text"@) {
        Some(get_str(arr[0], "text"@))
    } else {
        first_text_block(arr.drop_first())
    }
}

/// The text of a tool result block: its string content, or the text of the
/// first text block of its content array.
pub open spec fn result_text(b: Json) -> Option<Seq<char>> {
    match get(b, "content"@) {
        Some(c) => match c.value {
            JsonValue::Str(s) => Some(s@),
            JsonValue::Array(arr) => match first_text_block(arr@) {
                Some(t) => t,
                None => None,
            },
            _ => None,
        },
        None => None,
    }
}

/// `j` is the member `key` of `b`, or a JSON null when `b` has none.
pub open spec fn member_or_null(b: Json, key: Seq<char>, j: Json) -> bool {
    match get(b, key) {
        Some(i) => json_eqv(i, j),
        None => j.value is Null && j.pretty@ == "null"@,
    }
}

/// `r` is what a content block `b` reads as.
pub open spec fn content_block_of(b: Json, r: Option<ContentBlock>) -> bool {
    let t = get_str(b, "type"@);
    match r {
        None => !(t == Some("text"@) || t == Some("thinking"@) || t == Some("tool_use"@) || t
            == Some("tool_result"@)),
        Some(c) => {
            &&& t == Some(c.kind@)
            &&& c.kind@ == "text"@ ==> opt_view(c.text) == get_str(b, "text"@) && c.tool_name is None
                && c.tool_use_id is None && c.tool_input is None
            &&& c.kind@ == "thinking"@ ==> opt_view(c.text) == get_str(b, "thinking"@)
                && c.tool_name is None && c.tool_use_id is None && c.tool_input is None
            &&& c.kind@ == "tool_use"@ ==> c.text is None && opt_view(c.tool_name) == get_str(
                b,
                "name"@,
            ) && opt_view(c.tool_use_id) == get_str(b, "id"@) && c.tool_input is Some
                && member_or_null(b, "input"@, c.tool_input->0)
            &&& c.kind@ == "tool_result"@ ==> opt_view(c.text) == result_text(b) && c.tool_name is None
                && opt_view(c.tool_use_id) == get_str(b, "tool_use_id"@) && c.tool_input is None
            &&& (c.kind@ == "text"@ || c.kind@ == "thinking"@ || c.kind@ == "tool_use"@ || c.kind@
                == "tool_result"@)
        },
    }
}

fn opt_string(s: Option<&String>) -> (r: Option<String>)
    ensures
        opt_view(r) == match s {
            Some(x) => Some(x@),
            None => None,
        },
{
    match s {
        Some(x) => Some(x.clone()),
        None => None,
    }
}

fn result_text_exec(b: &Json) -> (r: Option<String>)
    ensures
        opt_view(r) == result_text(*b),
{
    match json_get(b, "content") {
        Some(c) => match &c.value {
            JsonValue::Str(s) => Some(s.clone()),
            JsonValue::Array(arr) => {
                let mut i: usize = 0;
                proof {
                    assert(arr@.skip(0) =~= arr@);
                }
                assert(result_text(*b) == match first_text_block(arr@) {
                    Some(t) => t,
                    None => None,
                });
                while i < arr.len()
                    invariant
                        i <= arr@.len(),
                        result_text(*b) == match first_text_block(arr@) {
                            Some(t) => t,
                            None => None,
                        },
                        first_text_block(arr@) == first_text_block(arr@.skip(i as int)),
                    decreases arr@.len() - i,
                {
                    let ghost rest = arr@.skip(i as int);
                    proof {
                        assert(rest[0] == arr@[i as int]);
                    }
                    let is_text = match json_get_str(&arr[i], "type") {
                        Some(t) => str_eq(t.as_str(), "text"),
                        None => false,
                    };
                    if is_text {
                        return opt_string(json_get_str(&arr[i], "text"));
                    }
                    proof {
                        assert(rest.drop_first() =~= arr@.skip(i as int + 1));
                    }
                    i = i + 1;
                }
                None
            },
            _ => None,
        },
        None => None,
    }
}

/// Read one content block of a session message.
pub fn parse_content_block(b: &Json) -> (r: Option<ContentBlock>)
    ensures
        content_block_of(*b, r),
{
    proof {
        reveal_strlit("text");
        reveal_strlit("thinking");
        reveal_strlit("tool_use");
        reveal_strlit("tool_result");
    }
    let kind = match json_get_str(b, "type") {
        Some(k) => k,
        None => {
            return None;
        },
    };
    let k = kind.as_str();
    assert(get_str(*b, "type"@) == Some(k@));
    if str_eq(k, "text") {
        let c = ContentBlock {
            kind: "text".to_string(),
            text: opt_string(json_get_str(b, "text")),
            tool_name: None,
            tool_use_id: None,
            tool_input: None,
        };
        assert(c.kind@ == "text"@);
        assert(content_block_of(*b, Some(c)));
        Some(c)
    } else if str_eq(k, "thinking") {
        let c = ContentBlock {
            kind: "thinking".to_string(),
            text: opt_string(json_get_str(b, "thinking")),
            tool_name: None,
            tool_use_id: None,
            tool_input: None,
        };
        assert(c.kind@ == "thinking"@);
        assert("thinking"@ != "text"@) by {
            assert("thinking"@.len() != "text"@.len());
        }
        assert("thinking"@ != "tool_use"@) by {
            assert("thinking"@[1] != "tool_use"@[1]);
        }
        assert("thinking"@ != "tool_result"@) by {
            assert("thinking"@.len() != "tool_result"@.len());
        }
        assert(content_block_of(*b, Some(c)));
        Some(c)
    } else if str_eq(k, "tool_use") {
        let input = match json_get(b, "input") {
            Some(i) => {
                let x = i.copy();
                assert(member_or_null(*b, "input"@, x));
                x
            },
            None => {
                let x = crate::json::json_null();
                assert(member_or_null(*b, "input"@, x));
                x
            },
        };
        let c = ContentBlock {
            kind: "tool_use".to_string(),
            text: None,
            tool_name: opt_string(json_get_str(b, "name")),
            tool_use_id: opt_string(json_get_str(b, "id")),
            tool_input: Some(input),
        };
        assert(c.kind@ == "tool_use"@);
        assert(content_block_of(*b, Some(c)));
        Some(c)
    } else if str_eq(k, "tool_result") {
        let c = ContentBlock {
            kind: "tool_result".to_string(),
            text: result_text_exec(b),
            tool_name: None,
            tool_use_id: opt_string(json_get_str(b, "tool_use_id")),
            tool_input: None,
        };
        assert(c.kind@ == "tool_result"@);
        assert(content_block_of(*b, Some(c)));
        Some(c)
    } else {
        None
    }
}

/// The `u64` member `key` of `v`, 0 when absent or not such a number.
pub open spec fn u64_or_zero(v: Json, key: Seq<char>) -> u64 {
    match get(v, key) {
        Some(m) => match as_u64(m) {
            Some(n) => n,
            None => 0,
        },
        None => 0,
    }
}

pub open spec fn u64_member(v: Json, key: Seq<char>) -> Option<u64> {
    match get(v, key) {
        Some(m) => as_u64(m),
        None => None,
    }
}

/// The token usage an assistant message reports, when its `usage` is an object.
pub open spec fn usage_of(usage: Option<Json>, r: Option<Usage>) -> bool {
    match usage {
        Some(u) => if u.value is Object {
            r == Some(
                Usage {
                    input_tokens: u64_or_zero(u, "input_tokens"@),
                    output_tokens: u64_or_zero(u, "output_tokens"@),
                    cache_read_input_tokens: u64_member(u, "cache_read_input_tokens"@),
                    cache_creation_input_tokens: u64_member(u, "cache_creation_input_tokens"@),
                },
            )
        } else {
            r is None
        },
        None => r is None,
    }
}

/// Read the `usage` member of a message (`None` when it is missing or not an object).
pub fn parse_usage(usage: Option<&Json>) -> (r: Option<Usage>)
    ensures
        usage_of(
            match usage {
                Some(u) => Some(*u),
                None => None,
            },
            r,
        ),
{
    match usage {
        Some(u) => match &u.value {
            JsonValue::Object(_) => Some(
                Usage {
                    input_tokens: match json_get_u64(u, "input_tokens") {
                        Some(n) => n,
                        None => 0,
                    },
                    output_tokens: match json_get_u64(u, "output_tokens") {
                        Some(n) => n,
                        None => 0,
                    },
                    cache_read_input_tokens: json_get_u64(u, "cache_read_input_tokens"),
                    cache_creation_input_tokens: json_get_u64(u, "cache_creation_input_tokens"),
                },
            ),
            _ => None,
        },
        None => None,
    }
}

} // verus!

verus! {

/// `out` is what the content blocks `arr` read as, skipping unknown blocks.
pub open spec fn blocks_of(arr: Seq<Json>, out: Seq<ContentBlock>) -> bool
    decreases arr.len(),
{
    if arr.len() == 0 {
        out.len() == 0
    } else {
        ||| content_block_of(arr.last(), None) && blocks_of(arr.drop_last(), out)
        ||| out.len() > 0 && content_block_of(arr.last(), Some(out.last())) && blocks_of(
            arr.drop_last(),
            out.drop_last(),
        )
    }
}

fn parse_blocks(arr: &Vec<Json>) -> (r: Vec<ContentBlock>)
    ensures
        blocks_of(arr@, r@),
{
    let mut out: Vec<ContentBlock> = Vec::new();
    let mut i: usize = 0;
    while i < arr.len()
        invariant
            i <= arr@.len(),
            blocks_of(arr@.take(i as int), out@),
        decreases arr@.len() - i,
    {
        proof {
            assert(arr@.take(i as int + 1).drop_last() =~= arr@.take(i as int));
            assert(arr@.take(i as int + 1).last() == arr@[i as int]);
        }
        let ghost before = out@;
        match parse_content_block(&arr[i]) {
            Some(c) => {
                out.push(c);
                proof {
                    assert(out@.drop_last() =~= before);
                }
            },
            None => {},
        }
        i = i + 1;
    }
    proof {
        assert(arr@.take(arr@.len() as int) =~= arr@);
    }
    out
}

/// The member `key` of the member `outer` of `v`.
pub open spec fn get2(v: Json, outer: Seq<char>, key: Seq<char>) -> Option<Json> {
    match get(v, outer) {
        Some(m) => get(m, key),
        None => None,
    }
}

/// `r` is what a `user` entry reads as: its string content as one text
/// block, or its known content blocks; `None` when there are none.
pub open spec fn user_message_of(entry: Json, r: Option<ParsedMessage>) -> bool {
    match get2(entry, "message"@, "content"@) {
        Some(c) => match c.value {
            JsonValue::Str(s) => match r {
                Some(m) => m.role@ == "user"@ && m.usage is None && m.content_blocks@.len() == 1
                    && m.content_blocks@[0].kind@ == "text"@ && opt_view(m.content_blocks@[0].text)
                    == Some(s@) && m.content_blocks@[0].tool_name is None
                    && m.content_blocks@[0].tool_use_id is None
                    && m.content_blocks@[0].tool_input is None,
                None => false,
            },
            JsonValue::Array(arr) => match r {
                Some(m) => m.role@ == "user"@ && m.usage is None && m.content_blocks@.len() > 0
                    && blocks_of(arr@, m.content_blocks@),
                None => blocks_of(arr@, seq![]),
            },
            _ => r is None,
        },
        None => r is None,
    }
}

/// `r` is what an `assistant` entry reads as: its known content blocks and
/// its usage; `None` when its content is not an array or has no known block.
pub open spec fn assistant_message_of(entry: Json, r: Option<ParsedMessage>) -> bool {
    match get2(entry, "message"@, "content"@) {
        Some(c) => match c.value {
            JsonValue::Array(arr) => match r {
                Some(m) => m.role@ == "assistant"@ && m.content_blocks@.len() > 0 && blocks_of(
                    arr@,
                    m.content_blocks@,
                ) && usage_of(get2(entry, "message"@, "usage"@), m.usage),
                None => blocks_of(arr@, seq![]),
            },
            _ => r is None,
        },
        None => r is None,
    }
}

fn get2_exec<'a>(v: &'a Json, outer: &str, key: &str) -> (r: Option<&'a Json>)
    ensures
        match r {
            Some(j) => get2(*v, outer@, key@) == Some(*j),
            None => get2(*v, outer@, key@) is None,
        },
{
    match json_get(v, outer) {
        Some(m) => json_get(m, key),
        None => None,
    }
}

/// Read a `user` entry of a session log.
pub fn parse_user_message(entry: &Json) -> (r: Option<ParsedMessage>)
    ensures
        user_message_of(*entry, r),
{
    let content = match get2_exec(entry, "message", "content") {
        Some(c) => c,
        None => {
            return None;
        },
    };
    match &content.value {
        JsonValue::Str(s) => {
            let mut blocks: Vec<ContentBlock> = Vec::new();
            blocks.push(
                ContentBlock {
                    kind: "text".to_string(),
                    text: Some(s.clone()),
                    tool_name: None,
                    tool_use_id: None,
                    tool_input: None,
                },
            );
            Some(ParsedMessage { role: "user".to_string(), content_blocks: blocks, usage: None })
        },
        JsonValue::Array(arr) => {
            let blocks = parse_blocks(arr);
            if blocks.len() == 0 {
                proof {
                    assert(blocks@ =~= Seq::<ContentBlock>::empty());
                }
                None
            } else {
                Some(ParsedMessage { role: "user".to_string(), content_blocks: blocks, usage: None })
            }
        },
        _ => None,
    }
}

/// Read an `assistant` entry of a session log.
pub fn parse_assistant_message(entry: &Json) -> (r: Option<ParsedMessage>)
    ensures
        assistant_message_of(*entry, r),
{
    let content = match get2_exec(entry, "message", "content") {
        Some(c) => c,
        None => {
            return None;
        },
    };
    match &content.value {
        JsonValue::Array(arr) => {
            let blocks = parse_blocks(arr);
            if blocks.len() == 0 {
                proof {
                    assert(blocks@ =~= Seq::<ContentBlock>::empty());
                }
                None
            } else {
                let usage = parse_usage(get2_exec(entry, "message", "usage"));
                Some(
                    ParsedMessage {
                        role: "assistant".to_string(),
                        content_blocks: blocks,
                        usage,
                    },
                )
            }
        },
        _ => None,
    }
}

/// The type of a log entry ("" when it has none).
pub open spec fn entry_type(e: Json) -> Seq<char> {
    match get_str(e, "type"@) {
        Some(t) => t,
        None => seq![],
    }
}

/// `out` is the messages of the `user` and `assistant` entries of `es`.
pub open spec fn session_messages_of(es: Seq<Json>, out: Seq<ParsedMessage>) -> bool
    decreases es.len(),
{
    if es.len() == 0 {
        out.len() == 0
    } else {
        let e = es.last();
        let t = entry_type(e);
        if t == "user"@ || t == "assistant"@ {
            ||| out.len() > 0 && blocks_msg(e, t, Some(out.last())) && session_messages_of(
                es.drop_last(),
                out.drop_last(),
            )
            ||| blocks_msg(e, t, None) && session_messages_of(es.drop_last(), out)
        } else {
            session_messages_of(es.drop_last(), out)
        }
    }
}

pub open spec fn blocks_msg(e: Json, t: Seq<char>, r: Option<ParsedMessage>) -> bool {
    if t == "user"@ {
        user_message_of(e, r)
    } else {
        assistant_message_of(e, r)
    }
}

/// The messages of a session log's entries, in order.
pub fn session_messages(entries: &Vec<Json>) -> (r: Vec<ParsedMessage>)
    ensures
        session_messages_of(entries@, r@),
{
    proof {
        reveal_strlit("user");
        reveal_strlit("assistant");
        reveal_strlit("");
    }
    let mut out: Vec<ParsedMessage> = Vec::new();
    let mut i: usize = 0;
    while i < entries.len()
        invariant
            i <= entries@.len(),
            session_messages_of(entries@.take(i as int), out@),
        decreases entries@.len() - i,
    {
        proof {
            assert(entries@.take(i as int + 1).drop_last() =~= entries@.take(i as int));
            assert(entries@.take(i as int + 1).last() == entries@[i as int]);
        }
        proof {
            reveal_strlit("user");
            reveal_strlit("assistant");
            reveal_strlit("");
        }
        let e = &entries[i];
        let t: &str = match json_get_str(e, "type") {
            Some(t) => t.as_str(),
            None => "",
        };
        let ghost tt = match get_str(*e, "type"@) {
            Some(x) => x,
            None => seq![],
        };
        assert(tt == t@);
        assert(tt == entry_type(*e));
        let ghost before = out@;
        let m = if str_eq(t, "user") {
            parse_user_message(e)
        } else if str_eq(t, "assistant") {
            parse_assistant_message(e)
        } else {
            None
        };
        if let Some(m) = m {
            out.push(m);
            proof {
                assert(out@.drop_last() =~= before);
            }
        }
        i = i + 1;
    }
    proof {
        assert(entries@.take(entries@.len() as int) =~= entries@);
    }
    out
}

} // verus!

verus! {

use crate::order::{sort_by_before, sorted_by};

/// Where an optional time sorts: unknown times after all known ones.
pub open spec fn time_rank(t: Option<u64>) -> int {
    match t {
        Some(x) => x as int,
        None => -1,
    }
}

/// Sessions are listed latest first.
pub open spec fn session_before() -> spec_fn(SessionEntry, SessionEntry) -> bool {
    |a: SessionEntry, b: SessionEntry| time_rank(a.modified_at) > time_rank(b.modified_at)
}

/// Session projects are listed latest first.
pub open spec fn project_before() -> spec_fn(SessionsListEntry, SessionsListEntry) -> bool {
    |a: SessionsListEntry, b: SessionsListEntry| time_rank(a.latest_modified) > time_rank(b.latest_modified)
}

fn later(a: Option<u64>, b: Option<u64>) -> (r: bool)
    ensures
        r == (time_rank(a) > time_rank(b)),
{
    match (a, b) {
        (Some(x), Some(y)) => x > y,
        (Some(_), None) => true,
        _ => false,
    }
}

fn session_entry_before(a: &SessionEntry, b: &SessionEntry) -> (r: bool)
    ensures
        r == session_before()(*a, *b),
{
    later(a.modified_at, b.modified_at)
}

fn sessions_list_before(a: &SessionsListEntry, b: &SessionsListEntry) -> (r: bool)
    ensures
        r == project_before()(*a, *b),
{
    later(a.latest_modified, b.latest_modified)
}

/// The sessions of a project, latest modified first.
pub fn sort_sessions(sessions: Vec<SessionEntry>) -> (r: Vec<SessionEntry>)
    ensures
        sorted_by(r@, session_before()),
        r@.to_multiset() == sessions@.to_multiset(),
{
    sort_by_before(sessions, session_entry_before, Ghost(session_before()))
}

/// The session projects, latest modified first.
pub fn sort_session_projects(projects: Vec<SessionsListEntry>) -> (r: Vec<SessionsListEntry>)
    ensures
        sorted_by(r@, project_before()),
        r@.to_multiset() == projects@.to_multiset(),
{
    sort_by_before(projects, sessions_list_before, Ghost(project_before()))
}

/// A session counts as active when it was modified less than five minutes
/// before `now` (Unix seconds).
pub open spec fn active_at(now: u64, modified_at: Option<u64>) -> bool {
    match modified_at {
        Some(t) => now - t < 300,
        None => false,
    }
}

/// Whether a session modified at `modified_at` is active at `now`.
pub fn is_active(now: u64, modified_at: Option<u64>) -> (r: bool)
    requires
        modified_at matches Some(t) ==> t <= now,
    ensures
        r == active_at(now, modified_at),
{
    match modified_at {
        Some(t) => now - t < 300,
        None => false,
    }
}

/// The latest of the modification times of a project's session logs.
pub open spec fn latest_of(times: Seq<Option<u64>>) -> Option<u64>
    decreases times.len(),
{
    if times.len() == 0 {
        None
    } else {
        let p = latest_of(times.drop_last());
        match (p, times.last()) {
            (Some(a), Some(b)) => Some(if a >= b { a } else { b }),
            (None, x) => x,
            (x, None) => x,
        }
    }
}

/// The latest of the known modification times (`None` when none is known).
pub fn latest_modified(times: &Vec<Option<u64>>) -> (r: Option<u64>)
    ensures
        r == latest_of(times@),
{
    let mut best: Option<u64> = None;
    let mut i: usize = 0;
    while i < times.len()
        invariant
            i <= times@.len(),
            best == latest_of(times@.take(i as int)),
        decreases times@.len() - i,
    {
        proof {
            assert(times@.take(i as int + 1).drop_last() =~= times@.take(i as int));
        }
        best = match (best, times[i]) {
            (Some(a), Some(b)) => Some(if a >= b { a } else { b }),
            (None, x) => x,
            (x, None) => x,
        };
        i = i + 1;
    }
    proof {
        assert(times@.take(times@.len() as int) =~= times@);
    }
    best
}

} // verus!
