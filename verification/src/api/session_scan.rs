//! Summaries of a session log: title, model, turns, token usage, tools and files.

use vstd::prelude::*;
use crate::json::{Json, JsonValue, get, get_str, as_u64, json_get, json_get_str, json_get_u64};
use crate::api::sessions::{get2, entry_type, SessionStats};
use crate::text::{trim, str_eq};
use crate::textops::starts_with;

verus! {

/// The first `n` characters of `s` (all of `s` when it is shorter).
pub open spec fn first_chars(s: Seq<char>, n: nat) -> Seq<char> {
    if s.len() <= n {
        s
    } else {
        s.take(n as int)
    }
}

/// The title a user's message gives a session: its trimmed text, cut to 80
/// characters, unless it is blank or a slash command.
pub open spec fn title_of_text(s: Seq<char>) -> Option<Seq<char>> {
    let t = trim(s);
    if t.len() > 0 && !starts_with(t, "<command"@) && !starts_with(t, "/init"@) {
        Some(first_chars(t, 80))
    } else {
        None
    }
}

/// The string content of a user entry (typed input, not tool results).
pub open spec fn user_text(e: Json) -> Option<Seq<char>> {
    match get2(e, "message"@, "content"@) {
        Some(c) => match c.value {
            JsonValue::Str(s) => Some(s@),
            _ => None,
        },
        None => None,
    }
}

/// The number `key` of an entry's `message.usage`.
pub open spec fn usage_number(e: Json, key: Seq<char>) -> Option<u64> {
    match get2(e, "message"@, "usage"@) {
        Some(u) => match get(u, key) {
            Some(x) => as_u64(x),
            None => None,
        },
        None => None,
    }
}

pub open spec fn or_zero(o: Option<u64>) -> int {
    match o {
        Some(x) => x as int,
        None => 0,
    }
}

/// Output tokens of an assistant entry.
pub open spec fn entry_output(e: Json) -> int {
    or_zero(usage_number(e, "output_tokens"@))
}

/// Context size of an assistant entry: input plus cache-read tokens.
pub open spec fn entry_context(e: Json) -> int {
    or_zero(usage_number(e, "input_tokens"@)) + or_zero(usage_number(e, "cache_read_input_tokens"@))
}

/// The model named by an entry's message.
pub open spec fn entry_model(e: Json) -> Option<Seq<char>> {
    match get(e, "message"@) {
        Some(m) => get_str(m, "model"@),
        None => None,
    }
}

/// What a scan of a session log has gathered so far.
pub struct ScanView {
    pub title: Seq<char>,
    pub model: Option<Seq<char>>,
    pub user_turns: nat,
    pub assistant_turns: nat,
    pub output: int,
    pub context: int,
}

pub open spec fn scan_start() -> ScanView {
    ScanView {
        title: seq![],
        model: None,
        user_turns: 0,
        assistant_turns: 0,
        output: 0,
        context: 0,
    }
}

/// One entry's effect on the scan.
pub open spec fn scan_step(st: ScanView, e: Json) -> ScanView {
    let t = entry_type(e);
    if t == "user"@ {
        match user_text(e) {
            Some(s) => ScanView {
                user_turns: st.user_turns + 1,
                title: if st.title.len() == 0 {
                    match title_of_text(s) {
                        Some(x) => x,
                        None => st.title,
                    }
                } else {
                    st.title
                },
                ..st
            },
            None => st,
        }
    } else if t == "assistant"@ {
        ScanView {
            assistant_turns: st.assistant_turns + 1,
            output: st.output + entry_output(e),
            context: if entry_context(e) > 0 {
                entry_context(e)
            } else {
                st.context
            },
            model: match entry_model(e) {
                Some(m) => Some(m),
                None => st.model,
            },
            ..st
        }
    } else {
        st
    }
}

pub open spec fn scan(es: Seq<Json>) -> ScanView
    decreases es.len(),
{
    if es.len() == 0 {
        scan_start()
    } else {
        scan_step(scan(es.drop_last()), es.last())
    }
}

/// A session's title: the scanned one, or "(no title)".
pub open spec fn final_title(t: Seq<char>) -> Seq<char> {
    if t.len() == 0 {
        "(no title)"@
    } else {
        t
    }
}

/// The sums a scan makes fit in `u64`: the output tokens of the whole log,
/// and the context size of each assistant entry.
pub open spec fn scan_fits(es: Seq<Json>) -> bool {
    &&& scan(es).output <= u64::MAX
    &&& forall|i: int|
        0 <= i < es.len() && entry_type(#[trigger] es[i]) == "assistant"@ ==> entry_context(es[i])
            <= u64::MAX
}

/// Whether a scan of `entries` keeps its sums within `u64` (see
/// [`scan_fits`]): the test a caller makes before [`quick_scan`] and
/// [`session_stats`].
pub fn scan_fits_check(entries: &Vec<Json>) -> (r: bool)
    ensures
        r == scan_fits(entries@),
{
    let mut output: u64 = 0;
    let mut i: usize = 0;
    while i < entries.len()
        invariant
            i <= entries@.len(),
            output == scan(entries@.take(i as int)).output,
            forall|j: int|
                0 <= j < i && entry_type(#[trigger] entries@[j]) == "assistant"@ ==> entry_context(entries@[j])
                    <= u64::MAX,
        decreases entries@.len() - i,
    {
        proof {
            reveal_strlit("user");
            reveal_strlit("assistant");
            assert(entries@.take(i as int + 1).drop_last() =~= entries@.take(i as int));
            assert(entries@.take(i as int + 1).last() == entries@[i as int]);
            lemma_scan_output_grows(entries@, i as int + 1);
            assert(scan(entries@.take(i as int + 1)) == scan_step(scan(entries@.take(i as int)), entries@[i as int]));
        }
        let e = &entries[i];
        let t = entry_type_exec(e);
        if str_eq(t, "assistant") {
            let out = usage_number_exec(e, "output_tokens");
            proof {
                reveal_strlit("user");
                reveal_strlit("assistant");
                assert(entry_type(entries@[i as int]) == "assistant"@);
                assert(entry_output(entries@[i as int]) == or_zero(out));
                assert("assistant"@.len() != "user"@.len());
                let st = scan(entries@.take(i as int));
                assert(scan_step(st, entries@[i as int]).output == st.output + entry_output(entries@[i as int]));
            }
            assert(scan(entries@.take(i as int + 1)).output == output + or_zero(out));
            let input = usage_number_exec(e, "input_tokens");
            let cache = usage_number_exec(e, "cache_read_input_tokens");
            let a: u64 = match input {
                Some(x) => x,
                None => 0,
            };
            let b: u64 = match cache {
                Some(x) => x,
                None => 0,
            };
            if a.checked_add(b).is_none() {
                return false;
            }
            if let Some(o) = out {
                match output.checked_add(o) {
                    Some(x) => {
                        output = x;
                    },
                    None => {
                        return false;
                    },
                }
            }
        }
        i = i + 1;
    }
    proof {
        assert(entries@.take(entries@.len() as int) =~= entries@);
    }
    true
}

/// Whether the output tokens of a log add up to no more than `u64::MAX`:
/// the test a caller makes before summing them for billing.
pub fn scan_output_fits(entries: &Vec<Json>) -> (r: bool)
    ensures
        r == (scan(entries@).output <= u64::MAX),
{
    let mut output: u128 = 0;
    let mut i: usize = 0;
    while i < entries.len()
        invariant
            i <= entries@.len(),
            output == crate::api::context::capped(scan(entries@.take(i as int)).output),
        decreases entries@.len() - i,
    {
        proof {
            assert(entries@.take(i as int + 1).drop_last() =~= entries@.take(i as int));
            assert(entries@.take(i as int + 1).last() == entries@[i as int]);
            lemma_scan_output_grows(entries@, i as int + 1);
            lemma_scan_output_grows(entries@.take(i as int + 1), i as int);
            assert(entries@.take(i as int + 1).take(i as int) =~= entries@.take(i as int));
            assert(scan(entries@.take(i as int + 1)) == scan_step(scan(entries@.take(i as int)), entries@[i as int]));
        }
        let e = &entries[i];
        let t = entry_type_exec(e);
        if str_eq(t, "assistant") {
            let out = usage_number_exec(e, "output_tokens");
            proof {
                reveal_strlit("user");
                reveal_strlit("assistant");
                assert("assistant"@.len() != "user"@.len());
            }
            if let Some(o) = out {
                output = output.saturating_add(o as u128);
            }
        }
        i = i + 1;
    }
    proof {
        assert(entries@.take(entries@.len() as int) =~= entries@);
    }
    output <= u64::MAX as u128
}

/// Whether entry `e` is a user entry whose text gives a non-empty title.
pub open spec fn gives_title(e: Json) -> bool {
    &&& entry_type(e) == "user"@
    &&& user_text(e) is Some
    &&& title_of_text(user_text(e)->0) is Some
    &&& title_of_text(user_text(e)->0)->0.len() > 0
}

/// Once a scan has a title, later entries do not change it: the scan of a
/// whole log keeps the title that the scan of its first `i` entries found.
pub proof fn lemma_scan_title_stays(es: Seq<Json>, i: int)
    requires
        0 <= i <= es.len(),
        scan(es.take(i)).title.len() > 0,
    ensures
        scan(es).title == scan(es.take(i)).title,
    decreases es.len(),
{
    if i == es.len() {
        assert(es.take(i) =~= es);
    } else {
        assert(es.drop_last().take(i) =~= es.take(i));
        lemma_scan_title_stays(es.drop_last(), i);
    }
}

/// A log's title is that of its first user entry whose text gives one.
pub proof fn lemma_scan_title_first(es: Seq<Json>, k: int)
    requires
        0 <= k < es.len(),
        gives_title(es[k]),
        forall|j: int| 0 <= j < k ==> !gives_title(#[trigger] es[j]),
    ensures
        scan(es).title == title_of_text(user_text(es[k])->0)->0,
{
    lemma_scan_title_empty(es, k);
    assert(es.take(k + 1).drop_last() =~= es.take(k));
    assert(es.take(k + 1).last() == es[k]);
    reveal_strlit("user");
    lemma_scan_title_stays(es, k + 1);
}

proof fn lemma_scan_title_empty(es: Seq<Json>, n: int)
    requires
        0 <= n <= es.len(),
        forall|j: int| 0 <= j < n ==> !gives_title(#[trigger] es[j]),
    ensures
        scan(es.take(n)).title.len() == 0,
    decreases n,
{
    if n == 0 {
        assert(es.take(0) =~= Seq::<Json>::empty());
    } else {
        lemma_scan_title_empty(es, n - 1);
        assert(es.take(n).drop_last() =~= es.take(n - 1));
        assert(es.take(n).last() == es[n - 1]);
        assert(!gives_title(es[n - 1]));
    }
}

pub proof fn lemma_scan_output_grows(es: Seq<Json>, i: int)
    requires
        0 <= i <= es.len(),
    ensures
        0 <= scan(es.take(i)).output <= scan(es).output,
        scan(es.take(i)).user_turns <= i,
        scan(es.take(i)).assistant_turns <= i,
    decreases es.len(),
{
    if es.len() > 0 {
        if i == es.len() {
            assert(es.take(i) =~= es);
            lemma_scan_output_grows(es.drop_last(), i - 1);
            assert(es.drop_last().take(i - 1) =~= es.take(i - 1));
        } else {
            lemma_scan_output_grows(es.drop_last(), i);
            assert(es.drop_last().take(i) =~= es.take(i));
            lemma_scan_output_grows(es.drop_last(), es.len() - 1);
            assert(es.drop_last().take(es.len() - 1) =~= es.drop_last());
        }
    } else {
        assert(es.take(i) =~= es);
    }
}

/// What a quick look at a session log shows.
pub struct QuickSummary {
    pub title: String,
    pub model: Option<String>,
    pub line_count: usize,
    pub user_turns: usize,
    pub output_tokens: u64,
    pub context_size: u64,
}

/// The title a user's message gives a session, if any.
pub fn title_from(s: &str) -> (r: Option<String>)
    ensures
        match r {
            Some(t) => title_of_text(s@) == Some(t@),
            None => title_of_text(s@) is None,
        },
{
    let v = crate::text::chars_of(s);
    let t = crate::text::trim_chars(v.as_slice());
    let cmd = crate::text::chars_of("<command");
    let init = crate::text::chars_of("/init");
    if t.len() > 0 && !crate::textops::starts_with_chars(t.as_slice(), cmd.as_slice())
        && !crate::textops::starts_with_chars(t.as_slice(), init.as_slice()) {
        let n: usize = if t.len() <= 80 {
            t.len()
        } else {
            80
        };
        let cut = crate::text::slice_chars(t.as_slice(), 0, n);
        proof {
            if t@.len() <= 80 {
                assert(cut@ =~= t@);
            } else {
                assert(cut@ =~= t@.take(80));
            }
        }
        Some(crate::text::string_of(cut.as_slice()))
    } else {
        None
    }
}

fn usage_number_exec(e: &Json, key: &str) -> (r: Option<u64>)
    ensures
        r == usage_number(*e, key@),
{
    match json_get(e, "message") {
        Some(m) => match json_get(m, "usage") {
            Some(u) => json_get_u64(u, key),
            None => None,
        },
        None => None,
    }
}

fn user_text_exec(e: &Json) -> (r: Option<&String>)
    ensures
        match r {
            Some(s) => user_text(*e) == Some(s@),
            None => user_text(*e) is None,
        },
{
    match json_get(e, "message") {
        Some(m) => match json_get(m, "content") {
            Some(c) => match &c.value {
                JsonValue::Str(s) => Some(s),
                _ => None,
            },
            None => None,
        },
        None => None,
    }
}

fn entry_model_exec(e: &Json) -> (r: Option<&String>)
    ensures
        match r {
            Some(s) => entry_model(*e) == Some(s@),
            None => entry_model(*e) is None,
        },
{
    match json_get(e, "message") {
        Some(m) => json_get_str(m, "model"),
        None => None,
    }
}

fn entry_type_exec(e: &Json) -> (r: &str)
    ensures
        r@ == entry_type(*e),
{
    proof {
        reveal_strlit("");
    }
    match json_get_str(e, "type") {
        Some(t) => t.as_str(),
        None => "",
    }
}

/// A quick look at a session log: `entries` are its lines that parse as
/// JSON, `line_count` the number of all its lines.
pub fn quick_scan(entries: &Vec<Json>, line_count: usize) -> (r: QuickSummary)
    requires
        scan_fits(entries@),
    ensures
        r.title@ == final_title(scan(entries@).title),
        crate::text::opt_view(r.model) == scan(entries@).model,
        r.line_count == line_count,
        r.user_turns == scan(entries@).user_turns,
        r.output_tokens == scan(entries@).output,
        r.context_size == scan(entries@).context,
{
    let mut title = String::new();
    let mut model: Option<String> = None;
    let mut user_turns: usize = 0;
    let mut output: u64 = 0;
    let mut context: u64 = 0;
    let mut i: usize = 0;
    while i < entries.len()
        invariant
            i <= entries@.len(),
            scan_fits(entries@),
            title@ == scan(entries@.take(i as int)).title,
            crate::text::opt_view(model) == scan(entries@.take(i as int)).model,
            user_turns == scan(entries@.take(i as int)).user_turns,
            output == scan(entries@.take(i as int)).output,
            context == scan(entries@.take(i as int)).context,
        decreases entries@.len() - i,
    {
        proof {
            reveal_strlit("user");
            reveal_strlit("assistant");
            assert(entries@.take(i as int + 1).drop_last() =~= entries@.take(i as int));
            assert(entries@.take(i as int + 1).last() == entries@[i as int]);
            lemma_scan_output_grows(entries@, i as int + 1);
        }
        let e = &entries[i];
        let t = entry_type_exec(e);
        if str_eq(t, "user") {
            if let Some(s) = user_text_exec(e) {
                user_turns = user_turns + 1;
                if title.as_str().is_empty() {
                    if let Some(x) = title_from(s.as_str()) {
                        title = x;
                    }
                }
            }
        } else if str_eq(t, "assistant") {
            let out = usage_number_exec(e, "output_tokens");
            let input = usage_number_exec(e, "input_tokens");
            let cache = usage_number_exec(e, "cache_read_input_tokens");
            if let Some(o) = out {
                output = output + o;
            }
            let a: u64 = match input {
                Some(x) => x,
                None => 0,
            };
            let b: u64 = match cache {
                Some(x) => x,
                None => 0,
            };
            assert(entry_context(entries@[i as int]) <= u64::MAX);
            if a + b > 0 {
                context = a + b;
            }
            if let Some(m) = entry_model_exec(e) {
                model = Some(m.clone());
            }
        }
        i = i + 1;
    }
    proof {
        assert(entries@.take(entries@.len() as int) =~= entries@);
    }
    if title.as_str().is_empty() {
        title = "(no title)".to_string();
    }
    QuickSummary { title, model, line_count, user_turns, output_tokens: output, context_size: context }
}


/// The instant an RFC 3339 timestamp names, in seconds since the Unix epoch
/// (`None` when the text is not such a timestamp).
pub uninterp spec fn rfc3339_seconds(text: Seq<char>) -> Option<i64>;

/// chrono's `DateTime::parse_from_rfc3339`, then `timestamp()`: the Unix
/// seconds of an RFC 3339 timestamp, `None` where chrono refuses the text.
/// The result is named, not stated: it depends on the text alone.
#[verifier::external_body]
fn parse_rfc3339_seconds(text: &str) -> (r: Option<i64>)
    ensures
        r == rfc3339_seconds(text@),
{
    chrono::DateTime::parse_from_rfc3339(text).ok().map(|dt| dt.timestamp())
}

/// What a scan gathers besides the counts: where and when the session
/// started, the models it used, its tool calls and the files it touched.
pub struct ExtraView {
    pub cwd: Option<Seq<char>>,
    pub started: Option<u64>,
    pub models: Set<Seq<char>>,
    /// The name of every tool call, in order.
    pub tools: Seq<Seq<char>>,
    pub read: Set<Seq<char>>,
    pub edited: Set<Seq<char>>,
}

pub open spec fn extra_start() -> ExtraView {
    ExtraView {
        cwd: None,
        started: None,
        models: Set::empty(),
        tools: seq![],
        read: Set::empty(),
        edited: Set::empty(),
    }
}

/// The `file_path` of a tool call's input.
pub open spec fn input_path(b: Json) -> Option<Seq<char>> {
    match get(b, "input"@) {
        Some(i) => get_str(i, "file_path"@),
        None => None,
    }
}

/// The name of a tool call ("?" when it has none).
pub open spec fn tool_name_of(b: Json) -> Seq<char> {
    match get_str(b, "name"@) {
        Some(n) => n,
        None => "?"@,
    }
}

/// One content block's effect: a `tool_use` block counts a call of its
/// tool; `Read` records a file read, `Edit` and `Write` a file edited.
pub open spec fn block_step(st: ExtraView, b: Json) -> ExtraView {
    if get_str(b, "type"@) == Some("tool_use"@) {
        let name = tool_name_of(b);
        let st1 = ExtraView { tools: st.tools.push(name), ..st };
        match input_path(b) {
            Some(p) => if name == "Read"@ {
                ExtraView { read: st1.read.insert(p), ..st1 }
            } else if name == "Edit"@ || name == "Write"@ {
                ExtraView { edited: st1.edited.insert(p), ..st1 }
            } else {
                st1
            },
            None => st1,
        }
    } else {
        st
    }
}

pub open spec fn blocks_scan(st: ExtraView, arr: Seq<Json>) -> ExtraView
    decreases arr.len(),
{
    if arr.len() == 0 {
        st
    } else {
        block_step(blocks_scan(st, arr.drop_last()), arr.last())
    }
}

/// The content blocks of an entry's message, when they are an array.
pub open spec fn message_blocks(e: Json) -> Seq<Json> {
    match get2(e, "message"@, "content"@) {
        Some(c) => match c.value {
            JsonValue::Array(a) => a@,
            _ => seq![],
        },
        None => seq![],
    }
}

/// One entry's effect: the first `system` entries give the working
/// directory and the start time; `assistant` entries give models and tool
/// calls.
pub open spec fn extra_step(st: ExtraView, e: Json) -> ExtraView {
    let t = entry_type(e);
    if t == "system"@ {
        ExtraView {
            cwd: if st.cwd is None {
                get_str(e, "cwd"@)
            } else {
                st.cwd
            },
            started: if st.started is None {
                match get_str(e, "timestamp"@) {
                    Some(ts) => match rfc3339_seconds(ts) {
                        Some(x) => Some(x as u64),
                        None => None,
                    },
                    None => None,
                }
            } else {
                st.started
            },
            ..st
        }
    } else if t == "assistant"@ {
        let st1 = match entry_model(e) {
            Some(m) => ExtraView { models: st.models.insert(m), ..st },
            None => st,
        };
        blocks_scan(st1, message_blocks(e))
    } else {
        st
    }
}

pub open spec fn extra_scan(es: Seq<Json>) -> ExtraView
    decreases es.len(),
{
    if es.len() == 0 {
        extra_start()
    } else {
        extra_step(extra_scan(es.drop_last()), es.last())
    }
}

/// `names` and `counts` count the calls in `calls` per tool: the names are
/// distinct, each is called as often as its count says, and every called
/// tool is among them.
pub open spec fn counts_calls(names: Seq<String>, counts: Seq<usize>, calls: Seq<Seq<char>>) -> bool {
    &&& names.len() == counts.len()
    &&& count_sum(counts) == calls.len()
    &&& forall|j: int, k: int| 0 <= j < k < names.len() ==> names[j]@ != names[k]@
    &&& forall|k: int|
        0 <= k < names.len() ==> #[trigger] counts[k] == calls.to_multiset().count(names[k]@)
    &&& forall|k: int| 0 <= k < names.len() ==> #[trigger] counts[k] <= calls.len()
    &&& forall|n: Seq<char>| calls.contains(n) ==> exists|k: int| 0 <= k < names.len() && #[trigger] names[k]@ == n
}

/// The sum of a list of counts.
pub open spec fn count_sum(counts: Seq<usize>) -> int
    decreases counts.len(),
{
    if counts.len() == 0 {
        0
    } else {
        count_sum(counts.drop_last()) + counts.last()
    }
}

proof fn lemma_count_sum_update(counts: Seq<usize>, k: int, v: usize)
    requires
        0 <= k < counts.len(),
    ensures
        count_sum(counts.update(k, v)) == count_sum(counts) - counts[k] + v,
    decreases counts.len(),
{
    if k == counts.len() - 1 {
        assert(counts.update(k, v).drop_last() =~= counts.drop_last());
    } else {
        assert(counts.update(k, v).drop_last() =~= counts.drop_last().update(k, v));
        lemma_count_sum_update(counts.drop_last(), k, v);
    }
}

/// `v` holds the elements of `s`, strictly sorted.
pub open spec fn sorted_set(v: Seq<Vec<char>>, s: Set<Seq<char>>) -> bool {
    &&& crate::order::strictly_sorted(crate::textops::views(v))
    &&& crate::textops::views(v).to_set() == s
}

/// Count one more call of `name`.
fn count_call(names: &mut Vec<String>, counts: &mut Vec<usize>, name: String, Ghost(calls): Ghost<Seq<Seq<char>>>)
    requires
        counts_calls(old(names)@, old(counts)@, calls),
        calls.len() < usize::MAX,
    ensures
        counts_calls(final(names)@, final(counts)@, calls.push(name@)),
{
    broadcast use vstd::seq_lib::group_to_multiset_ensures;
    let ghost new_calls = calls.push(name@);
    let mut k: usize = 0;
    while k < names.len()
        invariant
            k <= names@.len(),
            names@ == old(names)@,
            counts@ == old(counts)@,
            counts_calls(names@, counts@, calls),
            new_calls == calls.push(name@),
            calls.len() < usize::MAX,
            forall|j: int| 0 <= j < k ==> names@[j]@ != name@,
        decreases names@.len() - k,
    {
        if str_eq(names[k].as_str(), name.as_str()) {
            let c = counts[k];
            proof {
                lemma_count_sum_update(counts@, k as int, (c + 1) as usize);
            }
            counts.set(k, c + 1);
            proof {
                vstd::seq_lib::to_multiset_build(calls, name@);
                assert forall|j: int| 0 <= j < names@.len() implies #[trigger] counts@[j]
                    == new_calls.to_multiset().count(names@[j]@) by {
                    assert(new_calls.to_multiset() =~= calls.to_multiset().insert(name@));
                }
                assert forall|n: Seq<char>| new_calls.contains(n) implies exists|j: int|
                    0 <= j < names@.len() && #[trigger] names@[j]@ == n by {
                    if n == name@ {
                        assert(names@[k as int]@ == n);
                    } else {
                        let i = choose|i: int| 0 <= i < new_calls.len() && new_calls[i] == n;
                        assert(calls[i] == n);
                        assert(calls.contains(n));
                    }
                }
            }
            return;
        }
        k = k + 1;
    }
    proof {
        assert(!calls.contains(name@));
        assert(calls.to_multiset().count(name@) == 0);
        assert(new_calls.to_multiset() =~= calls.to_multiset().insert(name@));
    }
    let ghost nm = name@;
    names.push(name);
    let ghost counts0 = counts@;
    counts.push(1);
    proof {
        assert(counts@.drop_last() =~= counts0);
        assert forall|j: int| 0 <= j < names@.len() implies #[trigger] counts@[j]
            == new_calls.to_multiset().count(names@[j]@) by {
            if j < names@.len() - 1 {
                assert(names@[j]@ != nm);
            }
        }
        assert forall|n: Seq<char>| new_calls.contains(n) implies exists|j: int|
            0 <= j < names@.len() && #[trigger] names@[j]@ == n by {
            if n == nm {
                assert(names@[names@.len() - 1]@ == n);
            } else {
                let i = choose|i: int| 0 <= i < new_calls.len() && new_calls[i] == n;
                assert(calls[i] == n);
                assert(calls.contains(n));
                let j = choose|j: int| 0 <= j < old(names)@.len() && #[trigger] old(names)@[j]@ == n;
                assert(names@[j]@ == n);
            }
        }
    }
}


/// The running state of a scan's exec side follows `st`.
pub open spec fn tracks(
    names: Seq<String>,
    counts: Seq<usize>,
    read: Seq<Vec<char>>,
    edited: Seq<Vec<char>>,
    st: ExtraView,
) -> bool {
    &&& counts_calls(names, counts, st.tools)
    &&& sorted_set(read, st.read)
    &&& sorted_set(edited, st.edited)
}

/// Content blocks change only the calls and the files of a scan.
pub proof fn lemma_blocks_keep(st: ExtraView, arr: Seq<Json>)
    ensures
        blocks_scan(st, arr).cwd == st.cwd,
        blocks_scan(st, arr).started == st.started,
        blocks_scan(st, arr).models == st.models,
    decreases arr.len(),
{
    if arr.len() > 0 {
        lemma_blocks_keep(st, arr.drop_last());
    }
}

pub proof fn lemma_blocks_calls_grow(st: ExtraView, arr: Seq<Json>, i: int)
    requires
        0 <= i <= arr.len(),
    ensures
        blocks_scan(st, arr.take(i)).tools.len() <= blocks_scan(st, arr).tools.len(),
        st.tools.len() <= blocks_scan(st, arr.take(i)).tools.len(),
    decreases arr.len(),
{
    if arr.len() > 0 {
        if i == arr.len() {
            assert(arr.take(i) =~= arr);
        }
        else {
            lemma_blocks_calls_grow(st, arr.drop_last(), i);
            assert(arr.drop_last().take(i) =~= arr.take(i));
            lemma_blocks_calls_grow(st, arr.drop_last(), arr.len() - 1);
            assert(arr.drop_last().take(arr.len() - 1) =~= arr.drop_last());
        }
        lemma_blocks_calls_grow(st, arr.drop_last(), arr.len() - 1);
        assert(arr.drop_last().take(arr.len() - 1) =~= arr.drop_last());
    } else {
        assert(arr.take(i) =~= arr);
    }
}

pub proof fn lemma_extra_calls_grow(es: Seq<Json>, i: int)
    requires
        0 <= i <= es.len(),
    ensures
        extra_scan(es.take(i)).tools.len() <= extra_scan(es).tools.len(),
    decreases es.len(),
{
    if es.len() > 0 {
        if i == es.len() {
            assert(es.take(i) =~= es);
        } else {
            lemma_extra_calls_grow(es.drop_last(), i);
            assert(es.drop_last().take(i) =~= es.take(i));
            let st = extra_scan(es.drop_last());
            let st1 = match entry_model(es.last()) {
                Some(m) => ExtraView { models: st.models.insert(m), ..st },
                None => st,
            };
            lemma_blocks_calls_grow(st1, message_blocks(es.last()), 0);
            assert(es.drop_last() =~= es.drop_last().take(es.len() - 1));
        }
    } else {
        assert(es.take(i) =~= es);
    }
}

fn scan_block(
    b: &Json,
    names: &mut Vec<String>,
    counts: &mut Vec<usize>,
    read: &mut Vec<Vec<char>>,
    edited: &mut Vec<Vec<char>>,
    Ghost(st): Ghost<ExtraView>,
)
    requires
        tracks(old(names)@, old(counts)@, old(read)@, old(edited)@, st),
        get_str(*b, "type"@) == Some("tool_use"@) ==> st.tools.len() < usize::MAX,
    ensures
        tracks(final(names)@, final(counts)@, final(read)@, final(edited)@, block_step(st, *b)),
{
    let is_tool = match json_get_str(b, "type") {
        Some(t) => str_eq(t.as_str(), "tool_use"),
        None => false,
    };
    if !is_tool {
        return ;
    }
    let name: String = match json_get_str(b, "name") {
        Some(n) => n.clone(),
        None => "?".to_string(),
    };
    let path = match json_get(b, "input") {
        Some(i) => json_get_str(i, "file_path"),
        None => None,
    };
    let is_read = str_eq(name.as_str(), "Read");
    let is_edit = str_eq(name.as_str(), "Edit") || str_eq(name.as_str(), "Write");
    count_call(names, counts, name, Ghost(st.tools));
    if let Some(p) = path {
        if is_read {
            crate::order::insert_sorted_unique(read, crate::text::chars_of(p.as_str()));
        } else if is_edit {
            crate::order::insert_sorted_unique(edited, crate::text::chars_of(p.as_str()));
        }
    }
}

fn scan_blocks(
    arr: &Vec<Json>,
    names: &mut Vec<String>,
    counts: &mut Vec<usize>,
    read: &mut Vec<Vec<char>>,
    edited: &mut Vec<Vec<char>>,
    Ghost(st): Ghost<ExtraView>,
)
    requires
        tracks(old(names)@, old(counts)@, old(read)@, old(edited)@, st),
        blocks_scan(st, arr@).tools.len() <= usize::MAX,
    ensures
        tracks(final(names)@, final(counts)@, final(read)@, final(edited)@, blocks_scan(st, arr@)),
{
    let mut i: usize = 0;
    proof {
        assert(arr@.take(0) =~= Seq::<Json>::empty());
    }
    while i < arr.len()
        invariant
            i <= arr@.len(),
            blocks_scan(st, arr@).tools.len() <= usize::MAX,
            tracks(names@, counts@, read@, edited@, blocks_scan(st, arr@.take(i as int))),
        decreases arr@.len() - i,
    {
        proof {
            assert(arr@.take(i as int + 1).drop_last() =~= arr@.take(i as int));
            assert(arr@.take(i as int + 1).last() == arr@[i as int]);
            lemma_blocks_calls_grow(st, arr@, i as int + 1);
            let pre = blocks_scan(st, arr@.take(i as int));
            let b = arr@[i as int];
            if get_str(b, "type"@) == Some("tool_use"@) {
                assert(block_step(pre, b).tools.len() == pre.tools.len() + 1);
            }
        }
        scan_block(&arr[i], names, counts, read, edited, Ghost(blocks_scan(st, arr@.take(i as int))));
        i = i + 1;
    }
    proof {
        assert(arr@.take(arr@.len() as int) =~= arr@);
    }
}

/// The strings that `v` holds as characters.
fn strings_of(v: &Vec<Vec<char>>) -> (r: Vec<String>)
    ensures
        crate::ingester::string_views(r@) == crate::textops::views(v@),
{
    let mut r: Vec<String> = Vec::new();
    let mut j: usize = 0;
    while j < v.len()
        invariant
            j <= v@.len(),
            r@.len() == j,
            forall|k: int| 0 <= k < j ==> #[trigger] r@[k]@ == v@[k]@,
        decreases v@.len() - j,
    {
        r.push(crate::text::string_of(v[j].as_slice()));
        j = j + 1;
    }
    proof {
        assert(crate::ingester::string_views(r@) =~= crate::textops::views(v@));
    }
    r
}

/// The tool-call table as (name, count) pairs.
pub open spec fn table_of(t: Seq<(String, usize)>) -> (Seq<String>, Seq<usize>) {
    (t.map_values(|p: (String, usize)| p.0), t.map_values(|p: (String, usize)| p.1))
}

proof fn lemma_table_sum(t: Seq<(String, usize)>, counts: Seq<usize>)
    requires
        t.len() == counts.len(),
        forall|k: int| 0 <= k < t.len() ==> #[trigger] t[k].1 == counts[k],
    ensures
        all_calls(t) == count_sum(counts),
    decreases t.len(),
{
    if t.len() > 0 {
        lemma_table_sum(t.drop_last(), counts.drop_last());
    }
}

fn zip_table(names: Vec<String>, counts: &Vec<usize>) -> (r: Vec<(String, usize)>)
    requires
        names@.len() == counts@.len(),
    ensures
        r@.len() == names@.len(),
        forall|k: int| 0 <= k < r@.len() ==> #[trigger] r@[k].0@ == names@[k]@ && r@[k].1 == counts@[k],
        all_calls(r@) == count_sum(counts@),
{
    let mut r: Vec<(String, usize)> = Vec::new();
    let mut j: usize = 0;
    while j < names.len()
        invariant
            j <= names@.len() == counts@.len(),
            r@.len() == j,
            forall|k: int| 0 <= k < j ==> #[trigger] r@[k].0@ == names@[k]@ && r@[k].1 == counts@[k],
        decreases names@.len() - j,
    {
        r.push((names[j].clone(), counts[j]));
        j = j + 1;
    }
    proof {
        assert forall|k: int| 0 <= k < r@.len() implies #[trigger] r@[k].1 == counts@[k] by {
            assert(r@[k].0@ == names@[k]@);
        }
        lemma_table_sum(r@, counts@);
    }
    r
}

/// `t` counts the calls in `calls` per tool: its names are distinct, each
/// count is how often its tool is called, and every called tool is listed.
pub open spec fn tool_table(t: Seq<(String, usize)>, calls: Seq<Seq<char>>) -> bool {
    &&& all_calls(t) == calls.len()
    &&& forall|j: int, k: int| 0 <= j < k < t.len() ==> t[j].0@ != t[k].0@
    &&& forall|k: int|
        0 <= k < t.len() ==> #[trigger] t[k].1 == calls.to_multiset().count(t[k].0@)
    &&& forall|n: Seq<char>| calls.contains(n) ==> exists|k: int| 0 <= k < t.len() && #[trigger] t[k].0@ == n
}

/// The exec side of a statistics scan.
struct StatsAcc {
    cwd: Option<String>,
    started: Option<u64>,
    models: Vec<Vec<char>>,
    names: Vec<String>,
    counts: Vec<usize>,
    read: Vec<Vec<char>>,
    edited: Vec<Vec<char>>,
    assistant_turns: usize,
}

/// `acc` follows the scans `st` and `sc`.
spec fn acc_tracks(acc: StatsAcc, st: ExtraView, sc: ScanView) -> bool {
    &&& crate::text::opt_view(acc.cwd) == st.cwd
    &&& acc.started == st.started
    &&& sorted_set(acc.models@, st.models)
    &&& tracks(acc.names@, acc.counts@, acc.read@, acc.edited@, st)
    &&& acc.assistant_turns == sc.assistant_turns
}

fn stats_entry(acc: &mut StatsAcc, e: &Json, Ghost(st): Ghost<ExtraView>, Ghost(sc): Ghost<ScanView>)
    requires
        acc_tracks(*old(acc), st, sc),
        extra_step(st, *e).tools.len() <= usize::MAX,
        scan_step(sc, *e).assistant_turns <= usize::MAX,
    ensures
        acc_tracks(*final(acc), extra_step(st, *e), scan_step(sc, *e)),
{
    proof {
        reveal_strlit("system");
        reveal_strlit("assistant");
        reveal_strlit("user");
        assert("assistant"@.len() != "user"@.len());
        assert("system"@.len() != "user"@.len());
        assert("system"@.len() != "assistant"@.len());
    }
    let t = entry_type_exec(e);
    if str_eq(t, "system") {
        if acc.cwd.is_none() {
            acc.cwd = match json_get_str(e, "cwd") {
                Some(c) => Some(c.clone()),
                None => None,
            };
        }
        if acc.started.is_none() {
            if let Some(ts) = json_get_str(e, "timestamp") {
                acc.started = match parse_rfc3339_seconds(ts.as_str()) {
                    Some(x) => Some(#[verifier::truncate] (x as u64)),
                    None => None,
                };
            }
        }
    } else if str_eq(t, "assistant") {
        acc.assistant_turns = acc.assistant_turns + 1;
        if let Some(m) = entry_model_exec(e) {
            crate::order::insert_sorted_unique(&mut acc.models, crate::text::chars_of(m.as_str()));
        }
        let ghost st1 = match entry_model(*e) {
            Some(m) => ExtraView { models: st.models.insert(m), ..st },
            None => st,
        };
        let content = match json_get(e, "message") {
            Some(m) => json_get(m, "content"),
            None => None,
        };
        match content {
            Some(c) => match &c.value {
                JsonValue::Array(arr) => {
                    scan_blocks(
                        arr,
                        &mut acc.names,
                        &mut acc.counts,
                        &mut acc.read,
                        &mut acc.edited,
                        Ghost(st1),
                    );
                },
                _ => {},
            },
            None => {},
        }
        proof {
            if message_blocks(*e).len() == 0 {
                assert(blocks_scan(st1, message_blocks(*e)) == st1);
            }
        }
        proof {
            lemma_blocks_keep(st1, message_blocks(*e));
        }
    }
}

/// The statistics of one session. `entries` are the log's lines that parse
/// as JSON; `active` and `last_activity` come from the file's modification
/// time. `suggestions` is left empty: the caller adds them.
pub fn session_stats(
    session_id: String,
    entries: &Vec<Json>,
    active: bool,
    last_activity: Option<u64>,
) -> (r: SessionStats)
    requires
        scan_fits(entries@),
        extra_scan(entries@).tools.len() <= usize::MAX,
    ensures
        r.session_id@ == session_id@,
        r.title@ == final_title(scan(entries@).title),
        crate::text::opt_view(r.model) == scan(entries@).model,
        r.user_turns == scan(entries@).user_turns,
        r.assistant_turns == scan(entries@).assistant_turns,
        r.total_output_tokens == scan(entries@).output,
        r.context_size == scan(entries@).context,
        crate::text::opt_view(r.cwd) == extra_scan(entries@).cwd,
        r.started_at == extra_scan(entries@).started,
        crate::ingester::string_views(r.models_used@) == crate::order::sorted_elements(extra_scan(entries@).models),
        tool_table(r.tools@, extra_scan(entries@).tools),
        crate::ingester::string_views(r.files_read@) == crate::order::sorted_elements(extra_scan(entries@).read),
        crate::ingester::string_views(r.files_edited@) == crate::order::sorted_elements(extra_scan(entries@).edited),
        r.active == active,
        r.last_activity == last_activity,
        r.suggestions@.len() == 0,
{
    let quick = quick_scan(entries, 0);
    let mut acc = StatsAcc {
        cwd: None,
        started: None,
        models: Vec::new(),
        names: Vec::new(),
        counts: Vec::new(),
        read: Vec::new(),
        edited: Vec::new(),
        assistant_turns: 0,
    };
    let mut i: usize = 0;
    proof {
        assert(entries@.take(0) =~= Seq::<Json>::empty());
        assert(crate::textops::views(acc.models@).to_set() =~= Set::empty());
        assert(crate::textops::views(acc.read@).to_set() =~= Set::empty());
        assert(crate::textops::views(acc.edited@).to_set() =~= Set::empty());
    }
    while i < entries.len()
        invariant
            i <= entries@.len(),
            extra_scan(entries@).tools.len() <= usize::MAX,
            acc_tracks(acc, extra_scan(entries@.take(i as int)), scan(entries@.take(i as int))),
        decreases entries@.len() - i,
    {
        proof {
            assert(entries@.take(i as int + 1).drop_last() =~= entries@.take(i as int));
            assert(entries@.take(i as int + 1).last() == entries@[i as int]);
            lemma_extra_calls_grow(entries@, i as int + 1);
            lemma_scan_output_grows(entries@, i as int + 1);
        }
        stats_entry(
            &mut acc,
            &entries[i],
            Ghost(extra_scan(entries@.take(i as int))),
            Ghost(scan(entries@.take(i as int))),
        );
        i = i + 1;
    }
    proof {
        assert(entries@.take(entries@.len() as int) =~= entries@);
        crate::order::lemma_sorted_elements(crate::textops::views(acc.models@));
        crate::order::lemma_sorted_elements(crate::textops::views(acc.read@));
        crate::order::lemma_sorted_elements(crate::textops::views(acc.edited@));
    }
    let tools = zip_table(acc.names, &acc.counts);
    proof {
        let calls = extra_scan(entries@).tools;
        assert forall|j: int, k: int| 0 <= j < k < tools@.len() implies tools@[j].0@ != tools@[k].0@ by {
            assert(acc.names@[j]@ != acc.names@[k]@);
        }
        assert forall|k: int| 0 <= k < tools@.len() implies #[trigger] tools@[k].1
            == calls.to_multiset().count(tools@[k].0@) by {
            assert(acc.counts@[k] == calls.to_multiset().count(acc.names@[k]@));
        }
        assert forall|n: Seq<char>| calls.contains(n) implies exists|k: int|
            0 <= k < tools@.len() && #[trigger] tools@[k].0@ == n by {
            let k = choose|k: int| 0 <= k < acc.names@.len() && #[trigger] acc.names@[k]@ == n;
            assert(tools@[k].0@ == n);
        }
    }
    SessionStats {
        session_id,
        title: quick.title,
        cwd: acc.cwd,
        model: quick.model,
        models_used: strings_of(&acc.models),
        active,
        user_turns: quick.user_turns,
        assistant_turns: acc.assistant_turns,
        total_output_tokens: quick.output_tokens,
        context_size: quick.context_size,
        tools,
        files_read: strings_of(&acc.read),
        files_edited: strings_of(&acc.edited),
        started_at: acc.started,
        last_activity,
        suggestions: Vec::new(),
    }
}

} // verus!

verus! {

use crate::textops::{decimal, decimal_chars};

/// Calls of `name` in a tool table (its first row for `name`, else 0).
pub open spec fn calls_of(t: Seq<(String, usize)>, name: Seq<char>) -> int
    decreases t.len(),
{
    if t.len() == 0 {
        0
    } else if t[0].0@ == name {
        t[0].1 as int
    } else {
        calls_of(t.drop_first(), name)
    }
}

/// All calls of a tool table.
pub open spec fn all_calls(t: Seq<(String, usize)>) -> int
    decreases t.len(),
{
    if t.len() == 0 {
        0
    } else {
        all_calls(t.drop_last()) + t.last().1 as int
    }
}

/// How often `Edit` was called, and how many tool calls there were.
pub fn edit_and_total_calls(tools: &Vec<(String, usize)>) -> (r: (usize, usize))
    requires
        all_calls(tools@) <= usize::MAX,
    ensures
        r.0 == calls_of(tools@, "Edit"@),
        r.1 == all_calls(tools@),
{
    let mut edits: Option<usize> = None;
    let mut total: usize = 0;
    let mut i: usize = 0;
    proof {
        assert(tools@.skip(0) =~= tools@);
    }
    while i < tools.len()
        invariant
            i <= tools@.len(),
            all_calls(tools@) <= usize::MAX,
            total == all_calls(tools@.take(i as int)),
            match edits {
                Some(e) => e == calls_of(tools@, "Edit"@),
                None => calls_of(tools@, "Edit"@) == calls_of(tools@.skip(i as int), "Edit"@),
            },
        decreases tools@.len() - i,
    {
        proof {
            assert(tools@.take(i as int + 1).drop_last() =~= tools@.take(i as int));
            assert(tools@.skip(i as int).drop_first() =~= tools@.skip(i as int + 1));
            assert(tools@.skip(i as int)[0] == tools@[i as int]);
            lemma_all_calls_prefix(tools@, i as int + 1);
        }
        if edits.is_none() && str_eq(tools[i].0.as_str(), "Edit") {
            edits = Some(tools[i].1);
        }
        total = total + tools[i].1;
        i = i + 1;
    }
    proof {
        assert(tools@.take(tools@.len() as int) =~= tools@);
    }
    let e = match edits {
        Some(e) => e,
        None => {
            proof {
                assert(tools@.skip(i as int) =~= Seq::<(String, usize)>::empty());
            }
            0
        },
    };
    (e, total)
}

proof fn lemma_all_calls_prefix(t: Seq<(String, usize)>, i: int)
    requires
        0 <= i <= t.len(),
    ensures
        all_calls(t.take(i)) <= all_calls(t),
    decreases t.len(),
{
    if i < t.len() {
        lemma_all_calls_prefix(t.drop_last(), i);
        assert(t.drop_last().take(i) =~= t.take(i));
    } else {
        assert(t.take(i) =~= t);
    }
}

/// The suggestions for a busy session that need no floating point: many
/// edits (over 20), many tool calls (over 100).
pub open spec fn busy_suggestions(edit_count: nat, total_calls: nat) -> Seq<Seq<char>> {
    let a: Seq<Seq<char>> = if edit_count > 20 {
        seq![decimal(edit_count) + " edits this session — high churn"@]
    } else {
        seq![]
    };
    if total_calls > 100 {
        a.push(decimal(total_calls) + " tool calls — busy session"@)
    } else {
        a
    }
}

/// The suggestions for a busy session that need no floating point.
pub fn usage_suggestions(edit_count: u64, total_calls: u64) -> (r: Vec<String>)
    ensures
        crate::ingester::string_views(r@) == busy_suggestions(edit_count as nat, total_calls as nat),
{
    let mut r: Vec<String> = Vec::new();
    if edit_count > 20 {
        let mut v = decimal_chars(edit_count);
        crate::text::extend_str(&mut v, " edits this session — high churn");
        r.push(crate::text::string_of(v.as_slice()));
    }
    if total_calls > 100 {
        let mut v = decimal_chars(total_calls);
        crate::text::extend_str(&mut v, " tool calls — busy session");
        r.push(crate::text::string_of(v.as_slice()));
    }
    proof {
        assert(crate::ingester::string_views(r@) =~= busy_suggestions(edit_count as nat, total_calls as nat));
    }
    r
}

} // verus!
