//! Parsing and cleaning of session transcripts.

pub mod filter;
pub mod parser;
pub mod mermaid;
pub mod compression;

use vstd::prelude::*;

verus! {

/// A single meaningful message extracted from a session log.
pub struct DigestMessage {
    /// "user", "assistant", "tool_use", "tool_result", ...
    pub role: String,
    pub content: String,
    /// For tool_use/tool_result: the tool name.
    pub tool_name: String,
    /// File paths mentioned in the content.
    pub files_mentioned: Vec<String>,
}

/// The mathematical value of a [`DigestMessage`].
pub struct MessageView {
    pub role: Seq<char>,
    pub content: Seq<char>,
    pub tool_name: Seq<char>,
    pub files_mentioned: Seq<Seq<char>>,
}

/// The character views of a sequence of strings.
pub open spec fn string_views(v: Seq<String>) -> Seq<Seq<char>> {
    v.map_values(|s: String| s@)
}

impl View for DigestMessage {
    type V = MessageView;

    open spec fn view(&self) -> MessageView {
        MessageView {
            role: self.role@,
            content: self.content@,
            tool_name: self.tool_name@,
            files_mentioned: string_views(self.files_mentioned@),
        }
    }
}

/// The views of a sequence of messages.
pub open spec fn message_views(v: Seq<DigestMessage>) -> Seq<MessageView> {
    v.map_values(|m: DigestMessage| m@)
}

/// A copy of a list of strings.
pub fn clone_strings(v: &Vec<String>) -> (r: Vec<String>)
    ensures
        string_views(r@) == string_views(v@),
{
    let mut r: Vec<String> = Vec::new();
    let mut i: usize = 0;
    while i < v.len()
        invariant
            i <= v@.len(),
            r@.len() == i,
            forall|j: int| 0 <= j < i ==> #[trigger] r@[j]@ == v@[j]@,
        decreases v@.len() - i,
    {
        let s = v[i].clone();
        r.push(s);
        i = i + 1;
    }
    proof {
        assert(string_views(r@) =~= string_views(v@));
    }
    r
}

impl DigestMessage {
    /// A copy of this message.
    pub fn copy(&self) -> (r: DigestMessage)
        ensures
            r@ == self@,
    {
        DigestMessage {
            role: self.role.clone(),
            content: self.content.clone(),
            tool_name: self.tool_name.clone(),
            files_mentioned: clone_strings(&self.files_mentioned),
        }
    }
}

} // verus!

verus! {

/// A cleaned, compressed representation of a session transcript; what the
/// extraction operates on. (The compression ratio, a float, is computed by
/// the caller from the two estimates.)
pub struct Digest {
    pub messages: Vec<DigestMessage>,
    /// Estimated token count of the digest (content bytes / 4).
    pub token_estimate: usize,
    /// Token estimate of the raw input before cleaning (bytes / 4).
    pub raw_token_estimate: usize,
}

/// The text of one message as the extraction prompt shows it.
pub open spec fn message_line(m: MessageView) -> Seq<char> {
    "["@ + m.role + "] "@ + m.content + (if m.tool_name.len() > 0 {
        " (tool: "@ + m.tool_name + ")"@
    } else {
        seq![]
    }) + "\n"@
}

/// The messages rendered one per line.
pub open spec fn digest_text(ms: Seq<MessageView>) -> Seq<char>
    decreases ms.len(),
{
    if ms.len() == 0 {
        seq![]
    } else {
        digest_text(ms.drop_last()) + message_line(ms.last())
    }
}

/// Total content bytes of the messages.
pub open spec fn content_bytes(ms: Seq<MessageView>) -> nat
    decreases ms.len(),
{
    if ms.len() == 0 {
        0
    } else {
        content_bytes(ms.drop_last()) + crate::text::byte_len(ms.last().content)
    }
}

impl Digest {
    /// Render the digest as plain text for the extraction prompts.
    pub fn to_text(&self) -> (r: String)
        ensures
            r@ == digest_text(message_views(self.messages@)),
    {
        let ghost ms = message_views(self.messages@);
        let mut out: Vec<char> = Vec::new();
        let mut i: usize = 0;
        while i < self.messages.len()
            invariant
                i <= self.messages@.len(),
                ms == message_views(self.messages@),
                out@ == digest_text(ms.take(i as int)),
            decreases self.messages@.len() - i,
        {
            proof {
                assert(ms.take(i as int + 1).drop_last() =~= ms.take(i as int));
            }
            let msg = &self.messages[i];
            crate::text::extend_str(&mut out, "[");
            crate::text::extend_str(&mut out, msg.role.as_str());
            crate::text::extend_str(&mut out, "] ");
            crate::text::extend_str(&mut out, msg.content.as_str());
            if crate::text::chars_of(msg.tool_name.as_str()).len() > 0 {
                crate::text::extend_str(&mut out, " (tool: ");
                crate::text::extend_str(&mut out, msg.tool_name.as_str());
                crate::text::extend_str(&mut out, ")");
            }
            crate::text::extend_str(&mut out, "\n");
            proof {
                assert(ms[i as int] == msg@);
                assert(out@ =~= digest_text(ms.take(i as int)) + message_line(msg@));
            }
            i = i + 1;
        }
        proof {
            assert(ms.take(self.messages@.len() as int) =~= ms);
        }
        crate::text::string_of(out.as_slice())
    }
}

/// A digest of filtered messages, with the token estimates of the digest and
/// of a raw log of `raw_bytes` bytes.
pub fn make_digest(messages: Vec<DigestMessage>, raw_bytes: usize) -> (r: Digest)
    requires
        content_bytes(message_views(messages@)) <= usize::MAX,
    ensures
        message_views(r.messages@) == message_views(messages@),
        r.token_estimate == content_bytes(message_views(messages@)) / 4,
        r.raw_token_estimate == raw_bytes / 4,
{
    let ghost ms = message_views(messages@);
    let mut total: usize = 0;
    let mut i: usize = 0;
    while i < messages.len()
        invariant
            i <= messages@.len(),
            ms == message_views(messages@),
            content_bytes(ms) <= usize::MAX,
            total == content_bytes(ms.take(i as int)),
        decreases messages@.len() - i,
    {
        proof {
            assert(ms.take(i as int + 1).drop_last() =~= ms.take(i as int));
            assert(ms[i as int] == messages@[i as int]@);
            lemma_content_bytes_prefix(ms, i as int + 1);
        }
        total = total + crate::text::str_len(messages[i].content.as_str());
        i = i + 1;
    }
    proof {
        assert(ms.take(messages@.len() as int) =~= ms);
    }
    Digest { messages, token_estimate: total / 4, raw_token_estimate: raw_bytes / 4 }
}

proof fn lemma_content_bytes_prefix(ms: Seq<MessageView>, k: int)
    requires
        0 <= k <= ms.len(),
    ensures
        content_bytes(ms.take(k)) <= content_bytes(ms),
    decreases ms.len() - k,
{
    if k < ms.len() {
        lemma_content_bytes_prefix(ms, k + 1);
        assert(ms.take(k + 1).drop_last() =~= ms.take(k));
    } else {
        assert(ms.take(k) =~= ms);
    }
}

/// How a session log is read, by its file name.
#[derive(PartialEq, Eq, Structural, Clone, Copy, Debug)]
pub enum LogFormat {
    Jsonl,
    JsonArray,
    PlainText,
}

/// The last component of a `/`-separated path, ignoring empty and `.`
/// components (std `Path::file_name`, without `..`).
pub open spec fn last_component(path: Seq<char>) -> Seq<char>
    decreases path.len(),
{
    if path.len() == 0 {
        seq![]
    } else if path.last() == '/' {
        last_component(path.drop_last())
    } else {
        let i = crate::text::last_index_of_char(path, '/');
        proof {
            crate::text::lemma_last_index_of_char_bounds(path, '/');
        }
        if i < 0 {
            if path == "."@ {
                seq![]
            } else {
                path
            }
        } else {
            let c = path.skip(i + 1);
            if c == "."@ {
                last_component(path.take(i))
            } else {
                c
            }
        }
    }
}

/// The extension of a path (std `Path::extension`): what follows the last
/// dot of the file name, unless the name is `..` or that dot begins it.
pub open spec fn extension(path: Seq<char>) -> Option<Seq<char>> {
    let f = last_component(path);
    if f.len() == 0 || f == ".."@ || !crate::textops::has_char(f, '.') {
        None
    } else {
        let i = crate::text::last_index_of_char(f, '.');
        if i == 0 {
            None
        } else {
            Some(f.skip(i + 1))
        }
    }
}

/// The format of a log: `.jsonl` files are JSON lines, `.json` files a JSON
/// array, anything else plain text.
pub open spec fn format_of(path: Seq<char>) -> LogFormat {
    if extension(path) == Some("jsonl"@) {
        LogFormat::Jsonl
    } else if extension(path) == Some("json"@) {
        LogFormat::JsonArray
    } else {
        LogFormat::PlainText
    }
}

/// The last component of a `/`-separated path (see [`last_component`]).
pub fn last_component_of(path: &[char]) -> (r: Vec<char>)
    ensures
        r@ == last_component(path@),
    decreases path@.len(),
{
    proof {
        reveal_strlit(".");
    }
    let n = path.len();
    if n == 0 {
        return Vec::new();
    }
    if path[n - 1] == '/' {
        let p = crate::text::slice_chars(path, 0, n - 1);
        proof {
            assert(p@ =~= path@.drop_last());
        }
        return last_component_of(p.as_slice());
    }
    proof {
        crate::text::lemma_last_index_of_char_bounds(path@, '/');
    }
    match crate::text::rfind_char_index(path, '/') {
        None => {
            if n == 1 && path[0] == '.' {
                proof {
                    assert(path@ =~= "."@);
                }
                Vec::new()
            } else {
                let r = crate::text::slice_chars(path, 0, n);
                proof {
                    assert(r@ =~= path@);
                    assert(path@ != "."@) by {
                        if path@ == "."@ {
                            assert(path@.len() == 1);
                        }
                    }
                }
                r
            }
        },
        Some(i) => {
            let c = crate::text::slice_chars(path, i + 1, n);
            proof {
                assert(c@ =~= path@.skip(i + 1));
            }
            if c.len() == 1 && c[0] == '.' {
                proof {
                    assert(c@ =~= "."@);
                }
                let p = crate::text::slice_chars(path, 0, i);
                proof {
                    assert(p@ =~= path@.take(i as int));
                }
                last_component_of(p.as_slice())
            } else {
                proof {
                    assert(c@ != "."@) by {
                        if c@ == "."@ {
                            assert(c@.len() == 1);
                        }
                    }
                }
                c
            }
        },
    }
}

/// The format in which the log at `path` is read.
pub fn log_format(path: &str) -> (r: LogFormat)
    ensures
        r == format_of(path@),
{
    proof {
        reveal_strlit("..");
        reveal_strlit("jsonl");
        reveal_strlit("json");
    }
    let v = crate::text::chars_of(path);
    let f = last_component_of(v.as_slice());
    let ghost ext = extension(path@);
    let is_dotdot = f.len() == 2 && f[0] == '.' && f[1] == '.';
    proof {
        if f@ == ".."@ {
            assert(f@.len() == 2);
        }
        if is_dotdot {
            assert(f@ =~= ".."@);
        }
    }
    if f.len() == 0 || is_dotdot {
        return LogFormat::PlainText;
    }
    proof {
        crate::text::lemma_last_index_of_char_bounds(f@, '.');
    }
    match crate::text::rfind_char_index(f.as_slice(), '.') {
        None => {
            proof {
                crate::text::lemma_last_index_of_char_none(f@, '.');
            }
            LogFormat::PlainText
        },
        Some(i) => {
            proof {
                crate::text::lemma_last_index_of_char_found(f@, '.');
            }
            if i == 0 {
                return LogFormat::PlainText;
            }
            let n = f.len();
            let e = crate::text::slice_chars(f.as_slice(), i + 1, n);
            proof {
                assert(e@ =~= f@.skip(i + 1));
            }
            if crate::text::chars_eq(e.as_slice(), crate::text::chars_of("jsonl").as_slice()) {
                LogFormat::Jsonl
            } else if crate::text::chars_eq(e.as_slice(), crate::text::chars_of("json").as_slice()) {
                LogFormat::JsonArray
            } else {
                LogFormat::PlainText
            }
        },
    }
}

/// The extension of a path (see [`extension`]).
pub fn path_extension(path: &str) -> (r: Option<String>)
    ensures
        crate::text::opt_view(r) == extension(path@),
{
    proof {
        reveal_strlit("..");
    }
    let v = crate::text::chars_of(path);
    let f = last_component_of(v.as_slice());
    let is_dotdot = f.len() == 2 && f[0] == '.' && f[1] == '.';
    proof {
        if f@ == ".."@ {
            assert(f@.len() == 2);
        }
        if is_dotdot {
            assert(f@ =~= ".."@);
        }
    }
    if f.len() == 0 || is_dotdot {
        return None;
    }
    proof {
        crate::text::lemma_last_index_of_char_bounds(f@, '.');
    }
    match crate::text::rfind_char_index(f.as_slice(), '.') {
        None => {
            proof {
                crate::text::lemma_last_index_of_char_none(f@, '.');
            }
            None
        },
        Some(i) => {
            proof {
                crate::text::lemma_last_index_of_char_found(f@, '.');
            }
            if i == 0 {
                return None;
            }
            let n = f.len();
            let e = crate::text::slice_chars(f.as_slice(), i + 1, n);
            proof {
                assert(e@ =~= f@.skip(i + 1));
            }
            Some(crate::text::string_of(e.as_slice()))
        },
    }
}

/// The digest of a parsed log: its messages filtered and compressed (see
/// [`filter::filter_messages`]), with token estimates; `raw_bytes` is the
/// raw log's length.
pub fn digest_messages(messages: Vec<DigestMessage>, raw_bytes: usize, config: &crate::config::IngesterConfig) -> (r: Digest)
    requires
        filter::cuts_on_boundaries(message_views(messages@), config.max_tool_result_tokens as nat),
        content_bytes(
            filter::filtered(
                message_views(messages@),
                config.max_tool_result_tokens as nat,
                config.collapse_repeated_edits,
            ),
        ) <= usize::MAX,
    ensures
        message_views(r.messages@) == filter::filtered(
            message_views(messages@),
            config.max_tool_result_tokens as nat,
            config.collapse_repeated_edits,
        ),
        r.token_estimate == content_bytes(message_views(r.messages@)) / 4,
        r.raw_token_estimate == raw_bytes / 4,
{
    let kept = filter::filter_messages(messages, config);
    make_digest(kept, raw_bytes)
}

} // verus!
