use sep::api::billing::{billing, days_since_thursday, session_usage, SessionUsage};
use sep::api::session_scan::{edit_and_total_calls, quick_scan, session_stats, title_from, usage_suggestions};
use sep::api::sessions::{is_active, latest_modified, session_messages, sort_sessions, SessionEntry};
use sep::json::{Json, JsonNumber, JsonValue};

fn j(value: JsonValue) -> Json {
    Json { value, pretty: String::new() }
}

fn s(text: &str) -> Json {
    j(JsonValue::Str(text.to_string()))
}

fn n(x: u64) -> Json {
    j(JsonValue::Number(JsonNumber { as_u64: Some(x), text: x.to_string() }))
}

fn obj(fields: Vec<(&str, Json)>) -> Json {
    j(JsonValue::Object(fields.into_iter().map(|(k, v)| (k.to_string(), v)).collect()))
}

fn arr(items: Vec<Json>) -> Json {
    j(JsonValue::Array(items))
}

fn user(text: &str) -> Json {
    obj(vec![("type", s("user")), ("message", obj(vec![("content", s(text))]))])
}

fn assistant(model: &str, out: u64, input: u64, cache: u64, blocks: Vec<Json>) -> Json {
    obj(vec![
        ("type", s("assistant")),
        (
            "message",
            obj(vec![
                ("model", s(model)),
                ("content", arr(blocks)),
                (
                    "usage",
                    obj(vec![
                        ("output_tokens", n(out)),
                        ("input_tokens", n(input)),
                        ("cache_read_input_tokens", n(cache)),
                    ]),
                ),
            ]),
        ),
    ])
}

fn tool_use(name: &str, path: &str) -> Json {
    obj(vec![
        ("type", s("tool_use")),
        ("name", s(name)),
        ("input", obj(vec![("file_path", s(path))])),
    ])
}

fn system(cwd: &str, ts: &str) -> Json {
    obj(vec![("type", s("system")), ("cwd", s(cwd)), ("timestamp", s(ts))])
}

#[test]
fn title_skips_commands_and_cuts_at_80() {
    assert_eq!(title_from("  <command-name>/clear</command-name>"), None);
    assert_eq!(title_from("/init"), None);
    assert_eq!(title_from("   "), None);
    assert_eq!(title_from("  Fix the login bug \n"), Some("Fix the login bug".to_string()));
    let long = "é".repeat(100);
    assert_eq!(title_from(&long), Some("é".repeat(80)));
}

#[test]
fn quick_scan_counts_turns_tokens_and_model() {
    let entries = vec![
        user("/init"),
        user("Add billing view"),
        assistant("m1", 10, 100, 50, vec![]),
        obj(vec![("type", s("user")), ("message", obj(vec![("content", arr(vec![]))]))]),
        assistant("m2", 5, 0, 0, vec![]),
    ];
    let q = quick_scan(&entries, 7);
    assert_eq!(q.title, "Add billing view");
    assert_eq!(q.model, Some("m2".to_string()));
    assert_eq!(q.line_count, 7);
    assert_eq!(q.user_turns, 2);
    assert_eq!(q.output_tokens, 15);
    // The second assistant entry has no context, so the first one's stays.
    assert_eq!(q.context_size, 150);
}

#[test]
fn quick_scan_of_empty_log() {
    let q = quick_scan(&Vec::new(), 0);
    assert_eq!(q.title, "(no title)");
    assert_eq!(q.model, None);
    assert_eq!(q.output_tokens, 0);
}

#[test]
fn stats_collect_tools_files_and_start() {
    let entries = vec![
        system("/work/app", "2024-03-01T10:00:00Z"),
        system("/elsewhere", "2025-01-01T00:00:00Z"),
        user("Refactor the parser"),
        assistant(
            "m1",
            7,
            10,
            0,
            vec![
                tool_use("Read", "src/b.rs"),
                tool_use("Edit", "src/a.rs"),
                tool_use("Read", "src/a.rs"),
                tool_use("Write", "src/c.rs"),
                tool_use("Edit", "src/a.rs"),
            ],
        ),
        assistant("m0", 3, 20, 0, vec![obj(vec![("type", s("text")), ("text", s("done"))])]),
    ];
    let st = session_stats("abc".to_string(), &entries, true, Some(42));
    assert_eq!(st.session_id, "abc");
    assert_eq!(st.title, "Refactor the parser");
    assert_eq!(st.cwd, Some("/work/app".to_string()));
    assert_eq!(st.started_at, Some(1709287200));
    assert_eq!(st.model, Some("m0".to_string()));
    assert_eq!(st.models_used, vec!["m0".to_string(), "m1".to_string()]);
    assert_eq!(st.user_turns, 1);
    assert_eq!(st.assistant_turns, 2);
    assert_eq!(st.total_output_tokens, 10);
    assert_eq!(st.context_size, 20);
    assert_eq!(st.files_read, vec!["src/a.rs".to_string(), "src/b.rs".to_string()]);
    assert_eq!(st.files_edited, vec!["src/a.rs".to_string(), "src/c.rs".to_string()]);
    let mut tools = st.tools.clone();
    tools.sort();
    assert_eq!(
        tools,
        vec![("Edit".to_string(), 2), ("Read".to_string(), 2), ("Write".to_string(), 1)]
    );
    assert!(st.active);
    assert_eq!(st.last_activity, Some(42));
    assert!(st.suggestions.is_empty());
    assert_eq!(edit_and_total_calls(&st.tools), (2, 5));
}

#[test]
fn stats_start_skips_unparsable_timestamps() {
    let entries = vec![system("/a", "yesterday"), system("/b", "1970-01-01T00:01:00+00:00")];
    let st = session_stats("x".to_string(), &entries, false, None);
    assert_eq!(st.cwd, Some("/a".to_string()));
    assert_eq!(st.started_at, Some(60));
    assert_eq!(st.title, "(no title)");
}

#[test]
fn busy_session_suggestions() {
    assert!(usage_suggestions(20, 100).is_empty());
    assert_eq!(
        usage_suggestions(21, 101),
        vec![
            "21 edits this session — high churn".to_string(),
            "101 tool calls — busy session".to_string()
        ]
    );
}

#[test]
fn activity_window_is_five_minutes() {
    assert!(is_active(1000, Some(701)));
    assert!(!is_active(1000, Some(700)));
    assert!(!is_active(1000, None));
}

#[test]
fn latest_of_known_times() {
    assert_eq!(latest_modified(&vec![None, Some(3), Some(9), None, Some(4)]), Some(9));
    assert_eq!(latest_modified(&vec![None, None]), None);
}

fn entry(id: &str, modified: Option<u64>) -> SessionEntry {
    SessionEntry {
        id: id.to_string(),
        title: String::new(),
        model: None,
        size_bytes: 0,
        line_count: 0,
        modified_at: modified,
        active: false,
        user_turns: 0,
        output_tokens: 0,
        context_size: 0,
    }
}

#[test]
fn sessions_latest_first_unknown_last() {
    let sorted = sort_sessions(vec![entry("a", Some(1)), entry("b", None), entry("c", Some(5)), entry("d", Some(1))]);
    let ids: Vec<&str> = sorted.iter().map(|e| e.id.as_str()).collect();
    assert_eq!(ids, vec!["c", "a", "d", "b"]);
}

#[test]
fn session_messages_keep_user_and_assistant() {
    let entries = vec![
        system("/a", "t"),
        user("hello"),
        assistant("m", 1, 1, 1, vec![obj(vec![("type", s("text")), ("text", s("hi"))])]),
        assistant("m", 1, 1, 1, vec![obj(vec![("type", s("weird"))])]),
    ];
    let msgs = session_messages(&entries);
    assert_eq!(msgs.len(), 2);
    assert_eq!(msgs[0].role, "user");
    assert_eq!(msgs[0].content_blocks[0].text, Some("hello".to_string()));
    assert_eq!(msgs[1].role, "assistant");
    assert_eq!(msgs[1].usage.as_ref().map(|u| u.output_tokens), Some(1));
}

#[test]
fn billing_cycle_starts_thursday() {
    // Monday = 0 .. Sunday = 6.
    assert_eq!(days_since_thursday(3), 0);
    assert_eq!(days_since_thursday(4), 1);
    assert_eq!(days_since_thursday(0), 4);
    assert_eq!(days_since_thursday(2), 6);
}

#[test]
fn session_usage_reads_day_and_tokens() {
    let entries = vec![
        assistant("m", 4, 0, 0, vec![]),
        system("/a", "2024"),
        system("/a", "2024-05-02T08:00:00Z"),
        assistant("m", 6, 0, 0, vec![]),
    ];
    let u = session_usage(&entries, 0);
    assert_eq!(u.output_tokens, 10);
    assert_eq!(u.date, "2024-05-02");
    // Without a timestamp, the UTC day of the modification time is used.
    let u = session_usage(&vec![assistant("m", 1, 0, 0, vec![])], 86_400 * 365);
    assert_eq!(u.date, "1971-01-01");
}

#[test]
fn billing_sums_days_and_cycle() {
    let sessions = vec![
        SessionUsage { modified: 50, output_tokens: 1000, date: "2024-05-01".to_string() },
        SessionUsage { modified: 200, output_tokens: 10, date: "2024-05-02".to_string() },
        SessionUsage { modified: 300, output_tokens: 5, date: "2024-05-03".to_string() },
        SessionUsage { modified: 100, output_tokens: 7, date: "2024-05-02".to_string() },
    ];
    let b = billing(&sessions, "2024-05-02", "2024-05-02".to_string(), 100);
    assert_eq!(b.today.output_tokens, 17);
    assert_eq!(b.today.sessions, 2);
    assert_eq!(b.billing_cycle.start, "2024-05-02");
    assert_eq!(b.billing_cycle.output_tokens, 22);
    assert_eq!(b.billing_cycle.sessions, 3);
    let days: Vec<(&str, u64, usize)> =
        b.daily.iter().map(|d| (d.date.as_str(), d.output_tokens, d.sessions)).collect();
    assert_eq!(days, vec![("2024-05-03", 5, 1), ("2024-05-02", 17, 2)]);
    let empty = billing(&sessions, "2024-06-01", "x".to_string(), 1000);
    assert_eq!(empty.today.output_tokens, 0);
    assert!(empty.daily.is_empty());
}
