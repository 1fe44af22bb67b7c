use sep::config::IngesterConfig;
use sep::ingester::filter::{compress_content, filter_messages, is_edit_tool, truncate_to_tokens, extract_edit_target};
use sep::ingester::parser::{detect_role_marker, extract_file_paths, normalize_role, parse_plain_text};
use sep::ingester::DigestMessage;
use sep::ingester::parser::{jsonl_records, parse_jsonl_lines, JsonlLine, RawLogEntry};
use sep::json::{Json, JsonValue};

fn default_config() -> IngesterConfig {
    IngesterConfig {
        max_tool_result_tokens: 100,
        collapse_repeated_edits: true,
    }
}

fn msg(role: &str, content: &str) -> DigestMessage {
    DigestMessage {
        role: role.to_string(),
        content: content.to_string(),
        tool_name: String::new(),
        files_mentioned: Vec::new(),
    }
}

fn tool_msg(role: &str, tool: &str, content: &str) -> DigestMessage {
    DigestMessage {
        role: role.to_string(),
        content: content.to_string(),
        tool_name: tool.to_string(),
        files_mentioned: Vec::new(),
    }
}

#[test]
fn test_skip_empty() {
    let messages = vec![msg("user", "hello"), msg("assistant", "   "), msg("assistant", "world")];
    let result = filter_messages(messages, &default_config());
    assert_eq!(result.len(), 2);
}

#[test]
fn test_truncate_long_tool_result() {
    let long_output = "x".repeat(2000); // ~500 tokens
    let messages = vec![msg("tool_result", &long_output)];
    let result = filter_messages(messages, &default_config());
    assert_eq!(result.len(), 1);
    assert!(result[0].content.contains("truncated"));
    assert!(result[0].content.len() < long_output.len());
}

#[test]
fn test_dedup_assistant() {
    let messages = vec![
        msg("assistant", "I'll fix the bug"),
        msg("assistant", "I'll fix the bug"), // retry duplicate
        msg("assistant", "Actually, different approach"),
    ];
    let result = filter_messages(messages, &default_config());
    assert_eq!(result.len(), 2); // deduped to 2
}

#[test]
fn test_collapse_edits() {
    let messages = vec![
        tool_msg("tool_use", "Edit", r#"{"file_path": "src/main.rs", "old": "a", "new": "b"}"#),
        tool_msg("tool_use", "Edit", r#"{"file_path": "src/main.rs", "old": "c", "new": "d"}"#),
        tool_msg("tool_use", "Edit", r#"{"file_path": "src/main.rs", "old": "e", "new": "f"}"#),
    ];
    let result = filter_messages(messages, &default_config());
    // Should collapse to 1 entry showing latest
    assert_eq!(result.len(), 1);
    assert!(result[0].content.contains("3 edits"));
}

#[test]
fn test_extract_file_paths() {
    let text = "I'll modify `src/ws/client.rs` and create tests/ws_test.rs for the new logic";
    let paths = extract_file_paths(text);
    assert!(paths.contains(&"src/ws/client.rs".to_string()));
    assert!(paths.contains(&"tests/ws_test.rs".to_string()));
}

#[test]
fn test_parse_plain_text() {
    let input = "Human: Fix the auth bug\nThe login is broken on mobile\nAssistant: I see the issue in the token refresh logic.";
    let messages = parse_plain_text(input);
    assert_eq!(messages.len(), 2);
    assert_eq!(messages[0].role, "user");
    assert!(messages[0].content.contains("login is broken"));
    assert_eq!(messages[1].role, "assistant");
}

#[test]
fn truncated_tool_result_exact_text() {
    let content = format!("{}\n{}", "a".repeat(10), "b".repeat(30));
    let config = IngesterConfig { max_tool_result_tokens: 4, collapse_repeated_edits: true };
    let result = filter_messages(vec![msg("tool_result", &content)], &config);
    assert_eq!(result[0].content, format!("{}\n[... truncated from ~10 tokens]", "a".repeat(10)));
}

#[test]
fn truncate_to_tokens_without_newline_cuts_at_budget() {
    assert_eq!(truncate_to_tokens("abcdefghij", 2), "abcdefgh");
    assert_eq!(truncate_to_tokens("abc", 2), "abc");
}

#[test]
fn collapse_notice_text() {
    let messages = vec![
        tool_msg("tool_use", "Write", r#"{"path": "a/b.rs"}"#),
        tool_msg("tool_use", "Write", r#"{"path": "a/b.rs", "x": 1}"#),
    ];
    let result = filter_messages(messages, &default_config());
    assert_eq!(result.len(), 1);
    assert_eq!(result[0].content, "[2 edits to a/b.rs — showing latest]\n{\"path\": \"a/b.rs\", \"x\": 1}");
}

#[test]
fn edits_to_other_files_are_kept() {
    let messages = vec![
        tool_msg("tool_use", "Edit", r#"{"file_path": "src/a.rs"}"#),
        tool_msg("tool_use", "Edit", r#"{"file_path": "src/b.rs"}"#),
    ];
    let result = filter_messages(messages, &default_config());
    assert_eq!(result.len(), 2);
}

#[test]
fn collapse_disabled_keeps_every_edit() {
    let config = IngesterConfig { max_tool_result_tokens: 100, collapse_repeated_edits: false };
    let messages = vec![
        tool_msg("tool_use", "Edit", r#"{"file_path": "src/a.rs"}"#),
        tool_msg("tool_use", "Edit", r#"{"file_path": "src/a.rs"}"#),
    ];
    assert_eq!(filter_messages(messages, &config).len(), 2);
}

#[test]
fn thinking_messages_are_dropped() {
    let messages = vec![msg("thinking", "hmm"), msg("user", "hi")];
    let result = filter_messages(messages, &default_config());
    assert_eq!(result.len(), 1);
    assert_eq!(result[0].role, "user");
}

#[test]
fn compress_collapses_blank_runs() {
    assert_eq!(compress_content("  a  \n\n\n\nb\t\n\n"), "a\n\nb");
    assert_eq!(compress_content(""), "");
}

#[test]
fn edit_tool_names() {
    assert!(is_edit_tool("MultiEdit"));
    assert!(is_edit_tool("str_replace"));
    assert!(!is_edit_tool("Read"));
}

#[test]
fn edit_target_from_json_and_words() {
    assert_eq!(extract_edit_target(r#"{"filename": "x/y.py"}"#), Some("x/y.py".to_string()));
    assert_eq!(extract_edit_target("patch (src/lib.rs) now"), Some("src/lib.rs".to_string()));
    assert_eq!(extract_edit_target("see http://a.b/c"), None);
}

#[test]
fn file_paths_sorted_unique() {
    let paths = extract_file_paths("b/x.rs a/y.md b/x.rs https://e.com/z.md main.rs");
    assert_eq!(
        paths,
        vec!["a/y.md".to_string(), "b/x.rs".to_string(), "https://e.com/z.md".to_string(), "main.rs".to_string()]
    );
}

#[test]
fn role_markers() {
    assert_eq!(detect_role_marker("  HUMAN: hi"), Some("user".to_string()));
    assert_eq!(detect_role_marker("[tool_result] x"), Some("tool_result".to_string()));
    assert_eq!(detect_role_marker("plain"), None);
}

#[test]
fn plain_text_marker_without_colon() {
    let messages = parse_plain_text("[user] hi\nthere\n[assistant]\nok");
    assert_eq!(messages.len(), 2);
    assert_eq!(messages[0].content, "hi\nthere");
    assert_eq!(messages[1].role, "assistant");
    assert_eq!(messages[1].content, "ok");
}

fn role_line(role: &str, content: &str) -> JsonlLine {
    let text = Json { value: JsonValue::Str(content.to_string()), pretty: String::new() };
    JsonlLine {
        entry: Some(RawLogEntry {
            entry_type: String::new(),
            role: role.to_string(),
            content: Some(text),
            message: None,
            tool_name: String::new(),
            name: String::new(),
            tool_input: None,
            input: None,
            timestamp: None,
        }),
        value: None,
    }
}

#[test]
fn test_parse_jsonl_basic() {
    let input = r#"{"role": "user", "content": "Fix the bug in src/main.rs"}
{"role": "assistant", "content": "I'll fix the null check in the handler"}
{"role": "system", "content": "System prompt here"}
"#;
    // Each line of the log is one JSON document, read as an entry.
    assert_eq!(jsonl_records(input).len(), 3);
    let lines = vec![
        role_line("user", "Fix the bug in src/main.rs"),
        role_line("assistant", "I'll fix the null check in the handler"),
        role_line("system", "System prompt here"),
    ];
    let messages = parse_jsonl_lines(&lines);
    assert_eq!(messages.len(), 2); // system filtered out
    assert_eq!(messages[0].role, "user");
    assert_eq!(messages[1].role, "assistant");
}

fn jstr(t: &str) -> Json {
    Json { value: JsonValue::Str(t.to_string()), pretty: format!("{:?}", t) }
}

fn jobj(fields: Vec<(&str, Json)>, pretty: &str) -> Json {
    Json {
        value: JsonValue::Object(fields.into_iter().map(|(k, v)| (k.to_string(), v)).collect()),
        pretty: pretty.to_string(),
    }
}

fn content_blocks_json() -> Json {
    let input_value = jobj(
        vec![("file", jstr("src/ws.rs")), ("content", jstr("..."))],
        "{\n  \"file\": \"src/ws.rs\",\n  \"content\": \"...\"\n}",
    );
    let blocks = vec![
        jobj(vec![("type", jstr("thinking")), ("thinking", jstr("Let me analyze..."))], ""),
        jobj(
            vec![("type", jstr("text")), ("text", jstr("I'll use exponential backoff for the reconnection logic."))],
            "",
        ),
        jobj(vec![("type", jstr("tool_use")), ("name", jstr("Edit")), ("input", input_value)], ""),
    ];
    Json { value: JsonValue::Array(blocks), pretty: String::new() }
}

#[test]
fn test_parse_content_blocks() {
    let input = r#"{"role": "assistant", "content": [
            {"type": "thinking", "thinking": "Let me analyze..."},
            {"type": "text", "text": "I'll use exponential backoff for the reconnection logic."},
            {"type": "tool_use", "name": "Edit", "input": {"file": "src/ws.rs", "content": "..."}}
        ]}"#;
    // The object spread over several lines is one document.
    assert_eq!(jsonl_records(input).len(), 1);
    let content = content_blocks_json();
    let value = jobj(vec![("role", jstr("assistant")), ("content", content_blocks_json())], "");
    let line = JsonlLine {
        entry: Some(RawLogEntry {
            entry_type: String::new(),
            role: "assistant".to_string(),
            content: Some(content),
            message: None,
            tool_name: String::new(),
            name: String::new(),
            tool_input: None,
            input: None,
            timestamp: None,
        }),
        value: Some(value),
    };
    let messages = parse_jsonl_lines(&vec![line]);
    // Should get: text block + tool_use, no thinking
    assert!(messages.iter().any(|m| m.role == "assistant" && m.content.contains("exponential")));
    assert!(messages.iter().any(|m| m.role == "tool_use" && m.tool_name == "Edit"));
    assert!(!messages.iter().any(|m| m.content.contains("Let me analyze")));
}

#[test]
fn jsonl_records_keep_one_object_per_line() {
    let input = "{\"a\": \"{\"}\n\n  {\"b\": [1,\n 2]}\r\n{\"c\": 3}";
    let records = jsonl_records(input);
    assert_eq!(records, vec!["{\"a\": \"{\"}".to_string(), "{\"b\": [1,\n 2]}".to_string(), "{\"c\": 3}".to_string()]);
}

#[test]
fn repeated_reply_with_trailing_spaces_is_dropped() {
    let messages = vec![msg("assistant", "ok  "), msg("assistant", "ok  ")];
    let result = filter_messages(messages, &default_config());
    assert_eq!(result.len(), 1);
    assert_eq!(result[0].role, "assistant");
    assert_eq!(result[0].content, "ok");
}

#[test]
fn bracket_markers_keep_their_text() {
    let messages = parse_plain_text("[user] hello\n[assistant] hi there");
    assert_eq!(messages.len(), 2);
    assert_eq!(messages[0].role, "user");
    assert_eq!(messages[0].content, "hello");
    assert_eq!(messages[1].role, "assistant");
    assert_eq!(messages[1].content, "hi there");
}

#[test]
fn compressing_twice_changes_nothing() {
    for text in ["  a  \n\n\n b \r\n\n", "", "\n\n", "x", "  lead\ntrail  \n\n\nend"] {
        let once = compress_content(text);
        assert_eq!(compress_content(&once), once);
    }
}

#[test]
fn normalizing_a_role_twice_changes_nothing() {
    for (t, r) in [("Human", "x"), ("", "AI"), ("", ""), ("TOOL_USE", ""), ("system", "user")] {
        let once = normalize_role(t, r);
        assert_eq!(normalize_role(&once, ""), once);
        assert_eq!(once, normalize_role(if t.is_empty() { r } else { t }, ""));
    }
}
