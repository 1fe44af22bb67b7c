use sep::api::debug::{check_debug_query, DebugQueryError};
use sep::api::ingest::{decision_events, default_format, phase_event, StoredOutcome};
use sep::api::projects::{sort_projects, validate_project_name, ProjectSummary};
use sep::config::{expand_tilde, ServerConfig};
use sep::events::emitter::{event_project, is_for_project, Event};
use sep::ingester::mermaid::{diagrams_from_captures, extract_diagram_type, extract_mermaid, extract_title, sha256_hex};
use sep::secretary::backends::{
    answer_text, base_url, chat_endpoint, chatml_prompt, first_choice_text, next_generation_step,
    ollama_endpoint, prompt_fits, GenerationStep,
};

#[test]
fn project_names() {
    assert!(validate_project_name("my-app"));
    assert!(!validate_project_name(""));
    assert!(!validate_project_name("a/b"));
    assert!(!validate_project_name("x..y"));
}

fn project(name: &str) -> ProjectSummary {
    ProjectSummary { name: name.to_string(), path: None, current_phase: None, decision_count: 0, last_ingestion: None }
}

#[test]
fn projects_sorted_by_name() {
    let sorted = sort_projects(vec![project("web"), project("api"), project("Zed"), project("cli")]);
    let names: Vec<&str> = sorted.iter().map(|p| p.name.as_str()).collect();
    assert_eq!(names, vec!["Zed", "api", "cli", "web"]);
}

#[test]
fn debug_queries_must_be_selects() {
    assert!(check_debug_query(true, "  SELECT * FROM decisions").is_ok());
    assert!(matches!(check_debug_query(true, "DELETE FROM decisions"), Err(DebugQueryError::NotSelect)));
    assert!(matches!(check_debug_query(false, "select 1"), Err(DebugQueryError::Disabled)));
}

#[test]
fn config_paths() {
    let c = ServerConfig { port: 1, data_dir: "/data".to_string(), sessions_dir: "/s".to_string(), debug: false };
    assert_eq!(c.project_data_dir("app"), "/data/app");
    assert_eq!(c.project_db_path("app"), "/data/app/state.db");
    assert_eq!(expand_tilde("~/models/m.gguf", Some("/home/u")), "/home/u/models/m.gguf");
    assert_eq!(expand_tilde("~/models/m.gguf", None), "~/models/m.gguf");
    assert_eq!(expand_tilde("/abs", Some("/home/u")), "/abs");
    assert_eq!(default_format(), "auto");
}

#[test]
fn events_by_project() {
    let e = Event::StateUpdated { project: "a".to_string() };
    assert_eq!(event_project(&e), "a");
    assert!(is_for_project(&e, "a"));
    assert!(!is_for_project(&e, "b"));
}

#[test]
fn new_decisions_and_phase_changes_raise_events() {
    let outcomes = vec![
        Some(StoredOutcome { is_new: true, domain: "db".into(), decision: "use sqlite".into() }),
        Some(StoredOutcome { is_new: false, domain: "db".into(), decision: "same".into() }),
        None,
        Some(StoredOutcome { is_new: true, domain: "ui".into(), decision: "htmx".into() }),
    ];
    let events = decision_events("p", &outcomes);
    assert_eq!(events.len(), 2);
    match &events[1] {
        Event::DecisionNew { project, domain, decision } => {
            assert_eq!(project, "p");
            assert_eq!(domain, "ui");
            assert_eq!(decision, "htmx");
        }
        _ => panic!("expected decision.new"),
    }
    match phase_event("p", "core", None, "design") {
        Some(Event::PhaseChanged { old_phase, new_phase, .. }) => {
            assert_eq!(old_phase, "unknown");
            assert_eq!(new_phase, "design");
        }
        _ => panic!("expected phase.changed"),
    }
    assert!(phase_event("p", "core", Some("design"), "design").is_none());
}

#[test]
fn backend_requests() {
    assert_eq!(base_url("http://localhost:11434//"), "http://localhost:11434");
    assert_eq!(ollama_endpoint("http://h"), "http://h/api/generate");
    assert_eq!(chat_endpoint("http://h/v1"), "http://h/v1/chat/completions");
    assert!(chatml_prompt("hi").contains("<|im_start|>user\nhi<|im_end|>\n<|im_start|>assistant\n"));
    assert!(prompt_fits(10, 11));
    assert!(!prompt_fits(11, 11));
    assert!(matches!(next_generation_step(0, true, 5, 0), GenerationStep::Stop));
    assert!(matches!(next_generation_step(2048, false, 5, 0), GenerationStep::Stop));
    assert!(matches!(next_generation_step(3, false, 5, 3), GenerationStep::Feed { position: 8 }));
    assert_eq!(answer_text("  {\"a\":1}\n"), "{\"a\":1}");
    assert_eq!(first_choice_text(&vec![" x ".to_string(), "y".to_string()]), "x");
    assert_eq!(first_choice_text(&Vec::new()), "");
}

#[test]
fn mermaid_blocks_are_extracted_once() {
    let text = "Architecture overview:\n```mermaid\ngraph TD\nA-->B\n```\ntext\n```mermaid\ngraph TD\nA-->B\n```\n";
    let ds = extract_mermaid(text);
    assert_eq!(ds.len(), 1);
    assert_eq!(ds[0].content, "graph TD\nA-->B");
    assert_eq!(ds[0].diagram_type, "graph");
    assert_eq!(ds[0].title, Some("Architecture overview".to_string()));
    assert_eq!(ds[0].fingerprint, sha256_hex("graph TD\nA-->B"));
    assert_eq!(ds[0].fingerprint.len(), 64);
}

#[test]
fn mermaid_in_json_lines() {
    let text = "{\"text\":\"Flow:\\n```mermaid\\nsequenceDiagram\\n  A->>B: hi\\n```\"}";
    let ds = extract_mermaid(text);
    assert_eq!(ds.len(), 1);
    assert_eq!(ds[0].content, "sequenceDiagram\n  A->>B: hi");
    assert_eq!(ds[0].diagram_type, "sequencediagram");
}

#[test]
fn sha256_of_known_text() {
    assert_eq!(sha256_hex("abc"), "ba7816bf8f01cfea414140de5dae2223b00361a396177a9cb410ff61f20015ad");
}

#[test]
fn diagram_types_and_titles() {
    assert_eq!(extract_diagram_type("%% comment\n\n  flowchart LR\nA"), "flowchart");
    assert_eq!(extract_diagram_type("   \n%% only"), "unknown");
    assert_eq!(extract_title("Data model:\n```mermaid", 12), Some("Data model".to_string()));
    assert_eq!(extract_title("{\"a\": 1,\n```", 9), None);
    assert_eq!(extract_title("abc", 3), None);
}

#[test]
fn title_keeps_trailing_letter_n() {
    assert_eq!(
        extract_title("Login design:\n```mermaid\ngraph TD\n```", 14),
        Some("Login design".to_string())
    );
    assert_eq!(extract_title("Auth flow:\\n```mermaid", 12), Some("Auth flow".to_string()));
}

fn decision(n: usize) -> sep::memory::state::StoredDecision {
    sep::memory::state::StoredDecision {
        id: format!("d{n}"),
        project: "p".to_string(),
        domain: "arch".to_string(),
        decision: format!("decision number {n} with some words to take up room in the hot memory"),
        rationale: "because".to_string(),
        files: vec![],
        created_at: String::new(),
        updated_at: String::new(),
    }
}

#[test]
fn hot_memory_stays_within_budget() {
    let decisions: Vec<_> = (0..100).map(decision).collect();
    let out = sep::memory::render::render_hot_memory(
        "p",
        &decisions,
        &vec![],
        &vec!["what next?".to_string()],
        &Some(("arch".to_string(), "design".to_string())),
        "2024-01-01T00:00:00",
    );
    assert!(out.len() / 4 <= 500);
    assert!(out.starts_with("## Project: p\n- PHASE: design (arch)\n- DECIDED (arch): decision number 0 "));
    assert!(out.ends_with("- BLOCKER: None\n- OPEN: what next?\n- UPDATED: 2024-01-01T00:00:00\n"));
    let kept = out.matches("- DECIDED").count();
    assert!(kept > 0 && kept < 100);
    // One more decision would not have fit.
    let line_len = out.lines().filter(|l| l.starts_with("- DECIDED")).last().unwrap().len() + 1;
    assert!((out.len() + line_len) / 4 > 500);
}

#[test]
fn small_hot_memory_keeps_every_decision() {
    let decisions: Vec<_> = (0..3).map(decision).collect();
    let out = sep::memory::render::render_hot_memory("p", &decisions, &vec!["db down".to_string()], &vec![], &None, "t");
    assert_eq!(out.matches("- DECIDED").count(), 3);
    assert!(out.contains("- BLOCKER: db down\n"));
}

#[test]
fn diagrams_from_hand_built_captures() {
    let raw = "intro line here:\n```mermaid\\ngraph TD\\n```";
    let whole = "```mermaid\\ngraph TD\\n```".to_string();
    let caps = vec![
        vec![Some((17, whole.clone())), Some((29, "graph TD".to_string()))],
        vec![Some((17, whole)), Some((29, "graph TD".to_string()))],
    ];
    let ds = diagrams_from_captures(raw, &caps);
    assert_eq!(ds.len(), 1);
    assert_eq!(ds[0].content, "graph TD");
    assert_eq!(ds[0].diagram_type, "graph");
    assert_eq!(ds[0].title, Some("intro line here".to_string()));
    assert_eq!(ds[0].fingerprint, sha256_hex("graph TD"));
}

#[test]
fn chunks_are_nonempty_and_within_bound() {
    let text = "line one is here\nline two is here\nline three\nfour\nfive five five five five five";
    let chunks = sep::secretary::extract::chunk_text(text, 4);
    assert!(chunks.len() > 1);
    for c in &chunks {
        assert!(!c.is_empty());
        assert!(c.len() <= 16);
    }
    assert_eq!(chunks.concat(), text);
    assert_eq!(sep::secretary::extract::chunk_text("", 4), vec![String::new()]);
}
