use sep::api::context::{
    context_totals, estimate_tokens, extract_condition, identify_service, is_conditional_reference,
    picked_folder, read_file_target, resolve_path, shorten_path, ChainEntry, FileReference,
    ReadFileError,
};
use sep::api::references::{
    chain_paths, classify_scope, extract_references, finish_reference, plan_chain, ChainFile,
    ReferenceRules,
};

fn rules() -> ReferenceRules {
    ReferenceRules {
        instructions_file: "AGENTS.md".to_string(),
        global_dir: ".agents".to_string(),
        ignored_url_parts: vec!["github.com".to_string(), "fonts.google".to_string()],
    }
}

#[test]
fn token_estimate_is_bytes_over_four() {
    assert_eq!(estimate_tokens(""), 0);
    assert_eq!(estimate_tokens("abcdefg"), 1);
    assert_eq!(estimate_tokens("ééé"), 1);
}

#[test]
fn paths_resolve_and_shorten() {
    assert_eq!(resolve_path("~/notes/a.md", "/p", "/home/u"), "/home/u/notes/a.md");
    assert_eq!(resolve_path("/etc/x", "/p", "/home/u"), "/etc/x");
    assert_eq!(resolve_path("docs/b.md", "/p/", "/home/u"), "/p/docs/b.md");
    assert_eq!(shorten_path("/home/u/notes/a.md", "/home/u"), "~/notes/a.md");
    assert_eq!(shorten_path("/etc/x", "/home/u"), "/etc/x");
}

#[test]
fn scopes_of_directories() {
    assert_eq!(classify_scope("/home/u/1000Problems/app", "/home/u/1000Problems/app", "/home/u"), "project");
    assert_eq!(classify_scope("/home/u/1000Problems", "/home/u/1000Problems/app", "/home/u"), "portfolio");
    assert_eq!(classify_scope("/home/u", "/home/u/1000Problems/app", "/home/u"), "user");
    assert_eq!(classify_scope("/home", "/home/u/1000Problems/app", "/home/u"), "parent");
}

#[test]
fn chain_runs_from_global_to_project() {
    let c = chain_paths("/home/u/1000Problems/app", "/home/u", &rules());
    let got: Vec<(&str, &str)> = c.iter().map(|(p, s)| (p.as_str(), s.as_str())).collect();
    assert_eq!(
        got,
        vec![
            ("/home/u/.agents/AGENTS.md", "global"),
            ("/home/AGENTS.md", "parent"),
            ("/home/u/AGENTS.md", "user"),
            ("/home/u/1000Problems/AGENTS.md", "portfolio"),
            ("/home/u/1000Problems/app/AGENTS.md", "project"),
        ]
    );
}

#[test]
fn conditional_language_near_a_reference() {
    let text = "If you touch the UI, cat ~/design/SKILL.md first.";
    assert_eq!(is_conditional_reference(text, "~/design/SKILL.md").ok(), Some(true));
    let text = "Always cat ~/design/SKILL.md.";
    assert_eq!(is_conditional_reference(text, "~/design/SKILL.md").ok(), Some(false));
}

#[test]
fn slicing_inside_a_character_is_an_error() {
    // The mention starts at byte 301; 300 bytes before it is byte 1, inside
    // the leading two-byte character.
    let text = format!("é{}cat ~/x.md", "a".repeat(295));
    assert!(is_conditional_reference(&text, "~/x.md").is_err());
}

#[test]
fn condition_is_the_mentioning_line() {
    let text = "Intro line\nBefore building, read DESIGN.md carefully.\nOther";
    assert_eq!(
        extract_condition(text, "DESIGN.md").ok(),
        Some(Some("Before building, read DESIGN.md carefully.".to_string()))
    );
    assert_eq!(extract_condition(text, "NOPE.md").ok(), Some(None));
    assert_eq!(extract_condition("x DESIGN.md", "DESIGN.md").ok(), Some(Some("x DESIGN.md".to_string())));
    assert_eq!(extract_condition("DESIGN.md", "DESIGN.md").ok(), Some(Some("DESIGN.md".to_string())));
    assert_eq!(extract_condition("a.md", "a.md").ok(), Some(None));
}

#[test]
fn services_by_port() {
    assert_eq!(identify_service("The ollama server at localhost:11434", "11434").ok(), Some("Ollama LLM".to_string()));
    assert_eq!(identify_service("LightRAG at localhost:9621", "9621").ok(), Some("LightRAG knowledge graph".to_string()));
    assert_eq!(identify_service("daemon localhost:19800", "19800").ok(), Some("SMP daemon".to_string()));
    assert_eq!(identify_service("use localhost:8080", "8080").ok(), Some("service on port 8080".to_string()));
}

#[test]
fn references_of_an_instruction_file() {
    let content = "Setup: source ~/secrets.env\n\
                   Before implementing, cat ~/skills/SKILL.md\n\
                   Read BUILD.md. Also read AGENTS.md.\n\
                   See TASK-*.md files.\n\
                   API at localhost:8080 and localhost:8080 again.\n\
                   Docs: https://github.com/x, https://api.example.com/v1.";
    let mut seen: Vec<String> = Vec::new();
    let files = vec!["TASK-1.md".to_string(), "README.md".to_string()];
    let refs = extract_references(content, "/p", "/home/u", &rules(), &files, &mut seen).ok().unwrap();
    let got: Vec<(&str, &str)> = refs.iter().map(|r| (r.path.as_str(), r.ref_type.as_str())).collect();
    assert_eq!(
        got,
        vec![
            ("~/secrets.env", "conditional"),
            ("~/skills/SKILL.md", "conditional"),
            ("/p/BUILD.md", "conditional"),
            ("/p/TASK-1.md", "conditional"),
            ("localhost:8080", "external"),
            ("https://api.example.com/v1", "external"),
        ]
    );
    assert_eq!(refs[0].note, Some("source only, never cat".to_string()));
    assert!(!refs[0].count_tokens);
    assert_eq!(refs[0].file, Some("/home/u/secrets.env".to_string()));
    assert!(refs[3].listed);
    assert_eq!(refs[4].note, Some("service on port 8080".to_string()));
    assert_eq!(refs[5].note, Some("API endpoint".to_string()));
    assert_eq!(seen.len(), 4);
    // A second file of the chain does not list the same files again.
    let again = extract_references("cat ~/skills/SKILL.md", "/p", "/home/u", &rules(), &files, &mut seen).ok().unwrap();
    assert!(again.is_empty());
}

#[test]
fn finished_references() {
    let content = "cat ~/a.md";
    let mut seen = Vec::new();
    let mut refs = extract_references(content, "/p", "/home/u", &rules(), &Vec::new(), &mut seen).ok().unwrap();
    let r = finish_reference(refs.remove(0), true, Some(12));
    assert_eq!(r.path, "~/a.md");
    assert_eq!(r.ref_type, "always");
    assert_eq!(r.exists, Some(true));
    assert_eq!(r.token_count, Some(12));
    let mut refs = extract_references(content, "/p", "/home/u", &rules(), &Vec::new(), &mut Vec::new()).ok().unwrap();
    let r = finish_reference(refs.remove(0), false, None);
    assert_eq!(r.exists, Some(false));
    assert_eq!(r.token_count, None);
}

#[test]
fn chain_skips_missing_home_files() {
    let files = vec![
        ChainFile { path: "/home/u/.agents/AGENTS.md".into(), scope: "global".into(), exists: false, content: String::new() },
        ChainFile { path: "/home/u/AGENTS.md".into(), scope: "user".into(), exists: false, content: String::new() },
        ChainFile { path: "/p/AGENTS.md".into(), scope: "project".into(), exists: true, content: "12345678".into() },
    ];
    let chain = plan_chain(&files, "/p", "/home/u", &rules(), &Vec::new()).ok().unwrap();
    assert_eq!(chain.len(), 2);
    assert_eq!(chain[0].path, "~/.agents/AGENTS.md");
    assert_eq!(chain[0].token_count, 0);
    assert_eq!(chain[1].scope, "project");
    assert_eq!(chain[1].token_count, 2);
}

fn fref(ref_type: &str, tokens: Option<usize>, exists: Option<bool>) -> FileReference {
    FileReference {
        path: String::new(),
        ref_type: ref_type.to_string(),
        condition: None,
        token_count: tokens,
        exists,
        note: None,
    }
}

#[test]
fn totals_of_a_chain() {
    let chain = vec![
        ChainEntry { path: "a".into(), scope: "global".into(), exists: true, token_count: 100, references: vec![
            fref("always", Some(10), Some(true)),
            fref("conditional", Some(5), Some(true)),
            fref("conditional", None, Some(false)),
            fref("external", None, None),
        ] },
        ChainEntry { path: "b".into(), scope: "project".into(), exists: false, token_count: 0, references: vec![] },
        ChainEntry { path: "c".into(), scope: "project".into(), exists: true, token_count: 7, references: vec![fref("external", None, None)] },
    ];
    let t = context_totals(&chain);
    assert_eq!(t.always_tokens, 107);
    assert_eq!(t.conditional_tokens, 15);
    assert_eq!(t.total_worst_case, 122);
    assert_eq!(t.external_services, 2);
    assert_eq!(t.files_missing, 1);
}

#[test]
fn read_file_rules() {
    assert_eq!(read_file_target("~/notes/a.md", "/home/u").ok(), Some("/home/u/notes/a.md".to_string()));
    assert!(matches!(read_file_target("/etc/passwd.md", "/home/u"), Err(ReadFileError::OutsideHome)));
    match read_file_target("/home/u/bin/run.sh", "/home/u") {
        Err(ReadFileError::TypeNotAllowed(e)) => assert_eq!(e, "sh"),
        _ => panic!("expected a refused type"),
    }
    match read_file_target("/home/u/Makefile", "/home/u") {
        Err(ReadFileError::TypeNotAllowed(e)) => assert_eq!(e, ""),
        _ => panic!("expected a refused type"),
    }
}

#[test]
fn picked_folder_is_trimmed() {
    assert_eq!(picked_folder("/Users/a/proj/\n"), "/Users/a/proj");
    assert_eq!(picked_folder("  /x//  "), "/x");
}

#[test]
fn read_file_refuses_paths_that_climb_out_of_home() {
    assert!(matches!(read_file_target("~/../../etc/hosts.txt", "/home/u"), Err(ReadFileError::OutsideHome)));
    assert_eq!(read_file_target("~/notes/../notes/./a.md", "/home/u").ok(), Some("/home/u/notes/a.md".to_string()));
}

#[test]
fn read_file_refuses_env_and_sql() {
    match read_file_target("~/notes/keys.env", "/home/u") {
        Err(ReadFileError::TypeNotAllowed(e)) => assert_eq!(e, "env"),
        _ => panic!("env files must not be readable"),
    }
    assert!(matches!(read_file_target("/home/u/db/schema.sql", "/home/u"), Err(ReadFileError::TypeNotAllowed(_))));
}

#[test]
fn normalize_path_resolves_dots() {
    assert_eq!(sep::api::context::normalize_path("/a/b/../c/./d//"), "/a/c/d");
    assert_eq!(sep::api::context::normalize_path("/.."), "/");
    assert_eq!(sep::api::context::normalize_path("x/./y"), "x/y");
}
