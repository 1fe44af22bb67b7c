# sep

A local daemon that reads coding-session transcripts, distils them into
project memory (decisions, blockers, open questions, phase, diagrams) and
serves that memory, session statistics and context traces over HTTP.

## Layout

- `src/` — the verified library (Verus). Parsing and filtering of
  transcripts, Mermaid extraction, prompt building and chunking, the
  rendering of hot memory and the project brain, the state store's upsert
  rules, session scanning, statistics and billing, the reference chain of
  instruction files, and the checks behind the HTTP handlers. Calls into
  `regex`, `sha2`, `chrono` and `serde_json` stand behind small trusted
  wrappers; their `ensures` clauses state what is assumed of each call, and
  their doc comments say which outside function they make.
- `app/` — the daemon around it: configuration files, SQLite, HTTP routes,
  the event stream, the LLM backends and the JSON (de)serialisation of the
  library's types.
- `tests/` — tests of the library's public functions.
