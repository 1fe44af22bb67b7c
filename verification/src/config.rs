//! Configuration values and their defaults.

use vstd::prelude::*;

verus! {

/// Settings of the transcript filter.
pub struct IngesterConfig {
    pub max_tool_result_tokens: usize,
    pub collapse_repeated_edits: bool,
}

/// Which backend answers extraction prompts.
#[derive(PartialEq, Eq, Structural, Clone, Copy, Debug)]
pub enum SecretaryBackend {
    Embedded,
    Ollama,
    OpenaiCompat,
}

pub fn default_gpu_layers() -> (r: u32)
    ensures
        r == 99,
{
    99
}

pub fn default_context_size() -> (r: u32)
    ensures
        r == 8192,
{
    8192
}

pub fn default_max_tool_result_tokens() -> (r: usize)
    ensures
        r == 500,
{
    500
}

pub fn default_true() -> (r: bool)
    ensures
        r,
{
    true
}

} // verus!

verus! {

/// HTTP server settings. Paths are held as their text.
pub struct ServerConfig {
    pub port: u16,
    pub data_dir: String,
    pub sessions_dir: String,
    pub debug: bool,
}

/// Settings of the embedded GGUF backend.
pub struct EmbeddedConfig {
    pub model_path: String,
    pub gpu_layers: u32,
    pub context_size: u32,
}

/// Settings of the Ollama backend.
pub struct OllamaConfig {
    pub url: String,
    pub model: String,
}

/// Settings of an OpenAI-compatible backend.
pub struct OpenAICompatConfig {
    pub url: String,
    pub model: String,
}

/// Which extraction backend runs, and where prompts live.
pub struct SecretaryConfig {
    pub backend: SecretaryBackend,
    pub prompts_dir: String,
    pub embedded: Option<EmbeddedConfig>,
    pub ollama: Option<OllamaConfig>,
    pub openai_compat: Option<OpenAICompatConfig>,
}

} // verus!

verus! {

use crate::secretary::prompts::{join_path, join_paths};
use crate::textops::starts_with;

impl ServerConfig {
    /// The data directory of a project.
    pub fn project_data_dir(&self, project: &str) -> (r: String)
        ensures
            r@ == join_path(self.data_dir@, project@),
    {
        join_paths(self.data_dir.as_str(), project)
    }

    /// The SQLite database of a project.
    pub fn project_db_path(&self, project: &str) -> (r: String)
        ensures
            r@ == join_path(join_path(self.data_dir@, project@), "state.db"@),
    {
        let d = self.project_data_dir(project);
        join_paths(d.as_str(), "state.db")
    }
}

/// A configured path with a leading `~/` taken from the home directory
/// (when the home directory is known).
pub open spec fn tilde_expanded(path: Seq<char>, home: Option<Seq<char>>) -> Seq<char> {
    match home {
        Some(h) => if starts_with(path, "~/"@) {
            join_path(h, path.skip(2))
        } else {
            path
        },
        None => path,
    }
}

/// Expand a leading `~/` with the home directory, if it is known.
pub fn expand_tilde(path: &str, home: Option<&str>) -> (r: String)
    ensures
        r@ == tilde_expanded(
            path@,
            match home {
                Some(h) => Some(h@),
                None => None,
            },
        ),
{
    let v = crate::text::chars_of(path);
    let tilde = crate::text::chars_of("~/");
    match home {
        Some(h) => if crate::textops::starts_with_chars(v.as_slice(), tilde.as_slice()) {
            proof {
                reveal_strlit("~/");
            }
            let rest = crate::text::slice_chars(v.as_slice(), 2, v.len());
            let rest_s = crate::text::string_of(rest.as_slice());
            proof {
                assert(rest_s@ =~= path@.skip(2));
            }
            join_paths(h, rest_s.as_str())
        } else {
            path.to_string()
        },
        None => path.to_string(),
    }
}

} // verus!
