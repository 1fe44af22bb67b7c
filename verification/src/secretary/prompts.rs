//! Prompt templates and the prompts built from them.

use vstd::prelude::*;
use crate::text::{chars_of, string_of, extend_str, extend_chars};
use crate::textops::{replace_all, replace_chars, starts_with, ends_with};

verus! {

/// Loads prompt templates from a directory and fills them in.
pub struct PromptLoader {
    /// The directory's path, as text.
    pub prompts_dir: String,
}

/// `rel` resolved against `base` (std `Path::join` on `/`-separated paths):
/// an absolute `rel` replaces `base`; otherwise a separator is added unless
/// `base` is empty or already ends with one.
pub open spec fn join_path(base: Seq<char>, rel: Seq<char>) -> Seq<char> {
    if starts_with(rel, "/"@) {
        rel
    } else if base.len() == 0 {
        rel
    } else if ends_with(base, "/"@) {
        base + rel
    } else {
        base + "/"@ + rel
    }
}

/// `rel` resolved against `base` (see [`join_path`]).
pub fn join_paths(base: &str, rel: &str) -> (r: String)
    ensures
        r@ == join_path(base@, rel@),
{
    proof {
        reveal_strlit("/");
    }
    let b = chars_of(base);
    let r = chars_of(rel);
    if r.len() > 0 && r[0] == '/' {
        proof {
            assert(rel@.take(1) =~= "/"@);
        }
        return rel.to_string();
    }
    proof {
        assert(!starts_with(rel@, "/"@)) by {
            if starts_with(rel@, "/"@) {
                assert(rel@.take(1)[0] == '/');
            }
        }
    }
    if b.len() == 0 {
        return rel.to_string();
    }
    let mut out = b.clone();
    if b[b.len() - 1] == '/' {
        proof {
            assert(ends_with(base@, "/"@)) by {
                assert(base@.skip(base@.len() - 1) =~= "/"@);
            }
        }
        extend_chars(&mut out, r.as_slice());
    } else {
        proof {
            assert(!ends_with(base@, "/"@)) by {
                if ends_with(base@, "/"@) {
                    assert(base@.skip(base@.len() - 1)[0] == base@[base@.len() - 1]);
                }
            }
        }
        out.push('/');
        extend_chars(&mut out, r.as_slice());
        proof {
            assert(out@ =~= base@ + "/"@ + rel@);
        }
    }
    string_of(out.as_slice())
}

/// A prompt template filled with a transcript chunk: every `{chunk}` replaced.
pub open spec fn filled(template: Seq<char>, chunk: Seq<char>) -> Seq<char> {
    replace_all(template, "{chunk}"@, chunk)
}

impl PromptLoader {
    pub fn new(prompts_dir: &str) -> (r: Self)
        ensures
            r.prompts_dir@ == prompts_dir@,
    {
        PromptLoader { prompts_dir: prompts_dir.to_string() }
    }

    /// The path of the template named `name`: `<prompts_dir>/<name>.txt`.
    pub fn template_path(&self, name: &str) -> (r: String)
        ensures
            r@ == join_path(self.prompts_dir@, name@ + ".txt"@),
    {
        let mut f = chars_of(name);
        extend_str(&mut f, ".txt");
        let file = string_of(f.as_slice());
        join_paths(self.prompts_dir.as_str(), file.as_str())
    }

    /// Replace `{chunk}` in a loaded template with the transcript text.
    pub fn fill(template: &str, chunk: &str) -> (r: String)
        ensures
            r@ == filled(template@, chunk@),
    {
        proof {
            reveal_strlit("{chunk}");
        }
        let t = chars_of(template);
        let p = chars_of("{chunk}");
        let c = chars_of(chunk);
        let out = replace_chars(t.as_slice(), p.as_slice(), c.as_slice());
        string_of(out.as_slice())
    }
}

/// The JSON schema that decision extraction asks the model to follow.
pub const DECISIONS_SCHEMA: &'static str = "{
        \"type\": \"array\",
        \"items\": {
            \"type\": \"object\",
            \"required\": [\"decision\", \"rationale\", \"domain\"],
            \"properties\": {
                \"decision\": { \"type\": \"string\" },
                \"rationale\": { \"type\": \"string\" },
                \"domain\": { \"type\": \"string\" },
                \"alternatives_rejected\": {
                    \"type\": \"array\",
                    \"items\": { \"type\": \"string\" }
                },
                \"files\": {
                    \"type\": \"array\",
                    \"items\": { \"type\": \"string\" }
                }
            }
        }
    }";

/// The JSON schema that phase detection asks the model to follow.
pub const PHASE_SCHEMA: &'static str = "{
        \"type\": \"object\",
        \"required\": [\"domain\", \"phase\", \"confidence\", \"signal\"],
        \"properties\": {
            \"domain\": { \"type\": \"string\" },
            \"phase\": {
                \"type\": \"string\",
                \"enum\": [\"exploring\", \"design\", \"ready\", \"blocked\", \"review\", \"done\"]
            },
            \"confidence\": { \"type\": \"number\" },
            \"signal\": { \"type\": \"string\" }
        }
    }";

} // verus!
