//! What the extraction backends send and keep: endpoints, prompt framing,
//! the generation loop's decisions and the replies' text.

use vstd::prelude::*;
use crate::config::{SecretaryBackend, SecretaryConfig};
use crate::text::{chars_of, string_of, strip_end_by, trim, opt_view};

verus! {

pub open spec fn slash_pred() -> spec_fn(char) -> bool {
    |c: char| c == '/'
}

/// A server's base URL: the configured one without trailing `/`.
pub fn base_url(url: &str) -> (r: String)
    ensures
        r@ == strip_end_by(url@, slash_pred()),
{
    let v = chars_of(url);
    let mut k: usize = v.len();
    proof {
        assert(v@.subrange(0, k as int) =~= v@);
    }
    while k > 0 && v[k - 1] == '/'
        invariant
            k <= v@.len(),
            v@ == url@,
            strip_end_by(url@, slash_pred()) == strip_end_by(v@.subrange(0, k as int), slash_pred()),
        decreases k,
    {
        assert(v@.subrange(0, k as int).drop_last() =~= v@.subrange(0, k - 1));
        k = k - 1;
    }
    let r = crate::text::slice_chars(v.as_slice(), 0, k);
    string_of(r.as_slice())
}

fn concat(a: &str, b: &str) -> (r: String)
    ensures
        r@ == a@ + b@,
{
    let mut v = chars_of(a);
    crate::text::extend_str(&mut v, b);
    string_of(v.as_slice())
}

/// The Ollama generation endpoint under a base URL.
pub fn ollama_endpoint(base: &str) -> (r: String)
    ensures
        r@ == base@ + "/api/generate"@,
{
    concat(base, "/api/generate")
}

/// The chat-completions endpoint of an OpenAI-compatible server.
pub fn chat_endpoint(base: &str) -> (r: String)
    ensures
        r@ == base@ + "/chat/completions"@,
{
    concat(base, "/chat/completions")
}

/// The instruction framing of the embedded model (ChatML).
pub open spec fn chatml(prompt: Seq<char>) -> Seq<char> {
    "<|im_start|>system\nYou are an expert technical analyst. Output only valid JSON, no prose or explanation.<|im_end|>\n<|im_start|>user\n"@
        + prompt + "<|im_end|>\n<|im_start|>assistant\n"@
}

/// A prompt framed for the embedded instruction-tuned model.
pub fn chatml_prompt(prompt: &str) -> (r: String)
    ensures
        r@ == chatml(prompt@),
{
    let mut v = chars_of(
        "<|im_start|>system\nYou are an expert technical analyst. Output only valid JSON, no prose or explanation.<|im_end|>\n<|im_start|>user\n",
    );
    crate::text::extend_str(&mut v, prompt);
    crate::text::extend_str(&mut v, "<|im_end|>\n<|im_start|>assistant\n");
    string_of(v.as_slice())
}

/// Whether a prompt of `token_count` tokens leaves room in a context of
/// `context_size` tokens (the count is taken as a `u32`, as the model does).
pub fn prompt_fits(token_count: usize, context_size: u32) -> (r: bool)
    ensures
        r == ((token_count as u32) < context_size),
{
    (#[verifier::truncate] (token_count as u32)) < context_size
}

/// The most tokens the embedded model generates for one answer.
pub const MAX_OUTPUT_TOKENS: usize = 2048;

/// What the generation loop does after sampling a token.
pub enum GenerationStep {
    /// The answer is complete.
    Stop,
    /// Feed the token back at this position.
    Feed { position: i32 },
}

/// The generation loop's decision at step `step`: stop at the end-of-text
/// token or after `MAX_OUTPUT_TOKENS` steps; otherwise feed the token back
/// after the prompt and the tokens generated so far.
pub fn next_generation_step(step: usize, is_eos: bool, prompt_tokens: usize, generated: usize) -> (r: GenerationStep)
    requires
        prompt_tokens + generated <= usize::MAX,
    ensures
        (step >= MAX_OUTPUT_TOKENS || is_eos) ==> r is Stop,
        (step < MAX_OUTPUT_TOKENS && !is_eos) ==> r == (GenerationStep::Feed {
            position: (prompt_tokens + generated) as i32,
        }),
{
    if step >= MAX_OUTPUT_TOKENS || is_eos {
        GenerationStep::Stop
    } else {
        let sum = prompt_tokens + generated;
        GenerationStep::Feed { position: #[verifier::truncate] (sum as i32) }
    }
}

/// A model's answer: its text trimmed.
pub fn answer_text(raw: &str) -> (r: String)
    ensures
        r@ == trim(raw@),
{
    let v = chars_of(raw);
    let t = crate::text::trim_chars(v.as_slice());
    string_of(t.as_slice())
}

/// The answer of an OpenAI-compatible server: the first choice's content,
/// trimmed ("" when there is no choice).
pub fn first_choice_text(contents: &Vec<String>) -> (r: String)
    ensures
        r@ == (if contents@.len() > 0 {
            trim(contents@[0]@)
        } else {
            seq![]
        }),
{
    if contents.len() > 0 {
        answer_text(contents[0].as_str())
    } else {
        proof {
            reveal_strlit("");
        }
        answer_text("")
    }
}

/// The error of a configuration whose chosen backend has no settings.
pub open spec fn missing_settings(c: SecretaryConfig) -> Option<Seq<char>> {
    match c.backend {
        SecretaryBackend::Embedded => if c.embedded is None {
            Some("secretary.embedded config required when backend = 'embedded'"@)
        } else {
            None
        },
        SecretaryBackend::Ollama => if c.ollama is None {
            Some("secretary.ollama config required when backend = 'ollama'"@)
        } else {
            None
        },
        SecretaryBackend::OpenaiCompat => if c.openai_compat is None {
            Some("secretary.openai_compat config required when backend = 'openai-compat'"@)
        } else {
            None
        },
    }
}

/// Why the configured backend cannot be built, if its settings are missing.
pub fn missing_backend_settings(c: &SecretaryConfig) -> (r: Option<String>)
    ensures
        opt_view(r) == missing_settings(*c),
{
    match c.backend {
        SecretaryBackend::Embedded => if c.embedded.is_none() {
            Some("secretary.embedded config required when backend = 'embedded'".to_string())
        } else {
            None
        },
        SecretaryBackend::Ollama => if c.ollama.is_none() {
            Some("secretary.ollama config required when backend = 'ollama'".to_string())
        } else {
            None
        },
        SecretaryBackend::OpenaiCompat => if c.openai_compat.is_none() {
            Some("secretary.openai_compat config required when backend = 'openai-compat'".to_string())
        } else {
            None
        },
    }
}

} // verus!
