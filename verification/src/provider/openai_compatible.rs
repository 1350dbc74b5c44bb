//! OpenAI-compatible endpoints (ollama, vllm, openrouter, groq, llama.cpp, ...).
//!
//! These speak the exact Chat Completions wire format, so this is a thin constructor over
//! [`OpenAiChat`] with the base URL set and capabilities relaxed (local models often lack image
//! support).

use crate::engine::types::Caps;
use crate::provider::openai_chat::OpenAiChat;
use vstd::prelude::*;

verus! {

/// Build the settings for an OpenAI-compatible server. `api_key` may be any non-empty string for
/// servers that don't authenticate.
pub fn openai_compatible(base_url: &str, api_key: &str, model: &str) -> (r: OpenAiChat)
    ensures
        r.base_url@ == base_url@,
        r.api_key@ == api_key@,
        r.model@ == model@,
        r.caps == (Caps {
            thinking: false,
            tools: true,
            images: false,
            prompt_cache: false,
            native_context_mgmt: false,
        }),
{
    OpenAiChat::new(api_key, model).with_base_url(base_url).with_caps(
        Caps {
            thinking: false,
            tools: true,
            images: false,  // conservative default; override per model
            prompt_cache: false,
            native_context_mgmt: false,
        },
    )
}

} // verus!
