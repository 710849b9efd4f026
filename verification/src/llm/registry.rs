//! The known provider names and the backend each one speaks.
use vstd::prelude::*;
use crate::text::str_eq;

verus! {

#[derive(Clone, Copy, PartialEq, Eq, Structural)]
pub enum ProviderBackend {
    OpenAiCompatible,
    Anthropic,
}

#[derive(Clone, Copy)]
pub struct ProviderSpec {
    pub name: &'static str,
    pub backend: ProviderBackend,
    pub default_base_url: Option<&'static str>,
}

pub open spec fn opt_str(s: Option<&'static str>) -> Option<Seq<char>> {
    match s {
        Some(t) => Some(t@),
        None => None,
    }
}

/// The registry: each known provider name with its backend and, where it
/// has one, its default base URL.
pub open spec fn registry_entry(name: Seq<char>) -> Option<(ProviderBackend, Option<Seq<char>>)> {
    if name == "anthropic"@ {
        Some((ProviderBackend::Anthropic, None))
    } else if name == "openai"@ {
        Some((ProviderBackend::OpenAiCompatible, None))
    } else if name == "openrouter"@ {
        Some((ProviderBackend::OpenAiCompatible, Some("https://openrouter.ai/api/v1"@)))
    } else if name == "groq"@ {
        Some((ProviderBackend::OpenAiCompatible, Some("https://api.groq.com/openai/v1"@)))
    } else if name == "zhipu"@ {
        Some((ProviderBackend::OpenAiCompatible, Some("https://open.bigmodel.cn/api/paas/v4"@)))
    } else if name == "vllm"@ {
        Some((ProviderBackend::OpenAiCompatible, Some("http://localhost:8000/v1"@)))
    } else if name == "gemini"@ {
        Some(
            (
                ProviderBackend::OpenAiCompatible,
                Some("https://generativelanguage.googleapis.com/v1beta/openai"@),
            ),
        )
    } else if name == "ollama"@ {
        Some((ProviderBackend::OpenAiCompatible, Some("http://localhost:11434/v1"@)))
    } else if name == "nvidia"@ {
        Some((ProviderBackend::OpenAiCompatible, Some("https://integrate.api.nvidia.com/v1"@)))
    } else if name == "deepseek"@ {
        Some((ProviderBackend::OpenAiCompatible, Some("https://api.deepseek.com/v1"@)))
    } else {
        None
    }
}

fn entry(name: &'static str, backend: ProviderBackend, default_base_url: Option<&'static str>) -> (r:
    Option<ProviderSpec>)
    ensures
        r matches Some(s) && s.name == name && s.backend == backend && s.default_base_url
            == default_base_url,
{
    Some(ProviderSpec { name, backend, default_base_url })
}

/// The registry entry for `name`, if the name is known.
pub fn provider_spec(name: &str) -> (r: Option<ProviderSpec>)
    ensures
        match r {
            Some(s) => s.name@ == name@ && registry_entry(name@) == Some(
                (s.backend, opt_str(s.default_base_url)),
            ),
            None => registry_entry(name@) is None,
        },
{
    if str_eq(name, "anthropic") {
        entry("anthropic", ProviderBackend::Anthropic, None)
    } else if str_eq(name, "openai") {
        entry("openai", ProviderBackend::OpenAiCompatible, None)
    } else if str_eq(name, "openrouter") {
        entry("openrouter", ProviderBackend::OpenAiCompatible, Some("https://openrouter.ai/api/v1"))
    } else if str_eq(name, "groq") {
        entry("groq", ProviderBackend::OpenAiCompatible, Some("https://api.groq.com/openai/v1"))
    } else if str_eq(name, "zhipu") {
        entry("zhipu", ProviderBackend::OpenAiCompatible, Some("https://open.bigmodel.cn/api/paas/v4"))
    } else if str_eq(name, "vllm") {
        entry("vllm", ProviderBackend::OpenAiCompatible, Some("http://localhost:8000/v1"))
    } else if str_eq(name, "gemini") {
        entry(
            "gemini",
            ProviderBackend::OpenAiCompatible,
            Some("https://generativelanguage.googleapis.com/v1beta/openai"),
        )
    } else if str_eq(name, "ollama") {
        entry("ollama", ProviderBackend::OpenAiCompatible, Some("http://localhost:11434/v1"))
    } else if str_eq(name, "nvidia") {
        entry("nvidia", ProviderBackend::OpenAiCompatible, Some("https://integrate.api.nvidia.com/v1"))
    } else if str_eq(name, "deepseek") {
        entry("deepseek", ProviderBackend::OpenAiCompatible, Some("https://api.deepseek.com/v1"))
    } else {
        None
    }
}

} // verus!
