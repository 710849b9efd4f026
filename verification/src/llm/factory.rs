//! Checking a provider configuration before a provider is built from it.
use vstd::prelude::*;
use crate::llm::LlmProviderError;
use crate::llm::chain::ProviderChainPolicy;
use crate::llm::registry::{ProviderBackend, provider_spec, registry_entry};
use crate::text::{is_blank, push_str, to_owned_string, trim, trim_end_by, CharClass};
use crate::llm::http_text::normalize_base_url;

verus! {

pub struct ProviderConfig {
    pub provider: String,
    pub model: String,
    pub api_key: String,
    pub api_base: Option<String>,
}

pub struct ProviderChainConfig {
    pub providers: Vec<ProviderConfig>,
    pub policy: ProviderChainPolicy,
}

/// What a provider is built from once its configuration has been checked.
pub struct ProviderPlan {
    pub backend: ProviderBackend,
    pub model: String,
    pub api_key: String,
    pub base_url: Option<String>,
}

pub open spec fn invalid_config(r: Result<ProviderPlan, LlmProviderError>, reason: Seq<char>) -> bool {
    r matches Err(LlmProviderError::InvalidConfig { reason: x }) && x@ == reason
}

/// Checks a provider configuration: provider, model and API key must not be
/// blank, and the provider must be known.  The base URL is the configured one
/// or else the provider's default.
pub fn plan_provider(config: ProviderConfig) -> (r: Result<ProviderPlan, LlmProviderError>)
    ensures
        trim(config.provider@).len() == 0 ==> invalid_config(r, "provider is required"@),
        trim(config.provider@).len() != 0 && trim(config.model@).len() == 0 ==> invalid_config(
            r,
            "model is required"@,
        ),
        trim(config.provider@).len() != 0 && trim(config.model@).len() != 0 && trim(
            config.api_key@,
        ).len() == 0 ==> invalid_config(r, "api_key is required"@),
        trim(config.provider@).len() != 0 && trim(config.model@).len() != 0 && trim(
            config.api_key@,
        ).len() != 0 ==> match registry_entry(config.provider@) {
            None => invalid_config(r, "unknown provider `"@ + config.provider@ + "`"@),
            Some((backend, default_url)) => r matches Ok(p) && p.backend == backend && p.model@
                == config.model@ && p.api_key@ == config.api_key@ && match config.api_base {
                Some(b) => p.base_url matches Some(u) && u@ == b@,
                None => match default_url {
                    Some(d) => p.base_url matches Some(u) && u@ == d,
                    None => p.base_url is None,
                },
            },
        },
{
    if is_blank(config.provider.as_str()) {
        return Err(LlmProviderError::InvalidConfig { reason: to_owned_string("provider is required") });
    }
    if is_blank(config.model.as_str()) {
        return Err(LlmProviderError::InvalidConfig { reason: to_owned_string("model is required") });
    }
    if is_blank(config.api_key.as_str()) {
        return Err(LlmProviderError::InvalidConfig { reason: to_owned_string("api_key is required") });
    }
    let spec = match provider_spec(config.provider.as_str()) {
        Some(s) => s,
        None => {
            let mut reason = to_owned_string("unknown provider `");
            push_str(&mut reason, config.provider.as_str());
            push_str(&mut reason, "`");
            return Err(LlmProviderError::InvalidConfig { reason });
        },
    };
    let base_url = match config.api_base {
        Some(b) => Some(b),
        None => match spec.default_base_url {
            Some(d) => Some(to_owned_string(d)),
            None => None,
        },
    };
    Ok(ProviderPlan { backend: spec.backend, model: config.model, api_key: config.api_key, base_url })
}

/// The label of a provider in a chain: `provider/model`.
pub fn provider_label(config: &ProviderConfig) -> (r: String)
    ensures
        r@ == config.provider@ + "/"@ + config.model@,
{
    let mut out = to_owned_string(config.provider.as_str());
    push_str(&mut out, "/");
    push_str(&mut out, config.model.as_str());
    out
}

/// A chain needs at least one provider.
pub fn check_chain_config(config: &ProviderChainConfig) -> (r: Result<(), LlmProviderError>)
    ensures
        config.providers@.len() == 0 <==> r is Err,
        r matches Err(LlmProviderError::InvalidConfig { reason }) ==> reason@
            == "provider chain must include at least one provider"@,
        r is Err ==> r matches Err(LlmProviderError::InvalidConfig { .. }),
{
    if config.providers.len() == 0 {
        return Err(
            LlmProviderError::InvalidConfig {
                reason: to_owned_string("provider chain must include at least one provider"),
            },
        );
    }
    Ok(())
}


/// The base URL a backend uses when none is configured.
pub open spec fn backend_default_url(backend: ProviderBackend) -> Seq<char> {
    match backend {
        ProviderBackend::OpenAiCompatible => "https://api.openai.com/v1"@,
        ProviderBackend::Anthropic => "https://api.anthropic.com"@,
    }
}

/// The base URL a provider sends to: the planned one, else its backend's
/// default, without trailing slashes.
pub fn provider_base_url(plan: &ProviderPlan) -> (r: String)
    ensures
        r@ == trim_end_by(
            match plan.base_url {
                Some(u) => u@,
                None => backend_default_url(plan.backend),
            },
            CharClass::One('/'),
        ),
{
    match &plan.base_url {
        Some(u) => normalize_base_url(u.as_str()),
        None => match plan.backend {
            ProviderBackend::OpenAiCompatible => normalize_base_url(crate::llm::openai::DEFAULT_OPENAI_BASE_URL),
            ProviderBackend::Anthropic => normalize_base_url(crate::llm::anthropic::DEFAULT_ANTHROPIC_BASE_URL),
        },
    }
}

} // verus!
