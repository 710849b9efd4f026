use ais_agent::json::JsonValue;
use ais_agent::llm::chain::{ProviderChain, ProviderChainPolicy, RotationMode};
use ais_agent::llm::factory::{check_chain_config, plan_provider, provider_base_url, provider_label, ProviderChainConfig, ProviderConfig};
use ais_agent::llm::http_text::{normalize_base_url, truncate_body};
use ais_agent::llm::registry::{provider_spec, ProviderBackend};
use ais_agent::llm::{
    CompleteWithToolsRequest, CompleteWithToolsResponse, LlmErrorClass, LlmProvider,
    LlmProviderError, ScriptedLlmProvider, ToolCall,
};

fn empty_request() -> CompleteWithToolsRequest {
    CompleteWithToolsRequest { messages: vec![], tools: vec![] }
}

fn ok_provider(label: &str) -> ScriptedLlmProvider {
    ScriptedLlmProvider::from_responses(vec![Ok(CompleteWithToolsResponse {
        assistant_content: Some(label.to_string()),
        tool_calls: vec![],
    })])
}

#[test]
fn scripted_provider_returns_responses_in_order() {
    let mut args = JsonValue::empty_object();
    args.insert("node_id".to_string(), JsonValue::from_text("n1"));
    let mut provider = ScriptedLlmProvider::from_responses(vec![
        Ok(CompleteWithToolsResponse {
            assistant_content: Some("first".to_string()),
            tool_calls: vec![],
        }),
        Ok(CompleteWithToolsResponse {
            assistant_content: Some("second".to_string()),
            tool_calls: vec![ToolCall {
                id: "tool-1".to_string(),
                name: "confirm".to_string(),
                arguments: args,
            }],
        }),
    ]);
    let request = empty_request();
    let first = match provider.complete_with_tools(request.clone_request()) {
        Ok(r) => r,
        Err(_) => panic!("first call"),
    };
    assert_eq!(first.assistant_content.as_deref(), Some("first"));
    let second = match provider.complete_with_tools(request) {
        Ok(r) => r,
        Err(_) => panic!("second call"),
    };
    assert_eq!(second.tool_calls.len(), 1);
    assert_eq!(second.tool_calls[0].name, "confirm");
}

#[test]
fn provider_error_classification_is_stable() {
    let retryable = LlmProviderError::HttpStatus { status: 429, body: "rate_limit".to_string() };
    assert!(retryable.classify() == LlmErrorClass::Retryable);
    assert!(retryable.is_fallbackable());

    let fallbackable = LlmProviderError::DecodeFailed { reason: "invalid json".to_string() };
    assert!(fallbackable.classify() == LlmErrorClass::Fallbackable);
    assert!(!fallbackable.is_retryable());

    let fatal = LlmProviderError::InvalidConfig { reason: "missing key".to_string() };
    assert!(fatal.classify() == LlmErrorClass::Fatal);
    assert!(!fatal.is_fallbackable());
}

#[test]
fn call_failure_text_decides_retry() {
    let timeout = LlmProviderError::CallFailed { reason: "Request TIMED OUT after 120s".to_string() };
    assert!(timeout.classify() == LlmErrorClass::Retryable);
    let other = LlmProviderError::CallFailed { reason: "certificate rejected".to_string() };
    assert!(other.classify() == LlmErrorClass::Fallbackable);
    let status = LlmProviderError::HttpStatus { status: 404, body: String::new() };
    assert!(status.classify() == LlmErrorClass::Fallbackable);
    let server = LlmProviderError::HttpStatus { status: 503, body: String::new() };
    assert!(server.classify() == LlmErrorClass::Retryable);
    assert!(LlmProviderError::ChainExhausted { reason: String::new() }.classify() == LlmErrorClass::Fatal);
}

#[test]
fn error_message_matches_display_text() {
    let e = LlmProviderError::HttpStatus { status: 429, body: "rate_limit".to_string() };
    assert_eq!(e.message(), "llm provider http status 429: rate_limit");
    let e = LlmProviderError::CallFailed { reason: "boom".to_string() };
    assert_eq!(e.message(), "llm provider call failed: boom");
}

#[test]
fn anthropic_truncate_body_truncates_large_text() {
    let big = "b".repeat(4096);
    let truncated = truncate_body(big.as_str());
    assert!(truncated.len() < big.len());
    assert!(truncated.ends_with("…(truncated)"));
}

#[test]
fn openai_compatible_truncate_body_truncates_large_text() {
    let big = "a".repeat(4096);
    let truncated = truncate_body(big.as_str());
    assert!(truncated.len() < big.len());
    assert!(truncated.ends_with("…(truncated)"));
}

#[test]
fn truncate_body_keeps_short_text() {
    assert_eq!(truncate_body("short"), "short");
    let exact = "c".repeat(2048);
    assert_eq!(truncate_body(exact.as_str()), exact);
    let over = "d".repeat(2049);
    assert_eq!(truncate_body(over.as_str()), format!("{}…(truncated)", "d".repeat(2048)));
}

#[test]
fn normalize_base_url_trims_trailing_slash() {
    assert_eq!(normalize_base_url("https://openrouter.ai/api/v1/"), "https://openrouter.ai/api/v1");
}

#[test]
fn normalize_base_url_trims_every_trailing_slash() {
    assert_eq!(normalize_base_url("http://h/x///"), "http://h/x");
    assert_eq!(normalize_base_url("///"), "");
    assert_eq!(normalize_base_url("http://h/x"), "http://h/x");
}

#[test]
fn registry_contains_expected_backends() {
    let anthropic = provider_spec("anthropic").expect("anthropic exists");
    assert!(anthropic.backend == ProviderBackend::Anthropic);
    let openrouter = provider_spec("openrouter").expect("openrouter exists");
    assert!(openrouter.backend == ProviderBackend::OpenAiCompatible);
    assert!(provider_spec("unknown").is_none());
}

#[test]
fn registry_default_urls() {
    assert_eq!(provider_spec("groq").unwrap().default_base_url, Some("https://api.groq.com/openai/v1"));
    assert_eq!(provider_spec("openai").unwrap().default_base_url, None);
}

fn config(provider: &str, model: &str, key: &str) -> ProviderConfig {
    ProviderConfig {
        provider: provider.to_string(),
        model: model.to_string(),
        api_key: key.to_string(),
        api_base: None,
    }
}

#[test]
fn build_provider_rejects_unknown_provider() {
    let result = plan_provider(config("foo", "bar", "key"));
    let error = result.err().expect("must reject");
    assert!(matches!(error, LlmProviderError::InvalidConfig { .. }));
    assert_eq!(error.message(), "llm provider config invalid: unknown provider `foo`");
}

#[test]
fn build_provider_accepts_openai() {
    let provider = plan_provider(config("openai", "gpt-4.1-mini", "key"));
    assert!(provider.is_ok());
    assert_eq!(provider_base_url(&provider.ok().unwrap()), "https://api.openai.com/v1");
    let anthropic = plan_provider(config("anthropic", "sonnet-4", "key")).ok().unwrap();
    assert_eq!(provider_base_url(&anthropic), "https://api.anthropic.com");
    let mut c = config("openai", "m", "k");
    c.api_base = Some("http://proxy/v1//".to_string());
    assert_eq!(provider_base_url(&plan_provider(c).ok().unwrap()), "http://proxy/v1");
}

#[test]
fn plan_provider_reports_missing_fields_in_order() {
    let e = plan_provider(config("  ", "", "")).err().unwrap();
    assert_eq!(e.message(), "llm provider config invalid: provider is required");
    let e = plan_provider(config("openai", " ", "")).err().unwrap();
    assert_eq!(e.message(), "llm provider config invalid: model is required");
    let e = plan_provider(config("openai", "m", "\t")).err().unwrap();
    assert_eq!(e.message(), "llm provider config invalid: api_key is required");
    let plan = plan_provider(config("groq", "m", "k")).ok().unwrap();
    assert_eq!(plan.base_url.as_deref(), Some("https://api.groq.com/openai/v1"));
    let mut c = config("groq", "m", "k");
    c.api_base = Some("http://mine".to_string());
    assert_eq!(plan_provider(c).ok().unwrap().base_url.as_deref(), Some("http://mine"));
}

#[test]
fn build_provider_chain_rejects_empty_chain() {
    let result = check_chain_config(&ProviderChainConfig {
        providers: vec![],
        policy: ProviderChainPolicy::default(),
    });
    let error = result.err().expect("must reject");
    assert!(matches!(error, LlmProviderError::InvalidConfig { .. }));
}

#[test]
fn build_provider_chain_accepts_primary_and_fallback() {
    let chain = ProviderChainConfig {
        providers: vec![config("openai", "gpt-4.1-mini", "key"), config("groq", "llama-3.3-70b-versatile", "key")],
        policy: ProviderChainPolicy { max_retries_per_provider: 1, rotation_mode: RotationMode::StickyPrimary },
    };
    assert!(check_chain_config(&chain).is_ok());
    assert_eq!(provider_label(&chain.providers[1]), "groq/llama-3.3-70b-versatile");
    let urls: Vec<String> = chain.providers.into_iter().map(|p| provider_base_url(&plan_provider(p).ok().unwrap())).collect();
    assert_eq!(urls, vec!["https://api.openai.com/v1".to_string(), "https://api.groq.com/openai/v1".to_string()]);
}

#[test]
fn chain_falls_back_to_secondary_provider() {
    let primary = ScriptedLlmProvider::from_responses(vec![Err(LlmProviderError::HttpStatus {
        status: 429,
        body: "rate_limit".to_string(),
    })]);
    let secondary = ok_provider("secondary-ok");
    let mut chain = ProviderChain::new(
        vec![Box::new(primary), Box::new(secondary)],
        vec!["primary".to_string(), "secondary".to_string()],
        ProviderChainPolicy::default(),
    )
    .ok()
    .expect("chain");
    let response = chain.complete_with_tools(empty_request()).ok().expect("fallback succeeds");
    assert_eq!(response.assistant_content.as_deref(), Some("secondary-ok"));
}

#[test]
fn chain_retries_same_provider_before_fallback() {
    let primary = ScriptedLlmProvider::from_responses(vec![
        Err(LlmProviderError::HttpStatus { status: 500, body: "transient".to_string() }),
        Ok(CompleteWithToolsResponse {
            assistant_content: Some("primary-after-retry".to_string()),
            tool_calls: vec![],
        }),
    ]);
    let secondary = ok_provider("secondary-unused");
    let mut chain = ProviderChain::new(
        vec![Box::new(primary), Box::new(secondary)],
        vec!["primary".to_string(), "secondary".to_string()],
        ProviderChainPolicy { max_retries_per_provider: 1, rotation_mode: RotationMode::StickyPrimary },
    )
    .ok()
    .expect("chain");
    let response = chain.complete_with_tools(empty_request()).ok().expect("retry succeeds");
    assert_eq!(response.assistant_content.as_deref(), Some("primary-after-retry"));
}

#[test]
fn round_robin_rotates_start_provider() {
    let first = ok_provider("first");
    let second = ok_provider("second");
    let mut chain = ProviderChain::new(
        vec![Box::new(first), Box::new(second)],
        vec!["first".to_string(), "second".to_string()],
        ProviderChainPolicy { max_retries_per_provider: 0, rotation_mode: RotationMode::RoundRobin },
    )
    .ok()
    .expect("chain");
    let first_response = chain.complete_with_tools(empty_request()).ok().expect("first response");
    assert_eq!(first_response.assistant_content.as_deref(), Some("first"));
    let second_response = chain.complete_with_tools(empty_request()).ok().expect("second response");
    assert_eq!(second_response.assistant_content.as_deref(), Some("second"));
}

#[test]
fn chain_stops_on_fatal_error_and_reports_exhaustion() {
    let fatal = ScriptedLlmProvider::from_responses(vec![Err(LlmProviderError::InvalidConfig {
        reason: "bad".to_string(),
    })]);
    let unused = ok_provider("unused");
    let mut chain = ProviderChain::new(
        vec![Box::new(fatal), Box::new(unused)],
        vec!["a".to_string(), "b".to_string()],
        ProviderChainPolicy::default(),
    )
    .ok()
    .unwrap();
    let e = chain.complete_with_tools(empty_request()).err().unwrap();
    assert!(matches!(e, LlmProviderError::InvalidConfig { .. }));

    let failing = ScriptedLlmProvider::from_responses(vec![Err(LlmProviderError::DecodeFailed {
        reason: "x".to_string(),
    })]);
    let mut chain = ProviderChain::new(vec![Box::new(failing)], vec!["only".to_string()], ProviderChainPolicy::default())
        .ok()
        .unwrap();
    let e = chain.complete_with_tools(empty_request()).err().unwrap();
    assert_eq!(
        e.message(),
        "llm provider exhausted provider chain: only:attempt=1 retryable=false fallbackable=true error=llm provider decode failed: x; last_error=llm provider decode failed: x"
    );
}

#[test]
fn chain_new_rejects_bad_shapes() {
    let e = ProviderChain::new(vec![], vec![], ProviderChainPolicy::default()).err().unwrap();
    assert_eq!(e.message(), "llm provider config invalid: provider chain requires at least one provider");
    let e = ProviderChain::new(vec![Box::new(ok_provider("x"))], vec![], ProviderChainPolicy::default())
        .err()
        .unwrap();
    assert_eq!(e.message(), "llm provider config invalid: provider chain labels count must match providers count");
}
