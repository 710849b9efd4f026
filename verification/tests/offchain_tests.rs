use ais_agent::json::{JsonNumber, JsonValue};
use ais_agent::offchain::{
    after_attempt, domain_rule_matches, extract_side_effects, normalize_outputs, prepare_offchain_call, AttemptAction,
    OffchainApyExecutorConfig, SideEffectRecord,
};

fn text(s: &str) -> JsonValue {
    JsonValue::from_text(s)
}

fn obj(entries: Vec<(&str, JsonValue)>) -> JsonValue {
    let mut o = JsonValue::empty_object();
    for (k, v) in entries {
        o.insert(k.to_string(), v);
    }
    o
}

fn test_config() -> OffchainApyExecutorConfig {
    OffchainApyExecutorConfig {
        chain: "eip155:1".to_string(),
        allowed_domains: vec!["api.example.com".to_string(), "*.trusted.org".to_string()],
        timeout_ms: 2000,
        max_retries: 1,
        retry_backoff_ms: 0,
    }
}

fn node(endpoint: &str) -> JsonValue {
    obj(vec![
        ("id", text("n1")),
        ("chain", text("eip155:1")),
        ("execution", obj(vec![("type", text("offchain_apy_query")), ("endpoint", text(endpoint))])),
    ])
}

#[test]
fn rejects_endpoint_outside_allowlist() {
    let error = prepare_offchain_call(&test_config(), &node("https://evil.example.net/rates"))
        .err()
        .expect("must reject");
    assert!(error.contains("not in allowlist"));
    assert_eq!(
        error,
        "endpoint host `evil.example.net` is not in allowlist [api.example.com,*.trusted.org]"
    );
}

#[test]
fn accepts_wildcard_allowlist_and_projects_outputs() {
    let n = obj(vec![
        ("id", text("n1")),
        ("chain", text("eip155:1")),
        (
            "execution",
            obj(vec![
                ("type", text("offchain_apy_query")),
                ("endpoint", text("https://api.trusted.org/v1/apy")),
                ("method", text("POST")),
                ("args", obj(vec![("asset", obj(vec![("lit", text("USDC"))]))])),
            ]),
        ),
    ]);
    let call = prepare_offchain_call(&test_config(), &n).ok().expect("must execute");
    assert_eq!(call.request.method, "POST");
    assert_eq!(call.request.timeout_ms, 2000);
    let body = obj(vec![("supply_apy", text("0.031")), ("market", text("aave-v3"))]);
    match after_attempt(&test_config(), "eip155:1", "https://api.trusted.org/v1/apy", 0, Ok(body)) {
        AttemptAction::Finish(result) => {
            assert_eq!(result.get("execution_type").and_then(|v| v.as_str()), Some("offchain_apy_query"));
            assert_eq!(
                result.get("outputs").and_then(|o| o.get("supply_apy")).and_then(|v| v.as_str()),
                Some("0.031")
            );
            assert_eq!(result.get("attempt").and_then(|v| v.as_u64()), Some(1));
        }
        _ => panic!("must finish"),
    }
}

#[test]
fn retries_once_before_success() {
    let config = test_config();
    match after_attempt(&config, "eip155:1", "https://api.example.com/apy", 0, Err("temporary network error".to_string())) {
        AttemptAction::Retry { backoff_ms, next_attempt } => {
            assert_eq!(backoff_ms, 0);
            assert_eq!(next_attempt, 1);
        }
        _ => panic!("must retry"),
    }
    match after_attempt(&config, "eip155:1", "https://api.example.com/apy", 1, Ok(obj(vec![("supply_apy", text("0.031"))]))) {
        AttemptAction::Finish(result) => assert_eq!(result.get("attempt").and_then(|v| v.as_u64()), Some(2)),
        _ => panic!("must execute"),
    }
    match after_attempt(&config, "eip155:1", "e", 1, Err("down".to_string())) {
        AttemptAction::Fail(m) => assert_eq!(m, "offchain_apy_query failed after 2 attempt(s): down"),
        _ => panic!("must fail"),
    }
}

#[test]
fn node_checks_report_first_problem() {
    let config = test_config();
    assert_eq!(prepare_offchain_call(&config, &text("x")).err().unwrap(), "node must be object");
    assert_eq!(prepare_offchain_call(&config, &obj(vec![])).err().unwrap(), "node.id must be string");
    let wrong_chain = obj(vec![
        ("id", text("n1")),
        ("chain", text("eip155:2")),
        ("execution", obj(vec![("type", text("offchain_apy_query")), ("endpoint", text("https://api.example.com"))])),
    ]);
    assert_eq!(
        prepare_offchain_call(&config, &wrong_chain).err().unwrap(),
        "offchain executor does not support chain `eip155:2` + execution type `offchain_apy_query`"
    );
    let no_endpoint = obj(vec![
        ("id", text("n1")),
        ("chain", text("eip155:1")),
        ("execution", obj(vec![("type", text("offchain_apy_query"))])),
    ]);
    assert_eq!(prepare_offchain_call(&config, &no_endpoint).err().unwrap(), "missing field `endpoint`");
    assert!(prepare_offchain_call(&config, &node("not a url")).err().unwrap().starts_with("invalid endpoint url: "));
    let lit = obj(vec![
        ("id", text("n1")),
        ("chain", text("eip155:1")),
        (
            "execution",
            obj(vec![
                ("type", text("offchain_apy_query")),
                ("endpoint", obj(vec![("lit", text("https://API.example.com/x"))])),
                ("timeout_ms", obj(vec![("lit", JsonValue::Number(JsonNumber::PosInt(9)))])),
            ]),
        ),
    ]);
    let call = prepare_offchain_call(&config, &lit).ok().unwrap();
    assert_eq!(call.request.endpoint, "https://API.example.com/x");
    assert_eq!(call.request.method, "GET");
    assert_eq!(call.request.timeout_ms, 9);
}

#[test]
fn domain_rules() {
    assert!(domain_rule_matches("*.trusted.org", "API.trusted.org"));
    assert!(domain_rule_matches("*.trusted.org", "trusted.org"));
    assert!(!domain_rule_matches("*.trusted.org", "eviltrusted.org"));
    assert!(!domain_rule_matches("  ", "x"));
    assert!(domain_rule_matches(" Api.Example.com ", "api.example.com"));
}

#[test]
fn outputs_wrap_non_objects() {
    let v = normalize_outputs(text("7"));
    assert_eq!(v.get("value").and_then(|x| x.as_str()), Some("7"));
    let o = normalize_outputs(obj(vec![("a", text("b"))]));
    assert_eq!(o.get("a").and_then(|x| x.as_str()), Some("b"));
}

#[test]
fn maps_side_effects_from_offchain_outputs() {
    let body = obj(vec![
        ("supply_apy", text("0.031")),
        (
            "side_effects",
            JsonValue::Array(vec![
                obj(vec![("effect_type", text("tx")), ("tx_hash", text("0xabc")), ("status", text("confirmed"))]),
                obj(vec![
                    ("effect_type", text("approval")),
                    ("idempotency_key", text("approval:n1:spender")),
                    ("status", text("sent")),
                    ("provider_ref", text("mock-provider")),
                ]),
            ]),
        ),
    ]);
    let outputs = normalize_outputs(body);
    let side_effects = extract_side_effects("n1", "eip155:1", "offchain_apy_query", &outputs, "1970-01-01T00:00:00Z");
    assert_eq!(side_effects.len(), 2);
    assert_eq!(side_effects[0].idempotency_key, "tx:n1:0xabc");
    assert_eq!(side_effects[0].status, "confirmed");
    assert_eq!(side_effects[0].execution_type.as_deref(), Some("offchain_apy_query"));
    assert_eq!(side_effects[1].idempotency_key, "approval:n1:spender");
    assert_eq!(side_effects[1].effect_type, "approval");
    assert_eq!(side_effects[1].provider_ref.as_deref(), Some("mock-provider"));
}

#[test]
fn side_effects_without_hash_are_keyed_by_their_place_among_objects() {
    let outputs = obj(vec![(
        "side_effects",
        JsonValue::Array(vec![
            text("not an object"),
            obj(vec![("node_id", text("n9")), ("nonce", JsonValue::Number(JsonNumber::PosInt(7)))]),
        ]),
    )]);
    let side_effects = extract_side_effects("n1", "eip155:1", "offchain_apy_query", &outputs, "t0");
    assert_eq!(side_effects.len(), 1);
    assert_eq!(side_effects[0].idempotency_key, "tx:n9:0");
    assert_eq!(side_effects[0].status, "sent");
    assert_eq!(side_effects[0].nonce, Some(7));
    assert_eq!(side_effects[0].observed_at, "t0");
    assert_eq!(side_effects[0].schema.as_deref(), Some("ais-side-effect-record/0.1.0"));
    assert!(extract_side_effects("n1", "c", "t", &obj(vec![("x", text("y"))]), "t0").is_empty());
}

fn record(status: &str, chain: Option<&str>, execution_type: Option<&str>) -> SideEffectRecord {
    SideEffectRecord {
        schema: Some("ais-side-effect-record/0.1.0".to_string()),
        idempotency_key: "tx:n1:0xabc".to_string(),
        node_id: "n1".to_string(),
        effect_type: "tx".to_string(),
        chain: chain.map(|c| c.to_string()),
        execution_type: execution_type.map(|t| t.to_string()),
        tx_hash: Some("0xabc".to_string()),
        nonce: None,
        provider_ref: None,
        reason_code: None,
        details: None,
        status: status.to_string(),
        observed_at: "2026-02-25T00:00:00Z".to_string(),
    }
}

#[test]
fn reconcile_sent_offchain_side_effect_marks_not_supported_reason_code() {
    let config = test_config();
    let reconciled = config
        .reconcile_side_effect(&record("sent", Some("eip155:1"), Some("offchain_apy_query")), true)
        .expect("reconcile should not fail")
        .expect("must reconcile offchain side-effect");
    assert_eq!(reconciled.status, "sent");
    assert_eq!(reconciled.reason_code.as_deref(), Some("side_effect_reconcile_not_supported"));
    assert_eq!(reconciled.observed_at, "1970-01-01T00:00:00Z");
}

#[test]
fn reconcile_leaves_settled_and_foreign_records() {
    let config = test_config();
    let settled = config
        .reconcile_side_effect(&record("confirmed", Some("eip155:1"), Some("offchain_apy_query")), false)
        .unwrap()
        .unwrap();
    assert_eq!(settled.reason_code, None);
    assert_eq!(settled.observed_at, "2026-02-25T00:00:00Z");
    assert!(config.reconcile_side_effect(&record("sent", Some("eip155:2"), Some("offchain_apy_query")), true).unwrap().is_none());
    assert!(config.reconcile_side_effect(&record("sent", None, Some("offchain_apy_query")), true).unwrap().is_none());
    assert!(config.reconcile_side_effect(&record("sent", Some("eip155:1"), Some("evm_call")), true).unwrap().is_none());
}
