use ais_agent::agent::candidates::CandidateContext;
use ais_agent::agent::capabilities::{
    build_semantic_hints_by_ref, extract_declared_topics, extract_string_array, pointer_lookup, protocol_schema_name,
    ProtocolDocument,
};
use ais_agent::json::JsonValue;

fn text(s: &str) -> JsonValue {
    JsonValue::String(s.to_string())
}

fn obj(entries: Vec<(&str, JsonValue)>) -> JsonValue {
    let mut o = JsonValue::empty_object();
    for (k, v) in entries {
        o.insert(k.to_string(), v);
    }
    o
}

fn arr(items: &[&str]) -> JsonValue {
    JsonValue::Array(items.iter().map(|s| text(s)).collect())
}

fn card(reference: &str, chains: &[&str]) -> JsonValue {
    obj(vec![("ref", text(reference)), ("execution_chains", arr(chains))])
}

fn str_at<'a>(v: &'a JsonValue, path: &str) -> Option<&'a str> {
    v.pointer(path).and_then(|x| x.as_str())
}

fn strings(v: Option<&JsonValue>) -> Vec<String> {
    match v {
        Some(JsonValue::Array(items)) => items.iter().filter_map(|x| x.as_str().map(|s| s.to_string())).collect(),
        _ => Vec::new(),
    }
}

fn uniswap() -> ProtocolDocument {
    ProtocolDocument {
        meta: obj(vec![("protocol", text("uniswap")), ("version", text("1")), ("tags", arr(&["DEX"]))]),
        actions: vec![(
            "swap".to_string(),
            obj(vec![
                ("extensions", obj(vec![("agent", obj(vec![("topic", text("Token Swap"))])), ("topics", arr(&["dex", "token swap"]))])),
                ("risk_tags", arr(&["slippage"])),
            ]),
        )],
        queries: vec![],
    }
}

#[test]
fn schema_name_joins_protocol_and_version() {
    assert_eq!(protocol_schema_name(&uniswap()), Some("uniswap@1".to_string()));
    let bare = ProtocolDocument { meta: obj(vec![("protocol", text("x"))]), actions: vec![], queries: vec![] };
    assert_eq!(protocol_schema_name(&bare), None);
}

#[test]
fn pointer_lookup_walks_objects_only() {
    let v = obj(vec![("a/b", obj(vec![("c", text("x"))])), ("list", arr(&["y"]))]);
    assert_eq!(pointer_lookup(&v, "/a~1b/c").and_then(|x| x.as_str()), Some("x"));
    assert_eq!(pointer_lookup(&v, "//a~1b//c").and_then(|x| x.as_str()), Some("x"));
    assert!(pointer_lookup(&v, "/list/0").is_none());
    assert!(pointer_lookup(&v, "").is_some());
}

#[test]
fn declared_topics_are_normalized_and_kept_once() {
    let spec = &uniswap().actions[0].1;
    assert_eq!(extract_declared_topics(spec), vec!["token-swap".to_string(), "dex".to_string()]);
    assert!(extract_declared_topics(&obj(vec![])).is_empty());
    assert_eq!(extract_string_array(spec.get("risk_tags")), vec!["slippage".to_string()]);
    assert!(extract_string_array(None).is_empty());
}

#[test]
fn hints_are_keyed_by_protocol_reference() {
    let hints = build_semantic_hints_by_ref(&vec![uniswap()]);
    assert_eq!(hints.len(), 1);
    assert_eq!(hints[0].0, "uniswap@1/swap");
    assert_eq!(hints[0].1.protocol_tags, vec!["DEX".to_string()]);
    assert_eq!(hints[0].1.risk_tags, vec!["slippage".to_string()]);
}

#[test]
fn capability_view_groups_candidates_by_protocol_and_topic() {
    let mut ctx = CandidateContext::default();
    ctx.executable_candidates.actions =
        vec![card("uniswap@1/swap", &["eip155:10", "eip155:1"]), card("aave@1/supply", &["eip155:1"]), card("broken", &[])];
    ctx.executable_candidates.queries = vec![card("erc20@1/balance_of", &["eip155:*"])];
    ctx.protocols = vec![uniswap()];
    let view = ctx.capability_view();
    assert_eq!(str_at(&view, "/schema"), Some("ais-agent-capability-view/0.0.2"));
    assert!(matches!(view.pointer("/ready"), Some(JsonValue::Bool(true))));
    assert_eq!(
        strings(view.pointer("/topics")),
        vec!["action.general".to_string(), "query.general".to_string(), "token-swap".to_string()]
    );
    assert_eq!(str_at(&view, "/protocols/0/protocol"), Some("aave@1"));
    assert_eq!(str_at(&view, "/protocols/1/queries/0/ref"), Some("erc20@1/balance_of"));
    assert_eq!(str_at(&view, "/protocols/2/protocol"), Some("uniswap@1"));
    assert_eq!(strings(view.pointer("/protocols/2/chains")), vec!["eip155:1".to_string(), "eip155:10".to_string()]);
    assert_eq!(str_at(&view, "/protocols/2/actions/0/name"), Some("swap"));
    assert_eq!(str_at(&view, "/protocols/2/actions/0/topic"), Some("token-swap"));
    assert_eq!(str_at(&view, "/protocols/2/topic_cards/0/topic"), Some("token-swap"));
    assert_eq!(strings(view.pointer("/protocols/2/topic_cards/0/actions")), vec!["uniswap@1/swap".to_string()]);
    assert_eq!(view.pointer("/counts/protocols").and_then(|v| v.as_u64()), Some(3));
    assert_eq!(view.pointer("/counts/actions").and_then(|v| v.as_u64()), Some(3));
    assert_eq!(view.pointer("/counts/topics").and_then(|v| v.as_u64()), Some(3));
}

#[test]
fn capability_view_without_candidates_is_not_ready() {
    let view = CandidateContext::default().capability_view();
    assert!(matches!(view.pointer("/ready"), Some(JsonValue::Bool(false))));
    assert_eq!(view.pointer("/counts/protocols").and_then(|v| v.as_u64()), Some(0));
}
