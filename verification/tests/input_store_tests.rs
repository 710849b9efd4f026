use ais_agent::agent::context::collector::{
    build_canonical_context_projection, build_input_registry_projection, build_input_slots_projection,
    build_node_output_refs_projection, collect_output_field_paths, extract_amount_ref, extract_asset_ref,
    value_type_hint,
};
use ais_agent::agent::input_store::{
    InputStore, InputStoreUpsertResult, InputValueLayer, InputValueMeta, InputValueStability, VolatileInputSignal,
};
use ais_agent::agent::intent_context::IntentContext;
use ais_agent::json::{JsonNumber, JsonValue};

fn num(n: u64) -> JsonValue {
    JsonValue::Number(JsonNumber::PosInt(n))
}

fn text(s: &str) -> JsonValue {
    JsonValue::from_text(s)
}

fn obj(entries: Vec<(&str, JsonValue)>) -> JsonValue {
    let mut o = JsonValue::empty_object();
    for (k, v) in entries {
        o.insert(k.to_string(), v);
    }
    o
}

fn str_at<'a>(v: &'a JsonValue, path: &str) -> Option<&'a str> {
    v.pointer(path).and_then(|x| x.as_str())
}

fn u64_at(v: &JsonValue, path: &str) -> Option<u64> {
    v.pointer(path).and_then(|x| x.as_u64())
}

fn strings(v: Option<&JsonValue>) -> Vec<String> {
    match v {
        Some(JsonValue::Array(items)) => items.iter().filter_map(|x| x.as_str().map(|s| s.to_string())).collect(),
        _ => Vec::new(),
    }
}

fn query_meta(priority: u32, observed: Option<u64>) -> InputValueMeta {
    InputValueMeta {
        source: "query".to_string(),
        source_priority: priority,
        provenance: None,
        confidence: None,
        layer: InputValueLayer::Observed,
        stability: InputValueStability::Unknown,
        observed_at_ms: observed,
    }
}

#[test]
fn higher_priority_source_replaces_and_lower_is_ignored() {
    let mut store = InputStore::new();
    assert!(store.upsert_seed("amount", &num(5), "seed") == InputStoreUpsertResult::Inserted);
    assert!(store.upsert_user("amount", &num(7), "chat") == InputStoreUpsertResult::Replaced);
    assert!(store.upsert_seed("amount", &num(9), "seed") == InputStoreUpsertResult::Ignored);
    let entry = store.get("amount").unwrap();
    assert_eq!(entry.value.as_u64(), Some(7));
    assert_eq!(entry.meta.source, "user");
    assert_eq!(entry.meta.provenance.as_deref(), Some("chat"));
}

#[test]
fn equal_priority_replaces_only_newer_or_changed_observations() {
    let mut store = InputStore::new();
    assert!(store.upsert_semantic_at("chain", &text("eip155:1"), &query_meta(50, Some(10)), 0) == InputStoreUpsertResult::Inserted);
    assert!(store.upsert_semantic_at("chain", &text("eip155:2"), &query_meta(50, Some(5)), 0) == InputStoreUpsertResult::Ignored);
    assert!(store.upsert_semantic_at("chain", &text("eip155:1"), &query_meta(50, Some(10)), 0) == InputStoreUpsertResult::Ignored);
    assert!(store.upsert_semantic_at("chain", &text("eip155:3"), &query_meta(50, Some(10)), 0) == InputStoreUpsertResult::Replaced);
    assert!(store.upsert_semantic_at("chain", &text("eip155:4"), &query_meta(50, Some(20)), 0) == InputStoreUpsertResult::Replaced);
    assert_eq!(store.get("chain").unwrap().value.as_str(), Some("eip155:4"));
}

#[test]
fn blank_key_is_rejected() {
    let mut store = InputStore::new();
    assert!(store.upsert_semantic_at("  ", &num(1), &query_meta(50, None), 0) == InputStoreUpsertResult::Rejected);
    assert!(store.list_semantic_ref_strings().is_empty());
}

#[test]
fn token_object_is_stored_as_leaves_and_projected_back() {
    let mut store = InputStore::new();
    let token = obj(vec![("address", text("0xabc")), ("decimals", text(" 6 "))]);
    assert!(store.upsert_seed("token", &token, "seed") == InputStoreUpsertResult::Inserted);
    assert_eq!(store.get("token.address").unwrap().value.as_str(), Some("0xabc"));
    assert_eq!(store.get("token.decimals").unwrap().value.as_u64(), Some(6));
    assert!(store.get("token.decimals").unwrap().meta.stability == InputValueStability::Stable);
    assert_eq!(store.list_semantic_ref_strings(), vec!["token.address".to_string(), "token.decimals".to_string()]);
    assert_eq!(
        store.list_projected_ref_strings(),
        vec!["token".to_string(), "token.address".to_string(), "token.decimals".to_string()]
    );
    let projected = store.get_projected("token").unwrap();
    assert_eq!(str_at(&projected.value, "/address"), Some("0xabc"));
    assert_eq!(u64_at(&projected.value, "/decimals"), Some(6));
    assert_eq!(projected.meta.source, "derived");
    assert_eq!(projected.meta.source_priority, 10);
    assert_eq!(projected.meta.provenance.as_deref(), Some("input_store.projected.token"));
    assert!(projected.meta.layer == InputValueLayer::Derived);
    assert!(projected.meta.stability == InputValueStability::Stable);
}

#[test]
fn token_string_is_its_address() {
    let mut store = InputStore::new();
    store.upsert_seed("token", &text("0xdef"), "seed");
    assert_eq!(store.get("token.address").unwrap().value.as_str(), Some("0xdef"));
}

#[test]
fn planning_value_lists_facts_and_meta_of_the_projection() {
    let mut store = InputStore::new();
    store.upsert_seed("token", &obj(vec![("address", text("0xabc"))]), "seed");
    store.upsert_user("amount", &num(3), "chat");
    let value = store.to_projected_planning_value();
    assert_eq!(u64_at(&value, "/facts/amount"), Some(3));
    assert_eq!(str_at(&value, "/facts/token/address"), Some("0xabc"));
    assert_eq!(str_at(&value, "/facts/token.address"), Some("0xabc"));
    assert_eq!(str_at(&value, "/meta/amount/source"), Some("user"));
    assert_eq!(str_at(&value, "/meta/amount/layer"), Some("observed"));
    assert_eq!(u64_at(&value, "/meta/amount/source_priority"), Some(100));
    assert_eq!(str_at(&value, "/meta/token/layer"), Some("derived"));
    assert!(matches!(value.pointer("/meta/amount/confidence"), Some(JsonValue::Null)));
}

#[test]
fn volatile_balance_freshness_and_invalidation() {
    let mut store = InputStore::new();
    store.upsert_semantic_at("wallet.balance", &num(100), &query_meta(50, None), 1000);
    let entry = store.get("wallet.balance").unwrap();
    assert!(entry.meta.stability == InputValueStability::Volatile);
    assert_eq!(entry.meta.observed_at_ms, Some(1000));
    assert!(store.has_fresh_volatile_signal(VolatileInputSignal::Balance, 500, 1200));
    assert!(!store.has_fresh_volatile_signal(VolatileInputSignal::Balance, 100, 1200));
    assert!(!store.has_fresh_volatile_signal(VolatileInputSignal::Allowance, 500, 1200));
    assert_eq!(store.newest_volatile_signal_observation(VolatileInputSignal::Balance).map(|o| o.observed_at_ms), Some(1000));
    assert!(store.invalidate_volatile_signals(&Vec::new()).is_empty());
    let cleared = store.invalidate_volatile_signals(&vec![VolatileInputSignal::Balance]);
    assert_eq!(cleared, vec!["wallet.balance".to_string()]);
    assert!(!store.has_fresh_volatile_signal(VolatileInputSignal::Balance, 500, 1200));
    assert!(store.newest_volatile_signal_observation(VolatileInputSignal::Balance).is_none());
}

#[test]
fn rebuilding_from_planning_value_skips_derived_facts() {
    let value = obj(vec![("facts", obj(vec![("amount", num(5)), ("token", obj(vec![("address", text("0x1"))]))]))]);
    let derived = InputValueMeta { layer: InputValueLayer::Derived, ..query_meta(10, None) };
    let store = InputStore::from_projected_planning_value_at(&value, &vec![("token".to_string(), derived)], 0).unwrap();
    assert_eq!(store.get("amount").unwrap().value.as_u64(), Some(5));
    assert_eq!(store.get("amount").unwrap().meta.source, "unknown");
    assert!(store.get("token.address").is_none());
    assert!(InputStore::from_projected_planning_value_at(&obj(vec![("facts", num(1))]), &Vec::new(), 0).is_none());
}

#[test]
fn merge_keeps_the_higher_priority_entry() {
    let mut a = InputStore::new();
    a.upsert_user("amount", &num(1), "chat");
    let mut b = InputStore::new();
    b.upsert_seed("amount", &num(2), "seed");
    b.upsert_seed("chain", &text("eip155:1"), "seed");
    a.merge(&b);
    assert_eq!(a.get("amount").unwrap().value.as_u64(), Some(1));
    assert_eq!(a.get("chain").unwrap().value.as_str(), Some("eip155:1"));
}

#[test]
fn output_field_paths_keep_readable_leaves() {
    let outputs = obj(vec![
        ("a", obj(vec![("b", num(1)), ("c", JsonValue::Null)])),
        ("d", JsonValue::Array(vec![num(1)])),
        ("e", JsonValue::Array(vec![])),
        (" ", num(3)),
    ]);
    assert_eq!(collect_output_field_paths(&outputs, 24), vec!["a.b".to_string(), "d".to_string()]);
    assert_eq!(collect_output_field_paths(&outputs, 0), vec!["a.b".to_string()]);
}

#[test]
fn node_output_refs_group_by_step() {
    let runtime = obj(vec![(
        "nodes",
        obj(vec![
            ("plan__swap", obj(vec![("outputs", obj(vec![("amount", num(5)), ("tx", obj(vec![("hash", text("0x1"))]))]))])),
            ("n2", obj(vec![("outputs", JsonValue::Null)])),
        ]),
    )]);
    let out = build_node_output_refs_projection(&runtime);
    assert_eq!(str_at(&out, "/schema"), Some("ais-agent-node-output-refs/0.0.1"));
    assert_eq!(str_at(&out, "/entries/0/step_id"), Some("swap"));
    assert_eq!(
        strings(out.pointer("/known_refs")),
        vec!["nodes.swap.outputs.amount".to_string(), "nodes.swap.outputs.tx.hash".to_string()]
    );
    assert_eq!(u64_at(&out, "/counts/steps"), Some(1));
    assert_eq!(u64_at(&out, "/counts/known_refs"), Some(2));
    let empty = build_node_output_refs_projection(&JsonValue::empty_object());
    assert_eq!(u64_at(&empty, "/counts/entries"), Some(0));
}

#[test]
fn input_registry_sorts_entries_by_reference() {
    let resolved = vec![("amount".to_string(), num(5)), ("chain".to_string(), text("eip155:1"))];
    let missing = vec!["token.address".to_string(), "a".to_string()];
    let out = build_input_registry_projection(&resolved, &missing);
    assert_eq!(str_at(&out, "/entries/0/ref"), Some("inputs.a"));
    assert_eq!(str_at(&out, "/entries/0/status"), Some("missing"));
    assert_eq!(str_at(&out, "/entries/1/type_hint"), Some("number"));
    assert_eq!(str_at(&out, "/entries/2/ref"), Some("inputs.chain"));
    assert_eq!(str_at(&out, "/entries/3/ref"), Some("inputs.token.address"));
    assert_eq!(strings(out.pointer("/known_refs")), vec!["inputs.amount".to_string(), "inputs.chain".to_string()]);
    assert_eq!(u64_at(&out, "/counts/missing"), Some(2));
}

#[test]
fn canonical_context_finds_chains_accounts_assets_and_amounts() {
    let resolved = vec![
        ("amount".to_string(), obj(vec![("human", text("1.5"))])),
        ("chain".to_string(), text(" eip155:1 ")),
        ("owner".to_string(), text("0xabc")),
        ("token".to_string(), obj(vec![("address", text("0xT")), ("decimals", num(6)), ("symbol", text("USDC"))])),
    ];
    let out = build_canonical_context_projection(&resolved);
    assert_eq!(str_at(&out, "/chain_refs/0/chain_ref"), Some("eip155:1"));
    assert_eq!(str_at(&out, "/account_refs/0/account_ref"), Some("0xabc"));
    assert_eq!(str_at(&out, "/account_refs/0/role"), Some("owner"));
    assert_eq!(str_at(&out, "/asset_refs/0/address"), Some("0xT"));
    assert_eq!(u64_at(&out, "/asset_refs/0/decimals"), Some(6));
    assert_eq!(str_at(&out, "/asset_refs/0/ref"), Some("inputs.token"));
    assert_eq!(str_at(&out, "/amount_refs/0/amount_human"), Some("1.5"));
    assert_eq!(u64_at(&out, "/counts/amount_refs"), Some(1));
    assert_eq!(u64_at(&out, "/counts/chain_refs"), Some(1));
}

#[test]
fn asset_and_amount_extraction_edges() {
    assert!(extract_asset_ref(&text("0x1")).is_none());
    assert!(extract_asset_ref(&obj(vec![("address", text("  "))])).is_none());
    let mint = extract_asset_ref(&obj(vec![("mint", text("So1")), ("chain_id", text("solana"))])).unwrap();
    assert_eq!(str_at(&mint, "/address"), Some("So1"));
    assert_eq!(str_at(&mint, "/chain_ref"), Some("solana"));
    assert!(extract_amount_ref("amount", &JsonValue::Bool(true)).is_none());
    assert!(extract_amount_ref("recipient", &num(1)).is_none());
    let whole = extract_amount_ref("swap.qty", &num(3)).unwrap();
    assert_eq!(u64_at(&whole, "/amount_ref"), Some(3));
    assert_eq!(value_type_hint(&JsonValue::Array(vec![])), "array");
}

#[test]
fn input_slots_report_resolved_and_missing() {
    let mut store = InputStore::new();
    store.upsert_seed("amount", &num(5), "seed");
    let runtime = obj(vec![(
        "agent",
        obj(vec![
            (
                "todo_progress",
                obj(vec![(
                    "current_todo",
                    obj(vec![(
                        "required_facts",
                        JsonValue::Array(vec![text("inputs.amount"), text("facts.x"), text("recipient")]),
                    )]),
                )]),
            ),
            ("missing_required_input", obj(vec![("questions", JsonValue::Array(vec![obj(vec![("id", text(" slippage "))])]))])),
        ]),
    )]);
    let slots = build_input_slots_projection(&runtime, Some(&store));
    assert_eq!(slots.resolved.len(), 1);
    assert_eq!(slots.missing, vec!["recipient".to_string(), "slippage".to_string()]);
    assert_eq!(str_at(&slots.value, "/resolved/0/ref"), Some("inputs.amount"));
    assert_eq!(str_at(&slots.value, "/canonical_refs/amount"), Some("inputs.amount"));
    assert_eq!(u64_at(&slots.value, "/counts/missing"), Some(2));
    let none = build_input_slots_projection(&runtime, None);
    assert_eq!(none.missing.len(), 3);
}

#[test]
fn intent_context_carries_grounding_fields_and_fact_confidence() {
    let grounding = obj(vec![
        ("status", text("ready")),
        ("extra", num(1)),
        ("intent_facts", obj(vec![("chain", text("eip155:1"))])),
        ("confidence", obj(vec![("fact:chain", num(90)), ("amount", num(50)), ("fact:x", text("high"))])),
    ]);
    let runtime = obj(vec![("agent", obj(vec![("intent_grounding", grounding)]))]);
    let ctx = IntentContext::from_runtime(&runtime).unwrap();
    let p = ctx.projection();
    assert_eq!(str_at(p, "/status"), Some("ready"));
    assert!(p.get("extra").is_none());
    assert_eq!(str_at(p, "/facts/chain"), Some("eip155:1"));
    assert_eq!(u64_at(p, "/confidence/facts/chain"), Some(90));
    assert!(p.pointer("/confidence/facts/x").is_none());
    assert!(IntentContext::from_runtime(&JsonValue::empty_object()).is_none());
}
