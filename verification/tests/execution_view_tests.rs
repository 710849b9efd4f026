use ais_agent::agent::execution_view::{
    input_store_has_fresh_true_input_signal, meta_for_slot, value_at_dotted_path, value_to_text, ConfirmationView,
    ExecutionView, RunnerStateView,
};
use ais_agent::agent::checkpoint_view::archive_stale_missing_input_autofill;
use ais_agent::agent::input_normalize::{missing_ref_hints_from_metadata, set_runtime_input_value};
use ais_agent::agent::input_store::{
    InputStore, InputValueLayer, InputValueMeta, InputValueStability, VolatileInputSignal,
};
use ais_agent::json::{JsonNumber, JsonValue};

fn num(n: u64) -> JsonValue {
    JsonValue::Number(JsonNumber::PosInt(n))
}

fn text(s: &str) -> JsonValue {
    JsonValue::from_text(s)
}

fn obj(entries: Vec<(&str, JsonValue)>) -> JsonValue {
    let mut o = JsonValue::empty_object();
    for (k, v) in entries {
        o.insert(k.to_string(), v);
    }
    o
}

fn arr(items: Vec<JsonValue>) -> JsonValue {
    JsonValue::Array(items)
}

fn state(runtime: JsonValue) -> RunnerStateView {
    RunnerStateView { runtime, completed_node_ids: Vec::new(), approved_node_ids: Vec::new() }
}

#[test]
fn resolve_input_reference_prefers_runtime_inputs() {
    let state = state(obj(vec![
        ("inputs", obj(vec![("recipient", text("0xruntime"))])),
        (
            "agent",
            obj(vec![(
                "state_summary",
                obj(vec![("input_store", obj(vec![("facts", obj(vec![("recipient", text("0xstore"))]))]))]),
            )]),
        ),
    ]));
    let view = ExecutionView::new(Some(&state));
    assert_eq!(view.resolve_input_reference_display("inputs.recipient").as_deref(), Some("0xruntime"));
}

#[test]
fn resolve_input_reference_prefers_input_store_over_runtime_facts_for_input_display() {
    let state = state(obj(vec![(
        "agent",
        obj(vec![(
            "state_summary",
            obj(vec![
                ("runtime_facts", obj(vec![("facts", obj(vec![("inputs.token.address", text("0xfacts"))]))])),
                (
                    "input_store",
                    obj(vec![("facts", obj(vec![("token", obj(vec![("address", text("0xstore"))]))]))]),
                ),
            ]),
        )]),
    )]));
    let view = ExecutionView::new(Some(&state));
    assert_eq!(view.resolve_input_reference_display("inputs.token.address"), Some("0xstore".to_string()));
}

#[test]
fn resolve_input_reference_accepts_query_observed_input_store_projection() {
    let state = state(obj(vec![(
        "agent",
        obj(vec![(
            "state_summary",
            obj(vec![(
                "input_store",
                obj(vec![
                    ("facts", obj(vec![("token", obj(vec![("address", text("0xmirrored"))]))])),
                    (
                        "meta",
                        obj(vec![(
                            "token",
                            obj(vec![("address", obj(vec![("source", text("query.auto_project"))]))]),
                        )]),
                    ),
                ]),
            )]),
        )]),
    )]));
    let view = ExecutionView::new(Some(&state));
    assert_eq!(view.resolve_input_reference_display("inputs.token.address"), Some("0xmirrored".to_string()));
}

#[test]
fn resolve_input_reference_does_not_fall_through_to_intent_context_facts() {
    let state = state(obj(vec![(
        "agent",
        obj(vec![(
            "state_summary",
            obj(vec![("intent_context", obj(vec![("facts", obj(vec![("recipient", text("0xfact-only"))]))]))]),
        )]),
    )]));
    let view = ExecutionView::new(Some(&state));
    assert_eq!(view.resolve_input_reference_display("inputs.recipient"), None);
}

#[test]
fn resolve_input_reference_needs_a_run_and_an_input_ref() {
    let view = ExecutionView::new(None);
    assert_eq!(view.resolve_input_reference_display("inputs.recipient"), None);
    let state = state(obj(vec![("inputs", obj(vec![("amount", num(5))]))]));
    let view = ExecutionView::new(Some(&state));
    assert_eq!(view.resolve_input_reference_display("inputs.amount"), Some("5".to_string()));
    assert_eq!(view.resolve_input_reference_display("nodes.amount"), None);
}

#[test]
fn node_ids_come_sorted_and_once() {
    let mut s = state(JsonValue::empty_object());
    s.completed_node_ids = vec!["b".to_string(), "a".to_string(), "b".to_string()];
    s.approved_node_ids = vec!["z".to_string()];
    let view = ConfirmationView::new(Some(&s));
    assert_eq!(view.completed_node_ids(), vec!["a".to_string(), "b".to_string()]);
    assert_eq!(view.approved_node_ids(), vec!["z".to_string()]);
    assert!(ConfirmationView::new(None).completed_node_ids().is_empty());
}

#[test]
fn render_param_value_covers_each_shape() {
    let s = state(obj(vec![("inputs", obj(vec![("recipient", text("0xabc"))]))]));
    let view = ConfirmationView::new(Some(&s));
    assert_eq!(view.render_param_value(&text("plain")), Some("plain".to_string()));
    assert_eq!(view.render_param_value(&num(42)), Some("42".to_string()));
    assert_eq!(view.render_param_value(&JsonValue::Bool(true)), Some("true".to_string()));
    assert_eq!(view.render_param_value(&JsonValue::Null), None);
    assert_eq!(view.render_param_value(&arr(vec![num(1)])), None);
    assert_eq!(view.render_param_value(&obj(vec![("lit", text("x"))])), Some("x".to_string()));
    assert_eq!(view.render_param_value(&obj(vec![("lit", num(7))])), Some("7".to_string()));
    assert_eq!(view.render_param_value(&obj(vec![("ref", text("inputs.recipient"))])), Some("0xabc".to_string()));
    assert_eq!(view.render_param_value(&obj(vec![("ref", text("nodes.q.out"))])), Some("ref:nodes.q.out".to_string()));
    let address = obj(vec![("object", obj(vec![("address", obj(vec![("ref", text("inputs.token"))]))]))]);
    assert_eq!(view.render_param_value(&address), Some("ref:inputs.token".to_string()));
    assert_eq!(view.render_param_value(&obj(vec![("cel", text("a + b"))])), Some("computed(cel)".to_string()));
    assert_eq!(view.render_param_value(&obj(vec![("k", num(1))])), Some("{\"k\":1}".to_string()));
}

#[test]
fn dotted_paths_and_value_text() {
    let root = obj(vec![("a", obj(vec![("b", num(3))]))]);
    assert_eq!(value_at_dotted_path(&root, "a..b").and_then(|v| v.as_u64()), Some(3));
    assert!(value_at_dotted_path(&root, "").is_some());
    assert!(value_at_dotted_path(&root, "a.c").is_none());
    assert_eq!(value_to_text(&JsonValue::Bool(false)), Some("false".to_string()));
    assert_eq!(value_to_text(&JsonValue::Null), None);
    let meta = obj(vec![("token.address", num(1)), ("token", obj(vec![("decimals", num(2))]))]);
    assert_eq!(meta_for_slot(&meta, "token.address").and_then(|v| v.as_u64()), Some(1));
    assert_eq!(meta_for_slot(&meta, "token.decimals").and_then(|v| v.as_u64()), Some(2));
    assert!(meta_for_slot(&meta, "").is_none());
}

#[test]
fn fresh_true_input_signal_needs_a_recent_volatile_value() {
    let mut store = InputStore::new();
    let meta = InputValueMeta {
        source: "query".to_string(),
        source_priority: 50,
        provenance: None,
        confidence: None,
        layer: InputValueLayer::Observed,
        stability: InputValueStability::Volatile,
        observed_at_ms: Some(1_000),
    };
    store.upsert_semantic_at("owner.balance", &num(5), &meta, 1_000);
    assert!(input_store_has_fresh_true_input_signal(&store, VolatileInputSignal::Balance, 500, 1_200));
    assert!(!input_store_has_fresh_true_input_signal(&store, VolatileInputSignal::Balance, 100, 1_200));
    assert!(!input_store_has_fresh_true_input_signal(&store, VolatileInputSignal::Allowance, 500, 1_200));
}

#[test]
fn missing_ref_hints_are_trimmed_sorted_and_unique() {
    let metadata = obj(vec![
        ("missing_ref_fields", arr(vec![text(" decimals "), text(""), num(3)])),
        ("metadata", obj(vec![("required_fields", arr(vec![text("address"), text("decimals")]))])),
        (
            "schema",
            obj(vec![
                ("properties", obj(vec![("chain", num(1)), ("  ", num(2))])),
                ("required", arr(vec![text("symbol")])),
            ]),
        ),
    ]);
    assert_eq!(
        missing_ref_hints_from_metadata(&metadata),
        vec!["address".to_string(), "chain".to_string(), "decimals".to_string(), "symbol".to_string()]
    );
    assert!(missing_ref_hints_from_metadata(&text("x")).is_empty());
}

#[test]
fn runtime_inputs_keep_leaf_values_beside_sub_slots() {
    let mut runtime = JsonValue::Null;
    set_runtime_input_value(&mut runtime, "owner", text("0xowner"));
    assert_eq!(runtime.pointer("/inputs/owner").and_then(|v| v.as_str()), Some("0xowner"));
    set_runtime_input_value(&mut runtime, "owner.balance.erc20", num(999));
    assert_eq!(runtime.pointer("/inputs/owner/_value").and_then(|v| v.as_str()), Some("0xowner"));
    assert_eq!(runtime.pointer("/inputs/owner/balance/erc20").and_then(|v| v.as_u64()), Some(999));
    set_runtime_input_value(&mut runtime, "owner", text("0xnew"));
    assert_eq!(runtime.pointer("/inputs/owner/_value").and_then(|v| v.as_str()), Some("0xnew"));
    set_runtime_input_value(&mut runtime, "runtime.inputs.token_address", text("0xt"));
    assert_eq!(runtime.pointer("/inputs/token/address").and_then(|v| v.as_str()), Some("0xt"));
    let mut other = obj(vec![("inputs", num(1))]);
    set_runtime_input_value(&mut other, " . ", num(2));
    assert!(other.pointer("/inputs").map(|v| matches!(v, JsonValue::Object(_))).unwrap_or(false));
}

#[test]
fn stale_autofill_is_archived_once_grounding_is_ready() {
    let mut runtime = obj(vec![(
        "agent",
        obj(vec![
            ("intent_grounding", obj(vec![("resolution_state", text("ready")), ("ready_for_todos", JsonValue::Bool(true))])),
            ("missing_input_autofill", obj(vec![("reason", text("query_exec_failed"))])),
        ]),
    )]);
    archive_stale_missing_input_autofill(&mut runtime);
    assert!(runtime.pointer("/agent/missing_input_autofill").is_none());
    assert_eq!(
        runtime.pointer("/agent/recovery_history/missing_input_autofill/reason").and_then(|v| v.as_str()),
        Some("query_exec_failed")
    );

    let mut pending = obj(vec![(
        "agent",
        obj(vec![
            ("intent_grounding", obj(vec![("ready_for_todos", JsonValue::Bool(false))])),
            ("missing_input_autofill", obj(vec![("reason", text("x"))])),
        ]),
    )]);
    archive_stale_missing_input_autofill(&mut pending);
    assert!(pending.pointer("/agent/missing_input_autofill").is_some());
    assert!(pending.pointer("/agent/recovery_history").is_none());
}

#[test]
fn store_membership_and_runtime_projection() {
    let mut store = InputStore::new();
    let meta = InputValueMeta {
        source: "user".to_string(),
        source_priority: 50,
        provenance: None,
        confidence: None,
        layer: InputValueLayer::Observed,
        stability: InputValueStability::Stable,
        observed_at_ms: None,
    };
    store.upsert_semantic_at("owner", &text("0xowner"), &meta, 1);
    store.upsert_semantic_at("owner.balance", &num(9), &meta, 1);
    assert!(store.has("inputs.owner"));
    assert!(!store.has("recipient"));
    assert!(!store.has("nodes.x"));
    let rt = store.to_runtime_projection();
    assert_eq!(rt.pointer("/inputs/owner/_value").and_then(|v| v.as_str()), Some("0xowner"));
    assert_eq!(rt.pointer("/inputs/owner/balance").and_then(|v| v.as_u64()), Some(9));
}
