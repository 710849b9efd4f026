use ais_agent::agent::error_state::{planner_hint_for_sub_reason, segmented_planner_output_error_payload};
use ais_agent::agent::brain::{
    default_agent_controller_system_prompt, need_user_confirm_command_contract, remaining_bundle_node_ids,
};
use ais_agent::agent::context::collector::{
    node_step_id_hint, prioritize_keys, registry_order_key, slot_leaf, slot_sort_key,
    to_slot_id,
};
use ais_agent::agent::context::projector::is_bindable_input_slot;
use ais_agent::agent::context_view::PlanningContextManager;
use ais_agent::agent::error_state::{
    classify_compile_sub_reason_code, classify_execution_pause, classify_planner_output_error,
    compile_error_state_payload, grounding_phase_error_payload, should_attempt_intent_repair,
    should_retry_segmented_planner_output, todo_phase_error_payload, CompileSubReasonCode, ExecutionSubReasonCode,
    PlannerSubReasonCode, ReasonCode,
};
use ais_agent::agent::execution_view::{is_reusable, parse_stability};
use ais_agent::agent::input_normalize::normalized_missing_ref_source;
use ais_agent::agent::input_store::InputValueStability;
use ais_agent::agent::intent_context::grounding_fact_keys_from_state_summary;
use ais_agent::agent::intent_segmented::{
    is_control_semantics_query, normalize_missing_fact_ref, normalized_identifier, normalized_tokens,
    ListCandidatesArgs, ListCandidatesFilterArgs,
};
use ais_agent::agent::missing_input::{
    choose_token_address_source, infer_recovery_source, infer_recovery_status, map_param_ref_to_source,
    remap_semantic_alias,
};
use ais_agent::json::{JsonNumber, JsonValue};

fn string(s: &str) -> JsonValue {
    JsonValue::String(s.to_string())
}

fn obj(entries: Vec<(&str, JsonValue)>) -> JsonValue {
    let mut o = JsonValue::empty_object();
    for (k, v) in entries {
        o.insert(k.to_string(), v);
    }
    o
}

fn strings(items: &[&str]) -> Vec<String> {
    items.iter().map(|s| s.to_string()).collect()
}

fn text_at<'a>(v: &'a JsonValue, p: &str) -> Option<&'a str> {
    v.pointer(p).and_then(|x| x.as_str())
}

#[test]
fn execution_pauses_are_classified() {
    let c = classify_execution_pause(Some("executor_error: rpc timeout"));
    assert!(c.sub_reason_code == ExecutionSubReasonCode::ExecutorError && c.retryable);
    let c = classify_execution_pause(Some("condition_failed:x"));
    assert!(c.sub_reason_code == ExecutionSubReasonCode::ConditionFailed && c.retryable);
    let c = classify_execution_pause(Some("need_user_confirm"));
    assert!(c.sub_reason_code == ExecutionSubReasonCode::NonRetryablePause && !c.retryable);
    let c = classify_execution_pause(None);
    assert!(c.sub_reason_code == ExecutionSubReasonCode::MissingPausedReason && !c.retryable);
    assert!(should_attempt_intent_repair(Some("assert_failed: balance too low")));
    assert!(!should_attempt_intent_repair(None));
}

#[test]
fn planner_output_errors_are_classified() {
    let p = classify_planner_output_error(Some("llm error: segmented planner provider returned no tool calls")).unwrap();
    assert!(p.sub_reason_code == PlannerSubReasonCode::NoToolCalls);
    assert_eq!(p.needle, "segmented planner provider returned no tool calls");
    let p = classify_planner_output_error(Some("x: invalid segment draft requires `error` y")).unwrap();
    assert!(p.sub_reason_code == PlannerSubReasonCode::MissingError);
    assert!(classify_planner_output_error(Some("something else")).is_none());
    assert!(classify_planner_output_error(None).is_none());
    assert!(should_retry_segmented_planner_output(Some("invalid plan.revise_segment args: bad")));
    assert!(!should_retry_segmented_planner_output(Some("timeout")));
    assert_eq!(PlannerSubReasonCode::SegmentNotJson.as_str(), "segment_not_json");
}

#[test]
fn compile_errors_are_classified() {
    let issues = |r: &str| JsonValue::Array(vec![obj(vec![("reference", string(r))])]);
    let compile = ReasonCode::compile_default();
    assert!(classify_compile_sub_reason_code(&compile, &issues("unknown_input_ref")) == CompileSubReasonCode::UnknownInputRef);
    assert!(
        classify_compile_sub_reason_code(&compile, &issues("step.candidate_not_found.x"))
            == CompileSubReasonCode::CandidateNotFound
    );
    assert!(
        classify_compile_sub_reason_code(&compile, &issues("write_gate_missing"))
            == CompileSubReasonCode::ShapeOrContract
    );
    let missing = ReasonCode::from_raw("missing_required_input");
    assert!(missing.is_missing_required_input());
    assert!(
        classify_compile_sub_reason_code(&missing, &JsonValue::Array(vec![]))
            == CompileSubReasonCode::MissingRequiredInput
    );
    assert!(classify_compile_sub_reason_code(&compile, &JsonValue::Null) == CompileSubReasonCode::CompileError);
    assert_eq!(ReasonCode::from_raw("weird_code").code(), "weird_code");
}

#[test]
fn error_payloads_carry_codes() {
    let payload = obj(vec![
        ("reason_code", string("missing_required_input")),
        ("issues", JsonValue::Array(vec![obj(vec![("reference", string("unknown_input_ref"))])])),
    ]);
    let r = compile_error_state_payload(&payload, 2);
    assert_eq!(text_at(&r, "/phase"), Some("compile"));
    assert_eq!(text_at(&r, "/reason_code"), Some("missing_required_input"));
    assert_eq!(text_at(&r, "/sub_reason_code"), Some("unknown_input_ref"));
    assert_eq!(text_at(&r, "/phase_reason_code"), Some("compile.unknown_input_ref"));
    assert_eq!(text_at(&r, "/message"), Some("segment compile failed"));
    assert_eq!(text_at(&r, "/repair_order/3"), Some("semantic"));
    assert_eq!(r.pointer("/round").and_then(|v| v.as_u64()), Some(2));

    let g = grounding_phase_error_payload("compile_error", Some("no facts"), &vec![], &vec![string("q?")], 1);
    assert_eq!(text_at(&g, "/reason_code"), Some("grounding.compile_error"));
    assert_eq!(text_at(&g, "/base_reason_code"), Some("compile_error"));
    assert_eq!(text_at(&g, "/message"), Some("no facts"));
    assert_eq!(text_at(&g, "/questions/0"), Some("q?"));
    let t = todo_phase_error_payload("bad_todo", None, &vec![], &vec![], 3);
    assert_eq!(text_at(&t, "/phase"), Some("todo_planning"));
    assert_eq!(text_at(&t, "/reason_code"), Some("todo.bad_todo"));
    assert!(matches!(t.pointer("/message"), Some(JsonValue::Null)));
}

#[test]
fn recovery_trace_ids_are_read() {
    assert_eq!(infer_recovery_status("planner:round2: need_user_input "), Some("need_user_input".to_string()));
    assert_eq!(infer_recovery_status("planner:other"), None);
    assert_eq!(infer_recovery_status("exhausted_unavailable"), Some("exhausted_unavailable".to_string()));
    assert_eq!(infer_recovery_source(" autofill :x:y"), Some("autofill".to_string()));
    assert_eq!(infer_recovery_source(":x"), None);
}

#[test]
fn params_map_onto_source_refs() {
    let sources = strings(&["inputs.amount", "inputs.token_in.address"]);
    assert_eq!(map_param_ref_to_source("params.amount", &sources), Some("inputs.amount".to_string()));
    assert_eq!(
        map_param_ref_to_source(" params.token_address ", &sources),
        Some("inputs.token_in.address".to_string())
    );
    assert_eq!(map_param_ref_to_source("params.recipient", &sources), Some("inputs.recipient".to_string()));
    assert_eq!(map_param_ref_to_source("params.  ", &sources), None);
    assert_eq!(map_param_ref_to_source("inputs.amount", &sources), None);
    assert_eq!(choose_token_address_source(&sources), Some("inputs.token_in.address".to_string()));
    let two = strings(&["inputs.token_in.address", "inputs.token_out_address"]);
    assert_eq!(choose_token_address_source(&two), None);
    assert_eq!(remap_semantic_alias("inputs.token.address".to_string(), &two), "inputs.token.address");
    assert_eq!(remap_semantic_alias("inputs.amount".to_string(), &sources), "inputs.amount");
}

#[test]
fn missing_refs_are_normalized() {
    assert_eq!(normalized_missing_ref_source(" `amount=runtime.inputs.amount.value`. "), Some("inputs.amount".to_string()));
    assert_eq!(normalized_missing_ref_source("``"), None);
    assert_eq!(normalize_missing_fact_ref("x=runtime.inputs.owner.value"), Some("inputs.owner".to_string()));
    assert_eq!(normalize_missing_fact_ref("input.wallet"), Some("inputs.wallet".to_string()));
    assert_eq!(normalize_missing_fact_ref(" ... "), None);
}

#[test]
fn identifiers_and_tokens() {
    assert_eq!(normalized_identifier("Token-Address_1"), "tokenaddress1");
    assert_eq!(normalized_tokens("Swap ERC20, to:Wallet!"), strings(&["swap", "erc20", "to", "wallet"]));
    assert!(is_control_semantics_query(Some("how to use depends-on with CEL")));
    assert!(is_control_semantics_query(Some("value_ref format")));
    assert!(!is_control_semantics_query(Some("uniswap swap")));
    assert!(!is_control_semantics_query(Some("   ")));
    assert!(!is_control_semantics_query(None));
}

#[test]
fn list_filters_prefer_the_filter_object() {
    let args = ListCandidatesArgs {
        chain: Some("eip155:1".to_string()),
        protocol: Some(" Uniswap ".to_string()),
        filter: Some(ListCandidatesFilterArgs { chain: Some("  ".to_string()), protocol: None }),
    };
    let f = args.normalized_filter();
    assert_eq!(f.chain, None);
    assert_eq!(f.protocol, Some("uniswap".to_string()));
    let args = ListCandidatesArgs { chain: Some(" eip155:8453 ".to_string()), protocol: None, filter: None };
    assert_eq!(args.normalized_filter().chain, Some("eip155:8453".to_string()));
}

#[test]
fn slots_are_ranked_and_named() {
    assert_eq!(slot_sort_key("Owner"), 0);
    assert_eq!(slot_sort_key("swap.token.address"), 0);
    assert_eq!(slot_sort_key("my_wallet_x"), 1);
    assert_eq!(slot_sort_key("memo"), 2);
    assert_eq!(
        prioritize_keys(strings(&["memo", "amount", "b_token_x", "amount", "a_wallet_y", "zeta"]), 4),
        strings(&["amount", "a_wallet_y", "b_token_x", "memo"])
    );
    assert_eq!(prioritize_keys(strings(&["memo", "owner"]), 0), strings(&["owner"]));
    assert_eq!(node_step_id_hint(" plan__swap_step "), "swap_step");
    assert_eq!(node_step_id_hint("proto/query"), "query");
    assert_eq!(node_step_id_hint("plain"), "plain");
    assert_eq!(node_step_id_hint("  "), "step");
    assert_eq!(slot_leaf("token.address"), "address");
    assert_eq!(slot_leaf("amount"), "amount");
    assert_eq!(to_slot_id(" inputs.amount "), Some("amount".to_string()));
    assert_eq!(to_slot_id("facts.owner"), None);
    assert_eq!(to_slot_id("inputs.  "), None);
    assert_eq!(to_slot_id("recipient"), Some("recipient".to_string()));
    assert!(is_bindable_input_slot("token.address"));
    assert!(!is_bindable_input_slot("Fact.owner"));
    assert!(!is_bindable_input_slot("a:b"));
    let entry = obj(vec![("status", string("missing")), ("ref", string("inputs.owner"))]);
    assert_eq!(registry_order_key(&entry), (0, 0, "inputs.owner".to_string()));
}

#[test]
fn stability_and_reuse() {
    assert!(parse_stability(" volatile ") == InputValueStability::Volatile);
    assert!(parse_stability("stable") == InputValueStability::Stable);
    assert!(parse_stability("other") == InputValueStability::Unknown);
    assert!(is_reusable(InputValueStability::Stable, None, 100, 10));
    assert!(is_reusable(InputValueStability::Volatile, Some(95), 100, 10));
    assert!(!is_reusable(InputValueStability::Volatile, Some(80), 100, 10));
    assert!(is_reusable(InputValueStability::Volatile, Some(120), 100, 10));
    assert!(!is_reusable(InputValueStability::Volatile, None, 100, 10));
}

#[test]
fn context_manager_budget_is_at_least_one() {
    let m = PlanningContextManager::with_token_budget(0);
    assert_eq!(m.token_budget, 1);
    assert_eq!(m.version, 0);
    assert!(m.last_hash.is_none());
    assert_eq!(PlanningContextManager::with_token_budget(500).token_budget, 500);
}

#[test]
fn grounding_fact_keys_are_sorted() {
    let summary = obj(vec![(
        "intent_context",
        obj(vec![(
            "facts",
            obj(vec![("wallet", JsonValue::Null), ("amount", JsonValue::Number(JsonNumber::PosInt(1)))]),
        )]),
    )]);
    assert_eq!(grounding_fact_keys_from_state_summary(Some(&summary)), strings(&["amount", "wallet"]));
    assert!(grounding_fact_keys_from_state_summary(None).is_empty());
    assert!(grounding_fact_keys_from_state_summary(Some(&JsonValue::Null)).is_empty());
}

#[test]
fn controller_prompt_and_bundle() {
    let p = default_agent_controller_system_prompt();
    assert!(p.starts_with("AIS (Agent Interaction Spec)"));
    assert!(p.contains("\n\nYou are the AIS agent controller for pause resolution."));
    assert!(p.ends_with("Explicit evidence over inference."));
    let c = need_user_confirm_command_contract();
    assert_eq!(c.deny_current, "deny current action");
    let ids = strings(&["n3", "n1", "n2", "n1"]);
    assert_eq!(remaining_bundle_node_ids(Some(&ids), "n2"), strings(&["n1", "n3"]));
    assert!(remaining_bundle_node_ids(None, "n2").is_empty());
}

#[test]
fn planner_hints_name_the_fix() {
    let h = planner_hint_for_sub_reason(PlannerSubReasonCode::InvalidStatus);
    assert_eq!(h.get("summary").and_then(|v| v.as_str()), Some("status must be one of: proposed|invalid|unavailable"));
    let h = planner_hint_for_sub_reason(PlannerSubReasonCode::MissingSegment);
    assert_eq!(h.pointer("/expected/segment/steps/0/kind").and_then(|v| v.as_str()), Some("query"));
    let h = planner_hint_for_sub_reason(PlannerSubReasonCode::Unknown);
    assert!(matches!(h.get("rules"), Some(JsonValue::Array(items)) if items.len() == 4));
    let p = segmented_planner_output_error_payload("llm failed", None, "plan.finalize", 2, 1, None);
    assert_eq!(p.get("sub_reason_code").and_then(|v| v.as_str()), Some("unknown"));
    assert_eq!(p.get("phase_reason_code").and_then(|v| v.as_str()), Some("planning.unknown"));
    assert_eq!(p.get("reason_code").and_then(|v| v.as_str()), Some("planner_invalid_tool_output"));
    assert_eq!(p.get("retry").and_then(|v| v.as_u64()), Some(1));
    assert!(matches!(p.get("last_failed_finalize"), Some(JsonValue::Null)));
}
