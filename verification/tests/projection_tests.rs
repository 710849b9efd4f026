use ais_agent::agent::context::projector::{
    build_intent_slots_projection, build_recovery_diagnostics_projection,
    normalize_grounding_confidence_for_projection, normalize_resolved_inputs_for_projection,
};
use ais_agent::agent::context::prompt_compact::{build_prompt_compact, build_summary_text, compact_context_budget};
use ais_agent::json::{JsonNumber, JsonValue};

fn num(n: u64) -> JsonValue {
    JsonValue::Number(JsonNumber::PosInt(n))
}

fn text(s: &str) -> JsonValue {
    JsonValue::from_text(s)
}

fn obj(entries: Vec<(&str, JsonValue)>) -> JsonValue {
    let mut o = JsonValue::empty_object();
    for (k, v) in entries {
        o.insert(k.to_string(), v);
    }
    o
}

fn str_at<'a>(v: &'a JsonValue, path: &str) -> Option<&'a str> {
    v.pointer(path).and_then(|x| x.as_str())
}

fn full_summary() -> JsonValue {
    obj(vec![
        ("todo_state", obj(vec![("current_todo", obj(vec![("id", text("t1")), ("title", text("Swap tokens"))]))])),
        ("input_slots", obj(vec![("missing", JsonValue::Array(vec![text("a"), text("b")]))])),
        ("previous_error", obj(vec![("reason_code", text("plan_invalid"))])),
        (
            "context_budget",
            obj(vec![
                ("pressure_mode", text("tight")),
                ("pack_overflow_reason", text("must_keep_over_budget")),
                (
                    "pack_diagnostics",
                    obj(vec![
                        ("packed_blocks_total", num(7)),
                        ("packed_blocks_included", num(5)),
                        ("packed_blocks_evicted", num(2)),
                        ("compressed_blocks_total", num(1)),
                        ("reason_counts", obj(vec![])),
                    ]),
                ),
            ]),
        ),
        ("input_store", obj(vec![("x", num(1))])),
    ])
}

#[test]
fn summary_text_names_todo_missing_error_and_mode() {
    assert_eq!(
        build_summary_text(&full_summary()),
        "todo=Swap tokens; missing_inputs=2; previous_error=plan_invalid; pressure_mode=tight"
    );
}

#[test]
fn summary_text_falls_back_on_an_empty_summary() {
    assert_eq!(
        build_summary_text(&JsonValue::empty_object()),
        "todo=-; missing_inputs=0; previous_error=none; pressure_mode=normal"
    );
    let by_id = obj(vec![("todo_state", obj(vec![("current_todo", obj(vec![("id", text("t7"))]))]))]);
    assert_eq!(build_summary_text(&by_id), "todo=t7; missing_inputs=0; previous_error=none; pressure_mode=normal");
}

#[test]
fn compact_budget_keeps_only_the_counters() {
    let out = compact_context_budget(&full_summary());
    assert_eq!(str_at(&out, "/pressure_mode"), Some("tight"));
    assert_eq!(str_at(&out, "/pack_overflow_reason"), Some("must_keep_over_budget"));
    assert_eq!(out.pointer("/pack_diagnostics/packed_blocks_total").and_then(|v| v.as_u64()), Some(7));
    assert_eq!(out.pointer("/pack_diagnostics/compressed_blocks_total").and_then(|v| v.as_u64()), Some(1));
    assert!(out.pointer("/pack_diagnostics/reason_counts").is_none());
}

#[test]
fn prompt_compact_copies_sections_and_fills_nulls() {
    let out = build_prompt_compact(&full_summary());
    assert_eq!(str_at(&out, "/schema"), Some("ais-agent-state-summary-prompt-compact/0.0.1"));
    assert_eq!(str_at(&out, "/todo_state/current_todo/title"), Some("Swap tokens"));
    assert_eq!(out.pointer("/input_store/x").and_then(|v| v.as_u64()), Some(1));
    assert!(matches!(out.pointer("/input_registry"), Some(JsonValue::Null)));
    assert!(matches!(out.pointer("/intent_slots"), Some(JsonValue::Null)));
    assert_eq!(
        str_at(&out, "/summary_text"),
        Some("todo=Swap tokens; missing_inputs=2; previous_error=plan_invalid; pressure_mode=tight")
    );
    assert_eq!(out.pointer("/context_budget/pack_diagnostics/packed_blocks_evicted").and_then(|v| v.as_u64()), Some(2));
}

#[test]
fn recovery_projection_is_absent_without_signals() {
    assert!(build_recovery_diagnostics_projection(&JsonValue::empty_object(), None).is_none());
    let unrelated = obj(vec![("detail", text("x"))]);
    assert!(build_recovery_diagnostics_projection(&JsonValue::empty_object(), Some(&unrelated)).is_none());
}

#[test]
fn recovery_projection_keeps_last_eight_attempts_and_sorted_keys() {
    let mut attempts = Vec::new();
    for i in 0..10 {
        attempts.push(obj(vec![("status", text("ok")), ("query_ref", text(&format!("r{i}"))), ("missing_ref", text(" "))]));
    }
    let runtime = obj(vec![(
        "agent",
        obj(vec![(
            "missing_input_autofill",
            obj(vec![
                ("query_attempts", JsonValue::Array(attempts)),
                ("query_autofill_round", obj(vec![("terminal_reason", text("no_query_candidates"))])),
            ]),
        )]),
    )]);
    let previous = obj(vec![
        ("reason_code", text("need_user_confirm")),
        ("sub_reason_code", text("sub")),
        ("autofill", obj(vec![("mode", text("auto")), ("selected_query_refs", JsonValue::Array(vec![text(" q1 "), text("")]))])),
        ("autofill_history", obj(vec![("attempt_keys", JsonValue::Array(vec![text(" zeta "), num(3)]))])),
    ]);
    let out = build_recovery_diagnostics_projection(&runtime, Some(&previous)).unwrap();
    assert_eq!(str_at(&out, "/schema"), Some("ais-agent-recovery-diagnostics/0.0.1"));
    match out.pointer("/recent_attempts") {
        Some(JsonValue::Array(items)) => {
            assert_eq!(items.len(), 8);
            assert_eq!(items[0].get("query_ref").and_then(|v| v.as_str()), Some("r2"));
        },
        _ => panic!("recent_attempts missing"),
    }
    assert_eq!(str_at(&out, "/last_error_code"), Some("need_user_confirm"));
    assert_eq!(str_at(&out, "/last_error_reason"), Some("sub"));
    assert!(matches!(out.pointer("/recoverable_candidates_remaining"), Some(JsonValue::Bool(false))));
    let keys: Vec<&str> = match out.pointer("/available_attempt_keys") {
        Some(JsonValue::Array(items)) => items.iter().filter_map(|v| v.as_str()).collect(),
        _ => panic!("available_attempt_keys missing"),
    };
    assert_eq!(
        keys,
        vec![
            "attempt_status:ok",
            "mode:auto",
            "query_ref:q1",
            "query_ref:r2",
            "query_ref:r3",
            "query_ref:r4",
            "query_ref:r5",
            "query_ref:r6",
            "query_ref:r7",
            "query_ref:r8",
            "query_ref:r9",
            "zeta",
        ]
    );
}

#[test]
fn recovery_projection_reports_remaining_candidates() {
    let runtime = obj(vec![(
        "agent",
        obj(vec![(
            "missing_input_autofill",
            obj(vec![("query_autofill_round", obj(vec![("terminal_reason", text("max_rounds"))]))]),
        )]),
    )]);
    let previous = obj(vec![("message", text("timed out")), ("sub_reason_code", text("sub"))]);
    let out = build_recovery_diagnostics_projection(&runtime, Some(&previous)).unwrap();
    assert!(matches!(out.pointer("/recoverable_candidates_remaining"), Some(JsonValue::Bool(true))));
    assert_eq!(str_at(&out, "/last_error_reason"), Some("timed out"));
    assert!(matches!(out.pointer("/last_error_code"), Some(JsonValue::Null)));
    assert!(matches!(out.pointer("/recent_attempts"), Some(JsonValue::Null)));
}

#[test]
fn intent_slots_projection_is_null_without_grounding() {
    assert!(matches!(build_intent_slots_projection(&JsonValue::empty_object()), JsonValue::Null));
    let runtime = obj(vec![("agent", obj(vec![("intent_grounding", text("raw"))]))]);
    assert_eq!(build_intent_slots_projection(&runtime).as_str(), Some("raw"));
}

#[test]
fn intent_slots_projection_keeps_bindable_inputs_only() {
    let grounding = obj(vec![
        (
            "resolved_inputs",
            obj(vec![("inputs.amount", num(5)), ("fact:owner", num(1)), ("token_address", text("0xabc"))]),
        ),
        ("confidence", obj(vec![("amount", num(90)), ("fact:owner", num(3)), ("slippage", text("high"))])),
    ]);
    let runtime = obj(vec![("agent", obj(vec![("intent_grounding", grounding)]))]);
    let out = build_intent_slots_projection(&runtime);
    assert_eq!(out.pointer("/resolved_inputs/amount").and_then(|v| v.as_u64()), Some(5));
    assert_eq!(str_at(&out, "/resolved_inputs/token.address"), Some("0xabc"));
    assert!(out.pointer("/resolved_inputs/fact:owner").is_none());
    let refs: Vec<&str> = match out.pointer("/resolved_input_refs") {
        Some(JsonValue::Array(items)) => items.iter().filter_map(|v| v.as_str()).collect(),
        _ => panic!("resolved_input_refs missing"),
    };
    assert_eq!(refs, vec!["inputs.amount", "inputs.token.address"]);
    assert_eq!(out.pointer("/confidence/inputs/inputs.amount").and_then(|v| v.as_u64()), Some(90));
    assert!(out.pointer("/confidence/inputs/inputs.slippage").is_none());
    assert_eq!(str_at(&out, "/input_binding/role"), Some("grounding_intermediate"));
    assert!(matches!(out.pointer("/input_binding/bindable"), Some(JsonValue::Bool(false))));
    assert_eq!(str_at(&out, "/input_binding/source_of_truth"), Some("state_summary.input_store"));
}

#[test]
fn resolved_inputs_normalisation_without_input_is_empty() {
    let (entries, refs) = normalize_resolved_inputs_for_projection(None);
    assert!(entries.is_empty());
    assert!(refs.is_empty());
    assert!(normalize_grounding_confidence_for_projection(None).is_empty());
}
