use ais_agent::agent::context::budget_policy::ContextPressureMode;
use ais_agent::agent::context::budgeter::{
    budget_and_compact_summary, derive_adaptive_planner_budget, estimate_tokens_json, pack_blocks,
    resolve_context_compaction_strategy, usage_ratio_bps_from_remaining_tokens,
};
use ais_agent::agent::context::packing::{ContextCompressLevel, PackAction, PackTrace};
use ais_agent::json::{JsonNumber, JsonValue};

fn num(n: u64) -> JsonValue {
    JsonValue::Number(JsonNumber::PosInt(n))
}

fn obj(entries: Vec<(&str, JsonValue)>) -> JsonValue {
    let mut o = JsonValue::empty_object();
    for (k, v) in entries {
        o.insert(k.to_string(), v);
    }
    o
}

fn string(s: &str) -> JsonValue {
    JsonValue::String(s.to_string())
}

#[test]
fn estimate_rounds_text_length_up_to_tokens() {
    // {"a":1} is seven characters: two tokens.
    assert_eq!(estimate_tokens_json(&obj(vec![("a", num(1))])), 2);
    assert_eq!(estimate_tokens_json(&JsonValue::Null), 1);
}

#[test]
fn pack_keeps_summary_within_budget_whole() {
    let mut summary = obj(vec![("todo_state", obj(vec![("a", num(1))]))]);
    let mut trace = PackTrace::new();
    let r = pack_blocks(&mut summary, 1000, ContextPressureMode::Normal, &mut trace);
    assert!(r.overflow_reason.is_none());
    assert_eq!(trace.decisions.len(), 1);
    assert!(trace.decisions[0].action == PackAction::Keep);
    assert_eq!(trace.decisions[0].reason, "within_budget_full");
    assert_eq!(r.diagnostics.packed_blocks_total, 7);
    assert_eq!(r.diagnostics.packed_blocks_included, 7);
    assert_eq!(r.diagnostics.packed_blocks_evicted, 0);
    assert_eq!(r.diagnostics.compressed_blocks_total, 0);
    assert_eq!(summary.pointer("/todo_state/a").and_then(|v| v.as_u64()), Some(1));
}

#[test]
fn pack_compresses_low_block_until_within_budget() {
    let long = "x".repeat(400);
    let mut summary = obj(vec![
        ("tool_memory_projection", string(&long)),
        ("todo_state", obj(vec![("a", num(1))])),
    ]);
    let mut trace = PackTrace::new();
    let r = pack_blocks(&mut summary, 50, ContextPressureMode::Normal, &mut trace);
    assert!(r.overflow_reason.is_none());
    // The first low block, recovery_diagnostics, is compressed twice before
    // tool_memory_projection, which brings the summary within budget.
    assert_eq!(trace.decisions.len(), 4);
    assert_eq!(trace.decisions[0].block_id, "recovery_diagnostics");
    assert_eq!(trace.decisions[1].block_id, "recovery_diagnostics");
    let first = &trace.decisions[2];
    assert_eq!(first.block_id, "tool_memory_projection");
    assert!(first.action == PackAction::Compress);
    assert_eq!(first.reason, "pack_compress");
    assert!(first.before_level == Some(ContextCompressLevel::Full));
    assert!(first.after_level == Some(ContextCompressLevel::Summary));
    let second = &trace.decisions[3];
    assert!(second.before_level == Some(ContextCompressLevel::Summary));
    assert!(second.after_level == Some(ContextCompressLevel::Skeleton));
    assert!(matches!(summary.pointer("/tool_memory_projection"), Some(JsonValue::Null)));
    assert_eq!(summary.pointer("/todo_state/a").and_then(|v| v.as_u64()), Some(1));
    assert_eq!(r.diagnostics.compressed_blocks_total, 4);
    assert_eq!(r.diagnostics.compressed_by_reason, vec![("pack_compress".to_string(), 4)]);
    assert!(r.diagnostics.evicted_by_reason.is_empty());
    assert!(estimate_tokens_json(&summary) <= 50);
}

#[test]
fn pack_reports_must_keep_only_overflow() {
    let long = "y".repeat(400);
    let mut summary = obj(vec![("todo_state", string(&long))]);
    let mut trace = PackTrace::new();
    let r = pack_blocks(&mut summary, 10, ContextPressureMode::Normal, &mut trace);
    assert_eq!(r.overflow_reason, Some("must_keep_only_exceeds_budget"));
    // Twelve compressions of the six low and stale blocks, six drops, two
    // compressions and one drop of the medium block, then the final keep.
    assert_eq!(trace.decisions.len(), 22);
    let last = &trace.decisions[21];
    assert!(last.action == PackAction::Keep);
    assert_eq!(last.block_id, "state_summary");
    assert_eq!(last.reason, "must_keep_only_exceeds_budget");
    assert_eq!(r.diagnostics.packed_blocks_included, 0);
    assert_eq!(r.diagnostics.packed_blocks_evicted, 7);
    assert_eq!(r.diagnostics.compressed_blocks_total, 14);
    assert_eq!(r.diagnostics.evicted_by_reason, vec![("pack_drop".to_string(), 7)]);
}

#[test]
fn pack_reports_no_further_actions_without_must_keep_payload() {
    let long = "z".repeat(400);
    let mut summary = obj(vec![("notes", string(&long))]);
    let mut trace = PackTrace::new();
    let r = pack_blocks(&mut summary, 10, ContextPressureMode::Normal, &mut trace);
    assert_eq!(r.overflow_reason, Some("budget_exceeded_no_further_actions"));
}

#[test]
fn ratio_from_remaining_tokens() {
    assert_eq!(usage_ratio_bps_from_remaining_tokens(Some(2000), Some(10000)), Some(8000));
    assert_eq!(usage_ratio_bps_from_remaining_tokens(Some(20000), Some(10000)), Some(0));
    assert_eq!(usage_ratio_bps_from_remaining_tokens(None, Some(10000)), None);
    assert_eq!(usage_ratio_bps_from_remaining_tokens(Some(1), Some(0)), None);
}

#[test]
fn adaptive_budget_takes_larger_ratio() {
    let runtime = obj(vec![(
        "agent",
        obj(vec![(
            "llm_usage",
            obj(vec![
                ("context_window_input_tokens", num(9000)),
                ("context_soft_limit_tokens", num(10000)),
                ("context_remaining_tokens", num(5000)),
            ]),
        )]),
    )]);
    let b = derive_adaptive_planner_budget(&runtime, 6000);
    assert_eq!(b.usage_ratio_bps, Some(9000));
    assert_eq!(b.remaining_tokens, Some(5000));
    assert_eq!(b.effective_token_limit, 5100);
    let s = resolve_context_compaction_strategy(b);
    assert!(s.mode == ContextPressureMode::Medium);
    assert_eq!(s.policy.final_compact_options.max_string_chars, 2048);
}

#[test]
fn adaptive_budget_defaults_without_usage() {
    let b = derive_adaptive_planner_budget(&JsonValue::empty_object(), 6000);
    assert_eq!(b.usage_ratio_bps, None);
    assert_eq!(b.remaining_tokens, None);
    assert_eq!(b.effective_token_limit, 6000);
    assert!(resolve_context_compaction_strategy(b).mode == ContextPressureMode::Normal);
}

#[test]
fn budget_and_compact_records_packing() {
    let base = obj(vec![("todo_state", obj(vec![("a", num(1))]))]);
    let out = budget_and_compact_summary(base, &JsonValue::empty_object(), 6000);
    let s = |p: &str| out.pointer(p).and_then(|v| v.as_str()).map(|x| x.to_string());
    let n = |p: &str| out.pointer(p).and_then(|v| v.as_u64());
    assert_eq!(s("/context_budget/pressure_mode"), Some("normal".to_string()));
    assert!(matches!(out.pointer("/context_budget/pack_overflow_reason"), Some(JsonValue::Null)));
    assert!(matches!(out.pointer("/context_budget/final_compact_applied"), Some(JsonValue::Bool(false))));
    assert_eq!(n("/context_budget/pack_diagnostics/packed_blocks_total"), Some(7));
    assert_eq!(n("/context_budget/pack_diagnostics/packed_blocks_included"), Some(7));
    assert_eq!(s("/context_budget/pack_trace/0/block_id"), Some("state_summary".to_string()));
    assert_eq!(s("/context_budget/pack_trace/0/action"), Some("keep".to_string()));
    assert_eq!(s("/context_budget/pack_trace/0/reason"), Some("within_budget_full".to_string()));
    assert!(matches!(out.pointer("/context_budget/pack_trace/0/before_level"), Some(JsonValue::Null)));
    assert!(out.pointer("/context_budget/pack_trace/1").is_none());
    assert_eq!(n("/todo_state/a"), Some(1));
}

#[test]
fn budget_and_compact_compacts_after_overflow() {
    let long = "w".repeat(30000);
    let base = obj(vec![("todo_state", string(&long))]);
    let out = budget_and_compact_summary(base, &JsonValue::empty_object(), 100);
    assert_eq!(
        out.pointer("/context_budget/pack_overflow_reason").and_then(|v| v.as_str()),
        Some("must_keep_only_exceeds_budget")
    );
    assert!(matches!(out.pointer("/context_budget/final_compact_applied"), Some(JsonValue::Bool(true))));
    assert_eq!(
        out.pointer("/context_budget/pack_diagnostics/evicted_by_reason/pack_drop").and_then(|v| v.as_u64()),
        Some(7)
    );
    let todo = out.pointer("/todo_state").and_then(|v| v.as_str()).unwrap();
    assert!(todo.chars().count() < 30000);
}

#[test]
fn pack_counts_all_seven_optional_blocks_on_an_empty_summary() {
    let mut summary = JsonValue::empty_object();
    let mut trace = PackTrace::new();
    let r = pack_blocks(&mut summary, 1, ContextPressureMode::Normal, &mut trace);
    assert!(r.overflow_reason.is_none());
    assert_eq!(trace.decisions.len(), 1);
    assert_eq!(trace.decisions[0].block_id, "state_summary");
    assert_eq!(trace.decisions[0].reason, "within_budget_full");
    assert_eq!(r.diagnostics.packed_blocks_total, 7);
    assert_eq!(r.diagnostics.packed_blocks_included, 7);
    assert_eq!(r.diagnostics.packed_blocks_evicted, 0);
    assert_eq!(r.diagnostics.compressed_blocks_total, 0);
    assert!(matches!(summary, JsonValue::Object(ref es) if es.is_empty()));
}

#[test]
fn pack_with_no_budget_overflows_an_empty_summary_and_keeps_it_empty() {
    let mut summary = JsonValue::empty_object();
    let mut trace = PackTrace::new();
    let r = pack_blocks(&mut summary, 0, ContextPressureMode::Normal, &mut trace);
    assert_eq!(r.overflow_reason, Some("budget_exceeded_no_further_actions"));
    assert!(matches!(summary, JsonValue::Object(ref es) if es.is_empty()));
    assert_eq!(trace.decisions.last().unwrap().reason, "budget_exceeded_no_further_actions");
    assert!(estimate_tokens_json(&summary) > 0);
}

#[test]
fn pack_overflow_comes_with_a_summary_over_budget() {
    for budget in [0u64, 1, 10, 50, 1000] {
        let mut summary = JsonValue::empty_object();
        summary.insert("previous_error".to_string(), JsonValue::String("x".repeat(400)));
        summary.insert("todo_state".to_string(), JsonValue::String("y".repeat(200)));
        let mut trace = PackTrace::new();
        let r = pack_blocks(&mut summary, budget, ContextPressureMode::Normal, &mut trace);
        assert_eq!(r.overflow_reason.is_some(), estimate_tokens_json(&summary) > budget);
    }
}
