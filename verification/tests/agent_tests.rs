use ais_agent::agent::agent_loop::{CommandBuilder, EngineCommandType};
use ais_agent::agent::budget::{compact_json_for_llm, compact_json_with_options, JsonBudgetOptions};
use ais_agent::agent::context::budget_policy::{
    budget_bounds_from_soft_limit, budget_from_ratio_bps, budget_from_remaining_tokens, interpolate_usize,
    ContextPressureMode, PlanningMemoryStoreBudget, ToolDispatchCompactProfile, ToolDispatchKind,
    ToolMemoryBudgetPolicy, PLANNING_MEMORY_STORE_DEFAULT_MAX_ENTRIES, PLANNING_MEMORY_STORE_DEFAULT_MAX_ENTRY_CHARS,
    PLANNING_MEMORY_STORE_DEFAULT_MAX_TOTAL_CHARS,
};
use ais_agent::agent::context::packing::{ContextCompressLevel, ContextPackBlockId, PackAction, PackDecision, PackDiagnostics};
use ais_agent::agent::facts::{FactLayer, FactSource, FactStore, FactUpsertResult, VolatileFactSignal, FactStability};
use ais_agent::agent::input_normalize::{normalize_grounding_input_key, normalize_input_key, normalize_input_slot_key, InputRef};
use ais_agent::agent::input_store::{is_decimals_slot, is_integer_like_slot, is_query_observation_source, derived_asset_roots, is_newer_observation};
use ais_agent::agent::message_compactor::{build_compressed_summary, find_round_boundaries, MessageCompactor, MessageCompactorConfig};
use ais_agent::agent::planner::{
    context_soft_limit_tokens, list_chain_filter_matches, non_empty_rules, numbered_lines, truncate_for_log,
    CatalogSearchLoopGuard, PlanCheckFailureLoopGuard, PlannerDiagnosticsTracker, PlannerLlmUsageTracker,
};
use ais_agent::agent::segmented_prompt::{PlannerRoundPhase, SegmentedPromptContextBuilder, SegmentedPromptOverrides};
use ais_agent::json::{JsonNumber, JsonValue};
use ais_agent::llm::{LlmMessage, MessageRole, ToolCall};

fn num(n: u64) -> JsonValue {
    JsonValue::Number(JsonNumber::PosInt(n))
}

fn text(s: &str) -> JsonValue {
    JsonValue::from_text(s)
}

fn obj(entries: Vec<(&str, JsonValue)>) -> JsonValue {
    let mut o = JsonValue::empty_object();
    for (k, v) in entries {
        o.insert(k.to_string(), v);
    }
    o
}

fn as_str(v: Option<&JsonValue>) -> Option<&str> {
    v.and_then(|x| x.as_str())
}

#[test]
fn compact_json_limits_depth_arrays_and_strings() {
    let input = obj(vec![
        ("a", JsonValue::Array(vec![num(1), num(2), num(3), num(4), num(5)])),
        ("b", obj(vec![("c", obj(vec![("d", obj(vec![("e", obj(vec![("f", text("abcdefghijklmnopqrstuvwxyz"))]))]))]))])),
        ("text", text("abcdefghijklmnopqrstuvwxyz")),
    ]);
    let out = compact_json_with_options(
        &input,
        &JsonBudgetOptions { max_depth: 4, max_object_entries: 10, max_array_items: 2, max_string_chars: 5 },
    );
    assert_eq!(as_str(out.pointer("/a/2")), Some("[TRUNCATED_ARRAY_ITEMS:3]"));
    assert_eq!(as_str(out.pointer("/b/c/d/e")), Some("[TRUNCATED_DEPTH]"));
    assert_eq!(as_str(out.pointer("/text")), Some("abcde..."));
}

#[test]
fn compact_json_marks_dropped_object_entries() {
    let input = obj(vec![("a", num(1)), ("b", num(2)), ("c", num(3))]);
    let out = compact_json_with_options(
        &input,
        &JsonBudgetOptions { max_depth: 4, max_object_entries: 2, max_array_items: 2, max_string_chars: 5 },
    );
    assert_eq!(as_str(out.pointer("/_truncated_object_entries")), Some("1"));
    assert_eq!(out.pointer("/a").and_then(|v| v.as_u64()), Some(1));
    assert!(out.pointer("/c").is_none());
    let small = obj(vec![("a", text("xy"))]);
    let same = compact_json_for_llm(&small);
    assert_eq!(as_str(same.pointer("/a")), Some("xy"));
}

#[test]
fn pointer_reads_objects_and_arrays() {
    let v = obj(vec![("a/b", num(7)), ("list", JsonValue::Array(vec![num(1), num(2)]))]);
    assert_eq!(v.pointer("/a~1b").and_then(|x| x.as_u64()), Some(7));
    assert_eq!(v.pointer("/list/1").and_then(|x| x.as_u64()), Some(2));
    assert!(v.pointer("/list/01").is_none());
    assert!(v.pointer("/list/2").is_none());
    assert!(v.pointer("list").is_none());
    assert!(v.pointer("").is_some());
}

#[test]
fn planning_memory_store_budget_defaults_without_usage() {
    let budget = ToolMemoryBudgetPolicy::derive_planning_memory_store_budget(None, None);
    assert!(
        budget
            == PlanningMemoryStoreBudget {
                max_entries: PLANNING_MEMORY_STORE_DEFAULT_MAX_ENTRIES,
                max_entry_chars: PLANNING_MEMORY_STORE_DEFAULT_MAX_ENTRY_CHARS,
                max_total_chars: PLANNING_MEMORY_STORE_DEFAULT_MAX_TOTAL_CHARS,
            }
    );
}

#[test]
fn planning_memory_store_budget_tightens_under_critical_pressure() {
    let runtime_usage = obj(vec![
        ("context_soft_limit_tokens", num(100_000)),
        ("context_remaining_tokens", num(2_000)),
    ]);
    let budget = ToolMemoryBudgetPolicy::derive_planning_memory_store_budget(None, Some(&runtime_usage));
    assert!(budget.max_entries <= 16);
    assert!(budget.max_entry_chars <= 3_000);
    assert!(budget.max_total_chars <= 40_000);
}

#[test]
fn budget_formulas_have_expected_values() {
    assert_eq!(interpolate_usize(16, 72, 5000), 44);
    assert_eq!(interpolate_usize(10, 5, 9000), 10);
    assert_eq!(budget_from_ratio_bps(2000, 1200, 6000), 1200);
    assert_eq!(budget_from_ratio_bps(4000, 1200, 6000), 3600);
    assert_eq!(budget_from_ratio_bps(6000, 1200, 6000), 6000);
    assert_eq!(budget_from_remaining_tokens(14000), 3600);
    assert_eq!(budget_bounds_from_soft_limit(100_000), (20_000, 40_000));
    assert_eq!(budget_bounds_from_soft_limit(1_000), (1_200, 1_200));
    assert!(ToolMemoryBudgetPolicy::derive_context_pressure_mode(Some(9_500), None) == ContextPressureMode::Critical);
    assert!(ToolMemoryBudgetPolicy::derive_context_pressure_mode(None, Some(5_000)) == ContextPressureMode::Medium);
    assert!(ToolMemoryBudgetPolicy::derive_context_pressure_mode(Some(7_100), None) == ContextPressureMode::Light);
    assert!(ToolMemoryBudgetPolicy::derive_context_pressure_mode(None, None) == ContextPressureMode::Normal);
    assert_eq!(ToolMemoryBudgetPolicy::derive_adaptive_effective_token_limit(6000, Some(1000)), (9000, "relaxed"));
    assert_eq!(ToolMemoryBudgetPolicy::derive_adaptive_effective_token_limit(6000, Some(8800)), (5100, "medium"));
    assert_eq!(ToolMemoryBudgetPolicy::derive_adaptive_effective_token_limit(6000, Some(9900)), (3600, "tight"));
    assert_eq!(ToolMemoryBudgetPolicy::derive_adaptive_effective_token_limit(0, None), (1, "default"));
    let caps = ToolMemoryBudgetPolicy::derive_tool_memory_projection_caps(64_000);
    assert_eq!(caps.max_catalog_entries, 20);
    let caps = ToolMemoryBudgetPolicy::derive_tool_memory_projection_caps(0);
    assert_eq!(caps.max_list_inventory_entries, 2);
    let o = ToolMemoryBudgetPolicy::tool_dispatch_options(ToolDispatchKind::CheckSegment, ToolDispatchCompactProfile::Balanced);
    assert_eq!((o.max_depth, o.max_object_entries, o.max_array_items, o.max_string_chars), (8, 64, 24, 2400));
    let r = ToolMemoryBudgetPolicy::context_pack_block_recipe(ContextPackBlockId::InputStoreFacts, ContextPressureMode::Medium);
    assert!(r.preferred_level == ContextCompressLevel::Summary);
    assert_eq!(r.summary_compact_options.unwrap().max_string_chars, 720);
    assert!(ContextPressureMode::from_str(ContextPressureMode::Light.as_str()) == Some(ContextPressureMode::Light));
    assert!(ContextPressureMode::from_str("loud").is_none());
}

#[test]
fn projection_budget_uses_usage_records() {
    let planner = obj(vec![("context_soft_limit_tokens", num(100_000)), ("context_remaining_tokens", num(40_000))]);
    assert_eq!(ToolMemoryBudgetPolicy::derive_tool_memory_projection_token_budget(Some(&planner), None), 30_000);
    let runtime = obj(vec![("context_remaining_tokens", num(14_000))]);
    assert_eq!(ToolMemoryBudgetPolicy::derive_tool_memory_projection_token_budget(None, Some(&runtime)), 3_600);
    assert_eq!(ToolMemoryBudgetPolicy::derive_tool_memory_projection_token_budget(None, None), 2_400);
}

#[test]
fn pack_diagnostics_count_decisions() {
    let mut d = PackDiagnostics::new();
    let decision = |action| PackDecision {
        block_id: "x".to_string(),
        action,
        reason: "pack_compress",
        before_level: None,
        after_level: None,
    };
    d.observe_decision(&decision(PackAction::Compress));
    d.observe_decision(&decision(PackAction::Compress));
    d.observe_decision(&decision(PackAction::Keep));
    assert_eq!(d.compressed_blocks_total, 2);
    assert_eq!(d.compressed_by_reason, vec![("pack_compress".to_string(), 2)]);
    assert!(d.evicted_by_reason.is_empty());
    assert_eq!(ContextPackBlockId::InputStoreFacts.path(), "/input_store/facts");
}

#[test]
fn upsert_keeps_higher_priority_source() {
    let mut store = FactStore::new();
    assert!(
        store.upsert("owner".to_string(), text("0xintent"), FactLayer::Seed, FactSource::IntentInferred, "intent".to_string())
            == FactUpsertResult::Inserted
    );
    assert!(
        store.upsert("owner".to_string(), text("0xquery"), FactLayer::Observed, FactSource::QueryObserved, "query:owner".to_string())
            == FactUpsertResult::Replaced
    );
    assert_eq!(store.get("owner").and_then(|entry| entry.value.as_str()), Some("0xquery"));
    assert!(store.get("owner").map(|entry| entry.source) == Some(FactSource::QueryObserved));
}

#[test]
fn upsert_keeps_existing_on_same_priority() {
    let mut store = FactStore::new();
    assert!(
        store.upsert("owner".to_string(), text("0xfirst"), FactLayer::Seed, FactSource::RuntimeProvided, "runtime.inputs.owner".to_string())
            == FactUpsertResult::Inserted
    );
    assert!(
        store.upsert("owner".to_string(), text("0xsecond"), FactLayer::Seed, FactSource::RuntimeProvided, "runtime.inputs.wallet".to_string())
            == FactUpsertResult::Ignored
    );
    assert_eq!(store.get("owner").and_then(|entry| entry.value.as_str()), Some("0xfirst"));
    assert_eq!(store.get("owner").map(|entry| entry.provenance.as_str()), Some("runtime.inputs.owner"));
}

#[test]
fn volatile_query_does_not_override_intent_fact() {
    let mut store = FactStore::new();
    assert!(
        store.upsert("spend.balance".to_string(), text("100"), FactLayer::Seed, FactSource::IntentInferred, "intent.balance".to_string())
            == FactUpsertResult::Inserted
    );
    assert!(
        store.upsert_with_observed_at(
            "spend.balance".to_string(),
            text("50"),
            FactLayer::Observed,
            FactSource::QueryObserved,
            "query.balance".to_string(),
            Some(1_000),
        ) == FactUpsertResult::Ignored
    );
    let winner = store.get("spend.balance").expect("winner");
    assert_eq!(winner.value.as_str(), Some("100"));
    assert!(winner.source == FactSource::IntentInferred);
}

#[test]
fn merge_preserves_provenance_of_winner() {
    let mut base = FactStore::new();
    base.upsert(
        "amount.atomic".to_string(),
        text("1000000000000000000"),
        FactLayer::Derived,
        FactSource::DerivedComputation,
        "derive:to_atomic".to_string(),
    );
    let mut incoming = FactStore::new();
    incoming.upsert(
        "amount.atomic".to_string(),
        text("1200000000000000000"),
        FactLayer::Observed,
        FactSource::QueryObserved,
        "query:quote.amount".to_string(),
    );
    base.merge(&incoming);
    let winner = base.get("amount.atomic").expect("winner");
    assert_eq!(winner.value.as_str(), Some("1200000000000000000"));
    assert!(winner.source == FactSource::QueryObserved);
    assert_eq!(winner.provenance, "query:quote.amount");
}

#[test]
fn volatile_fact_freshness_uses_observed_time() {
    let now = 1_000_000u64;
    let mut store = FactStore::new();
    store.upsert_with_observed_at(
        "wallet.balance.native".to_string(),
        text("100"),
        FactLayer::Observed,
        FactSource::QueryObserved,
        "query:native.balance".to_string(),
        Some(now.saturating_sub(10_000)),
    );
    assert!(store.has_fresh_volatile_signal(VolatileFactSignal::Balance, 30_000, now));
    assert!(!store.has_fresh_volatile_signal(VolatileFactSignal::Balance, 5_000, now));
    assert!(store.get("wallet.balance.native").unwrap().stability == FactStability::Volatile);
}

#[test]
fn fact_store_keys_are_sorted_and_provenance_normalized() {
    let mut store = FactStore::new();
    store.upsert("b".to_string(), num(1), FactLayer::Seed, FactSource::UserInput, "  ".to_string());
    store.upsert("a.decimals".to_string(), num(18), FactLayer::Seed, FactSource::UserInput, " p ".to_string());
    assert_eq!(store.keys(), vec!["a.decimals".to_string(), "b".to_string()]);
    assert_eq!(store.get("b").unwrap().provenance, "unknown");
    assert_eq!(store.get("a.decimals").unwrap().provenance, "p");
    assert!(store.get("a.decimals").unwrap().stability == FactStability::Stable);
    assert!(store.any_key_ends_with("decimals"));
    assert!(!store.is_empty());
}

fn msg(role: MessageRole, content: Option<&str>, tools: &[&str]) -> LlmMessage {
    LlmMessage {
        role,
        content: content.map(|c| c.to_string()),
        tool_name: None,
        tool_call_id: None,
        tool_calls: tools
            .iter()
            .enumerate()
            .map(|(i, n)| ToolCall { id: format!("call_{i}"), name: n.to_string(), arguments: JsonValue::empty_object() })
            .collect(),
    }
}

fn build_messages(rounds: usize) -> Vec<LlmMessage> {
    let mut msgs = vec![
        msg(MessageRole::System, Some("system prompt"), &[]),
        msg(MessageRole::User, Some("user prompt with state_summary"), &[]),
    ];
    for r in 0..rounds {
        msgs.push(msg(MessageRole::Assistant, None, &["catalog.discover"]));
        msgs.push(msg(MessageRole::Tool, Some(&format!("result_{r}")), &[]));
    }
    msgs
}

fn estimate(messages: &[LlmMessage]) -> u64 {
    messages.iter().map(|m| m.content.as_ref().map(|c| c.len() as u64 / 4).unwrap_or(0) + 4).sum()
}

#[test]
fn no_compact_within_budget() {
    let msgs = build_messages(3);
    let compactor = MessageCompactor::new(MessageCompactorConfig { keep_recent_rounds: 2, messages_token_budget: 100_000 });
    assert!(!compactor.should_compact(&msgs, estimate(&msgs)));
}

#[test]
fn no_compact_few_rounds() {
    let msgs = build_messages(2);
    let compactor = MessageCompactor::new(MessageCompactorConfig { keep_recent_rounds: 2, messages_token_budget: 1 });
    assert!(!compactor.should_compact(&msgs, estimate(&msgs)));
}

#[test]
fn compact_reduces_messages() {
    let mut msgs = build_messages(8);
    let original_len = msgs.len();
    let compactor = MessageCompactor::new(MessageCompactorConfig { keep_recent_rounds: 2, messages_token_budget: 1 });
    assert!(compactor.should_compact(&msgs, estimate(&msgs)));
    compactor.compact(&mut msgs);
    assert_eq!(msgs.len(), 7);
    assert!(msgs[0].role == MessageRole::System);
    assert!(msgs[1].role == MessageRole::User);
    assert!(msgs[2].role == MessageRole::User);
    assert!(msgs[2].content.as_ref().unwrap().contains("compressed_history"));
    assert!(msgs[3].role == MessageRole::Assistant);
    assert!(original_len > msgs.len());
}

#[test]
fn compact_preserves_recent_rounds() {
    let mut msgs = build_messages(6);
    let compactor = MessageCompactor::new(MessageCompactorConfig { keep_recent_rounds: 3, messages_token_budget: 1 });
    compactor.compact(&mut msgs);
    assert_eq!(msgs.len(), 9);
    let last_tool = msgs.last().unwrap();
    assert!(last_tool.role == MessageRole::Tool);
    assert!(last_tool.content.as_ref().unwrap().contains("result_5"));
}

#[test]
fn summary_captures_tools() {
    let history = vec![
        msg(MessageRole::Assistant, None, &["catalog.discover", "catalog.discover"]),
        msg(MessageRole::Tool, Some("res1"), &[]),
        msg(MessageRole::Tool, Some("res2"), &[]),
        msg(MessageRole::Assistant, None, &["get_candidate_detail"]),
        msg(MessageRole::Tool, Some("res3"), &[]),
    ];
    let summary = build_compressed_summary(&history);
    assert!(summary.contains("catalog.discover"));
    assert!(summary.contains("get_candidate_detail"));
    assert!(summary.contains("\"rounds_compressed\":2"));
    assert!(summary.contains("\"tool_results\":3"));
    assert_eq!(
        summary,
        "{\"compressed_history\":true,\"rounds_compressed\":2,\"tool_results\":3,\"tools_called\":\"catalog.discover, get_candidate_detail\"}"
    );
    assert!(build_compressed_summary(&[]).contains("\"tools_called\":\"none\""));
}

#[test]
fn disabled_when_budget_zero() {
    let msgs = build_messages(20);
    let compactor = MessageCompactor::new(MessageCompactorConfig { keep_recent_rounds: 2, messages_token_budget: 0 });
    assert!(!compactor.should_compact(&msgs, estimate(&msgs)));
}

#[test]
fn round_boundary_detection() {
    let msgs = build_messages(4);
    let boundaries = find_round_boundaries(&msgs);
    assert_eq!(boundaries.len(), 4);
    assert_eq!(boundaries[0], 2);
    assert_eq!(boundaries[1], 4);
    assert_eq!(boundaries[2], 6);
    assert_eq!(boundaries[3], 8);
}

#[test]
fn compact_with_user_hints() {
    let mut msgs = vec![
        msg(MessageRole::System, Some("system"), &[]),
        msg(MessageRole::User, Some("user"), &[]),
        msg(MessageRole::Assistant, None, &["catalog.discover"]),
        msg(MessageRole::Tool, Some("res0"), &[]),
        msg(MessageRole::User, Some("hint0"), &[]),
        msg(MessageRole::Assistant, None, &["catalog.discover"]),
        msg(MessageRole::Tool, Some("res1"), &[]),
        msg(MessageRole::Assistant, None, &["get_candidate_detail"]),
        msg(MessageRole::Tool, Some("res2"), &[]),
        msg(MessageRole::Assistant, None, &["guide.get"]),
        msg(MessageRole::Tool, Some("res3"), &[]),
    ];
    let compactor = MessageCompactor::new(MessageCompactorConfig { keep_recent_rounds: 2, messages_token_budget: 1 });
    compactor.compact(&mut msgs);
    assert_eq!(msgs.len(), 7);
    assert!(msgs[2].content.as_ref().unwrap().contains("compressed_history"));
    assert!(msgs[3].role == MessageRole::Assistant);
}

#[test]
fn command_builder_issues_padded_ids_after_seen_ones() {
    let mut b = CommandBuilder::new("run1");
    assert_eq!(b.next_id(), "run1-cmd-000001");
    let seen = vec![
        "run1-cmd-000007".to_string(),
        "run1-cmd-x".to_string(),
        "other-cmd-000099".to_string(),
        "run1-cmd-+12".to_string(),
    ];
    assert_eq!(b.set_next_index_from_seen_ids(&seen), 12);
    let next = b.next_id();
    assert_eq!(next, "run1-cmd-000013");
    assert!(!seen.contains(&next));
    let mut big = CommandBuilder::new("r");
    big.set_next_index_from_seen_ids(&vec!["r-cmd-1234567".to_string()]);
    assert_eq!(big.next_id(), "r-cmd-1234568");
}

#[test]
fn input_slot_keys_are_canonical() {
    assert_eq!(normalize_grounding_input_key(" runtime.inputs. token_address "), "token.address");
    assert_eq!(normalize_input_slot_key("inputs. token . amount .."), Some("token.amount".to_string()));
    assert_eq!(normalize_input_slot_key("runtime.x"), None);
    assert_eq!(normalize_input_slot_key("   "), None);
    assert_eq!(normalize_input_slot_key(".."), None);
    assert_eq!(normalize_input_key("a/b.c"), None);
    assert_eq!(normalize_input_key("a.b~c"), None);
    assert_eq!(normalize_input_key("a.b"), Some("a.b".to_string()));
    let r = InputRef::new("inputs.recipient_address").unwrap();
    assert_eq!(r.as_str(), "recipient");
    assert!(InputRef::new("nodes.a").is_none());
    assert!(InputRef::from_canonical("a.b".to_string()).is_some());
    assert!(InputRef::from_canonical("a..b".to_string()).is_none());
}

#[test]
fn input_store_slot_rules() {
    assert!(is_decimals_slot("token.decimals"));
    assert!(!is_decimals_slot("token.decimals.x"));
    assert!(is_integer_like_slot("swap.slippage_bps"));
    assert!(is_integer_like_slot("nonce"));
    assert!(!is_integer_like_slot("amount"));
    assert!(is_query_observation_source(" Query.balance "));
    assert!(is_query_observation_source("host.query.x"));
    assert!(!is_query_observation_source("user"));
    assert_eq!(derived_asset_roots(&vec!["token.address".to_string()]), vec!["token".to_string()]);
    assert!(derived_asset_roots(&vec!["tokens".to_string()]).is_empty());
    assert!(is_newer_observation(Some(2), Some(1)));
    assert!(is_newer_observation(Some(0), None));
    assert!(!is_newer_observation(None, Some(1)));
}

#[test]
fn loop_guards_track_streaks() {
    let mut g = CatalogSearchLoopGuard::new();
    assert!(!g.observe_empty(Some("q".to_string())));
    assert!(g.observe_empty(Some("q".to_string())));
    assert!(!g.observe_empty(Some("q".to_string())));
    assert_eq!(g.max_streak(), 3);
    g.observe_non_empty();
    assert!(!g.observe_empty(None));
    assert_eq!(g.max_streak(), 3);

    let mut p = PlanCheckFailureLoopGuard::new();
    assert!(!p.observe(Some("e".to_string())));
    assert!(!p.observe(Some("e".to_string())));
    assert!(p.observe(Some("e".to_string())));
    assert!(!p.observe(Some("f".to_string())));
    assert_eq!(p.streak(), 1);
    assert!(!p.observe(None));
    assert_eq!(p.streak(), 0);
}

#[test]
fn diagnostics_tracker_counts() {
    let mut d = PlannerDiagnosticsTracker::new();
    assert!(!d.observe_tool_call("catalog.search", Some("k1".to_string())));
    assert!(d.observe_tool_call("catalog.search", Some("k1".to_string())));
    assert!(!d.observe_tool_call("check_segment", None));
    assert_eq!(d.total_tool_calls, 3);
    assert_eq!(d.duplicate_ratio_bps(), 3333);
    assert_eq!(d.discovery_ratio_bps(), 6666);
    d.observe_tool_exec_end("guide.get", "parallel", "boom", 30);
    d.observe_tool_exec_end("guide.get", "sequential", "success", 10);
    assert_eq!(d.tool_exec_error, 1);
    assert_eq!(d.parallel_failures_total, 1);
    assert_eq!(d.tool_exec_latency_max_ms_by_tool, vec![("guide.get".to_string(), 30)]);
    assert_eq!(d.tool_exec_latency_sum_ms_by_tool, vec![("guide.get".to_string(), 40)]);
    assert_eq!(context_soft_limit_tokens(1000), 900);
}

#[test]
fn diagnostics_and_usage_reports() {
    let mut d = PlannerDiagnosticsTracker::new();
    d.observe_tool_call("catalog.search", Some("k".to_string()));
    d.observe_tool_call("catalog.search", Some("k".to_string()));
    d.observe_tool_result("catalog.search", false);
    d.observe_tool_result("catalog.search", true);
    d.observe_tool_exec_end("guide.get", "parallel", "success", 12);
    let v = d.to_value();
    let u64_at = |p: &str| v.pointer(p).and_then(|x| x.as_u64());
    assert_eq!(u64_at("/tool_calls_total"), Some(2));
    assert_eq!(u64_at("/tool_calls_duplicate"), Some(1));
    assert_eq!(u64_at("/duplicate_tool_call_ratio_bps"), Some(5000));
    assert_eq!(u64_at("/discovery_tool_call_ratio_bps"), Some(10000));
    assert_eq!(u64_at("/tool_call_count_by_tool/catalog.search"), Some(2));
    assert_eq!(u64_at("/memory_hit_rate_by_tool/catalog.search/total"), Some(2));
    assert_eq!(u64_at("/memory_hit_rate_by_tool/catalog.search/hits"), Some(1));
    assert_eq!(u64_at("/memory_hit_rate_by_tool/catalog.search/rate_bps"), Some(5000));
    assert_eq!(u64_at("/tool_exec/total"), Some(1));
    assert_eq!(u64_at("/tool_exec/latency_max_ms_by_tool/guide.get"), Some(12));

    let mut usage = PlannerLlmUsageTracker::new().with_context_limit_tokens(Some(1000));
    let call = usage.record(300, 50);
    assert_eq!(call.total_tokens, 350);
    assert_eq!(call.context_remaining_tokens, Some(600));
    let r = usage.to_value();
    assert_eq!(as_str(r.pointer("/schema")), Some("ais-agent-llm-usage/0.0.1"));
    assert_eq!(r.pointer("/calls").and_then(|x| x.as_u64()), Some(1));
    assert_eq!(r.pointer("/total_tokens").and_then(|x| x.as_u64()), Some(350));
    assert_eq!(r.pointer("/context_soft_limit_tokens").and_then(|x| x.as_u64()), Some(900));
    assert_eq!(r.pointer("/context_remaining_tokens").and_then(|x| x.as_u64()), Some(600));
    let plain = PlannerLlmUsageTracker::new().to_value();
    assert!(matches!(plain.pointer("/context_remaining_tokens"), Some(JsonValue::Null)));
}

#[test]
fn planner_text_rules() {
    assert_eq!(truncate_for_log("abcdef", 3), "abc...");
    assert_eq!(truncate_for_log("abc", 3), "abc");
    assert!(list_chain_filter_matches(" EIP155:* ", "eip155:1"));
    assert!(list_chain_filter_matches("", "x"));
    assert!(!list_chain_filter_matches("eip155:1", "solana"));
    assert!(list_chain_filter_matches("eip155", "eip155*"));
    assert_eq!(numbered_lines(&vec!["a".to_string(), "b".to_string()]), "1. a\n2. b");
    assert_eq!(non_empty_rules(Some(vec![" x ".to_string(), "  ".to_string()])), Some(vec!["x".to_string()]));
    assert_eq!(non_empty_rules(Some(vec![" ".to_string()])), None);
    assert_eq!(non_empty_rules(None), None);
}

#[test]
fn planning_value_contains_facts_and_meta() {
    let mut store = FactStore::new();
    store.upsert(
        "token.decimals".to_string(),
        num(18),
        FactLayer::Observed,
        FactSource::QueryObserved,
        "query:erc20.decimals".to_string(),
    );
    let value = store.to_planning_value();
    assert_eq!(value.pointer("/facts/token.decimals").and_then(|v| v.as_u64()), Some(18));
    assert_eq!(as_str(value.pointer("/meta/token.decimals/provenance")), Some("query:erc20.decimals"));
    assert_eq!(as_str(value.pointer("/meta/token.decimals/stability")), Some("stable"));
}

#[test]
fn projected_planning_value_puts_owner_first_and_counts_the_rest() {
    let mut store = FactStore::new();
    for key in ["zeta", "alpha", "owner", "beta"] {
        store.upsert(key.to_string(), num(1), FactLayer::Seed, FactSource::UserInput, "user".to_string());
    }
    let value = store.to_projected_planning_value(2);
    assert!(value.pointer("/facts/owner").is_some());
    assert!(value.pointer("/facts/alpha").is_some());
    assert!(value.pointer("/facts/beta").is_none());
    assert_eq!(value.pointer("/meta/_truncated_entries").and_then(|v| v.as_u64()), Some(2));
    assert_eq!(value.pointer("/meta/owner/source_priority").and_then(|v| v.as_u64()), Some(100));
    assert_eq!(as_str(value.pointer("/meta/owner/layer")), Some("seed"));
    assert!(matches!(value.pointer("/meta/owner/observed_at_ms"), Some(JsonValue::Null)));
}

#[test]
fn segmented_prompt_defaults_overrides_and_phase_rules() {
    let builder = SegmentedPromptContextBuilder::default();
    assert_eq!(builder.base_rules.len(), 22);
    assert_eq!(builder.base_rules[0], "Tool-calling only.");
    assert_eq!(builder.contracts_summary[0], "ValueRef forms: lit/ref/cel/object/array.");
    assert_eq!(builder.phase_rules(PlannerRoundPhase::Begin)[0], "Current phase: begin.");
    assert_eq!(builder.phase_rules(PlannerRoundPhase::GroundIntent)[0], "Current phase: ground_intent.");
    assert_eq!(builder.phase_rules(PlannerRoundPhase::ProposeTodos)[0], "Current phase: propose_todos.");
    assert_eq!(builder.phase_rules(PlannerRoundPhase::ProposeSegment).len(), 11);
    assert_eq!(builder.phase_rules(PlannerRoundPhase::ReviseSegment).len(), 13);

    let mut overrides = SegmentedPromptOverrides::default();
    overrides.base_rules = Some(vec!["  only this  ".to_string(), "   ".to_string()]);
    overrides.phase_rules_begin = Some(vec!["  ".to_string()]);
    let changed = builder.with_overrides(overrides);
    assert_eq!(changed.base_rules, vec!["only this".to_string()]);
    assert_eq!(changed.phase_rules_begin.len(), 3);
    assert_eq!(changed.phase_rules_grounding.len(), 9);

    let same = SegmentedPromptContextBuilder::default().with_overrides(SegmentedPromptOverrides::default());
    assert_eq!(same.base_rules, SegmentedPromptContextBuilder::default().base_rules);
}

#[test]
fn command_builder_makes_numbered_commands() {
    let mut b = CommandBuilder::new("run");
    let c = b.user_confirm("n1", "approve");
    assert_eq!(c.id, "run-cmd-000001");
    assert!(c.command_type == EngineCommandType::UserConfirm);
    assert_eq!(c.data.to_text(), "{\"decision\":\"approve\",\"node_id\":\"n1\"}");
    let i = b.user_input("amount", num(5));
    assert_eq!(i.id, "run-cmd-000002");
    assert_eq!(i.data.to_text(), "{\"input_id\":\"amount\",\"value\":5}");
    let s = b.user_select("token", 1, vec![text("a"), text("b")]);
    assert!(s.command_type == EngineCommandType::UserSelect);
    assert_eq!(s.data.to_text(), "{\"input_id\":\"token\",\"options\":[\"a\",\"b\"],\"selected_index\":1}");
    let x = b.cancel();
    assert_eq!(x.id, "run-cmd-000004");
    assert!(x.command_type == EngineCommandType::Cancel);
    assert_eq!(x.data.to_text(), "{}");
}

#[test]
fn canonical_input_refs_read_back_as_themselves() {
    let r = InputRef::new(" runtime.inputs. token . address ").unwrap();
    assert_eq!(r.as_str(), "token.address");
    assert_eq!(InputRef::new(r.as_str()).unwrap().as_str(), "token.address");
    let alias = InputRef::new("inputs.token_address").unwrap();
    assert_eq!(alias.as_str(), "token.address");
    assert!(InputRef::new("nodes.q").is_none());
    assert!(InputRef::new(" . ").is_none());
}

#[test]
fn input_ref_canonical_names_read_back_as_themselves() {
    for raw in [" runtime.inputs. token . amount ", "inputs.a..b", "x", "swap.  from_token  .address"] {
        let r = InputRef::new(raw).unwrap();
        let c = r.as_str().to_string();
        assert!(!c.is_empty());
        assert!(c.split('.').all(|s| !s.is_empty() && s == s.trim()));
        assert!(!["nodes", "facts", "agent", "runtime", "workspace", "input"].contains(&c.split('.').next().unwrap()));
        assert_eq!(InputRef::new(c.as_str()).unwrap().as_str(), c.as_str());
    }
    assert_eq!(InputRef::new(" runtime.inputs. token . amount ").unwrap().as_str(), "token.amount");
}
