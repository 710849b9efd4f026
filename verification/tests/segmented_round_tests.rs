use ais_agent::agent::agent_loop::CommandBuilder;
use ais_agent::agent::brain_round::{brain_round_step, brain_start, BrainAction, BrainEvent, BrainRoundState};
use ais_agent::agent::planning_request::{begin_prompt_payload, merge_json_patch, SegmentBeginRequest};
use ais_agent::agent::segmented_prompt::{phase_name, PlannerRoundPhase};
use ais_agent::agent::segmented_round::{
    no_toolcall_repair_payload, segmented_round_step, RoundAction, RoundEvent, SegmentedRoundState,
};
use ais_agent::json::{JsonNumber, JsonValue};
use ais_agent::llm::{LlmMessage, LlmProviderError, MessageRole, ToolSpec};

fn msg(role: MessageRole, text: &str) -> LlmMessage {
    LlmMessage { role, content: Some(text.to_string()), tool_name: None, tool_call_id: None, tool_calls: vec![] }
}

fn begin_tools() -> Vec<ToolSpec> {
    vec![ToolSpec { name: "plan.begin".to_string(), description: "d".to_string(), input_schema: JsonValue::empty_object() }]
}

fn start(prompt: &str, finalize_tool: &str, max_rounds: u8) -> SegmentedRoundState {
    SegmentedRoundState::start(
        "sys".to_string(),
        prompt.to_string(),
        PlannerRoundPhase::Begin,
        finalize_tool.to_string(),
        &begin_tools(),
        max_rounds,
    )
}

fn fail_text(a: &RoundAction) -> Option<&str> {
    match a {
        RoundAction::Fail(t) => Some(t.as_str()),
        _ => None,
    }
}

#[test]
fn round_starts_with_system_and_user_and_caps_adjudication_rounds() {
    let s = start("plain prompt", "plan.begin", 24);
    assert_eq!(s.messages.len(), 2);
    assert!(s.messages[0].role == MessageRole::System);
    assert!(s.messages[1].role == MessageRole::User);
    assert_eq!(s.max_rounds, 24);
    assert!(!s.adjudicate);
    let adj = "{\"previous_error\":{\"autofill\":{\"mode\":\"host_binding_adjudicate_round\"}}}";
    let s2 = start(adj, "plan.begin", 24);
    assert!(s2.adjudicate);
    assert_eq!(s2.max_rounds, 3);
    let tools = begin_tools();
    let req = s2.request(&tools);
    assert_eq!(req.messages.len(), 2);
    assert_eq!(req.tools.len(), 1);
}

#[test]
fn empty_answers_are_retried_twice_then_fail() {
    let s = start("p", "plan.begin", 24);
    let ev = || RoundEvent::NoToolCalls { content: Some("hm".to_string()) };
    let (s, a) = segmented_round_step(&s, ev());
    assert!(matches!(a, RoundAction::CallProvider));
    assert_eq!(s.messages.len(), 4);
    assert_eq!(s.round, 1);
    assert!(s.messages[2].role == MessageRole::Assistant);
    assert_eq!(s.messages[2].content.as_deref(), Some("hm"));
    assert!(s.messages[3].role == MessageRole::User);
    let first = s.messages[3].content.clone().unwrap();
    assert!(first.contains("\"reason_code\":\"no_tool_calls\""));
    assert!(first.contains("\"round\":1}"));
    assert!(first.contains("\"retry_attempt\":1,"));
    let (s, a) = segmented_round_step(&s, ev());
    assert!(matches!(a, RoundAction::CallProvider));
    let second = s.messages[5].content.clone().unwrap();
    assert!(second.contains("\"reason_code\":\"no_tool_calls\""));
    assert!(second.contains("\"retry_attempt\":2,"));
    let (s, a) = segmented_round_step(&s, ev());
    let t = fail_text(&a).unwrap();
    assert!(t.starts_with("segmented planner provider returned no tool calls: no_tool_calls_retries_exhausted payload={\"error\":"));
    assert!(t.contains("no_tool_calls_retries_exhausted"));
    assert!(t.contains("\"retry_attempt\":3,\"round\":3}"));
    assert_eq!(s.messages.len(), 6);
}

#[test]
fn provider_errors_rounds_and_finalize_decide_the_run() {
    let s = start("p", "plan.begin", 1);
    let (_, a) = segmented_round_step(&s, RoundEvent::ProviderFailed(LlmProviderError::CallFailed { reason: "x".to_string() }));
    assert_eq!(fail_text(&a), Some("llm provider call failed: x"));
    let round = RoundEvent::ToolRound {
        assistant: msg(MessageRole::Assistant, "a"),
        tool_results: vec![msg(MessageRole::Tool, "r1"), msg(MessageRole::Tool, "r2")],
        loop_hint: Some("hint".to_string()),
    };
    let (s2, a) = segmented_round_step(&s, round);
    assert_eq!(fail_text(&a), Some("segmented planner tool round limit reached"));
    assert_eq!(s2.messages.len(), 6);
    let done = JsonValue::Number(JsonNumber::PosInt(1));
    let (_, a) = segmented_round_step(&s, RoundEvent::Finalized(done));
    assert!(matches!(a, RoundAction::Finish(JsonValue::Number(JsonNumber::PosInt(1)))));
    let adj = "{\"previous_error\":{\"autofill\":{\"mode\":\"host_binding_adjudicate_round\"}}}";
    let s3 = start(adj, "plan.propose_segment", 1);
    let (_, a) = segmented_round_step(&s3, RoundEvent::ToolRound { assistant: msg(MessageRole::Assistant, "a"), tool_results: vec![], loop_hint: None });
    let t = fail_text(&a).unwrap();
    assert!(t.starts_with("segmented planner adjudicate rounds exhausted: finalize_required payload={\"loop_guard\":"));
    assert!(t.contains("Call `plan.propose_segment` exactly once"));
}

#[test]
fn rejected_finalize_is_repaired_twice() {
    let s = start("p", "plan.begin", 24);
    let ev = || RoundEvent::FinalizeRejected {
        assistant: msg(MessageRole::Assistant, "a"),
        tool_results: vec![],
        repair: msg(MessageRole::Tool, "fix"),
        error: "schema".to_string(),
    };
    let (s, a) = segmented_round_step(&s, ev());
    assert!(matches!(a, RoundAction::CallProvider));
    let (s, a) = segmented_round_step(&s, ev());
    assert!(matches!(a, RoundAction::CallProvider));
    assert_eq!(s.finalize_repairs, 2);
    let (_, a) = segmented_round_step(&s, ev());
    assert_eq!(fail_text(&a), Some("schema"));
}

#[test]
fn begin_payload_takes_the_operator_patch() {
    let req = SegmentBeginRequest {
        intent: "swap".to_string(),
        snapshot_hash: "s1".to_string(),
        pack_snapshot_hash: "p1".to_string(),
        catalog_hash: "c1".to_string(),
        chain_scope: vec!["eip155:1".to_string()],
    };
    let plain = begin_prompt_payload(&req, None);
    assert_eq!(plain.pointer("/goal").and_then(|v| v.as_str()), Some("call plan.begin"));
    assert_eq!(plain.pointer("/chain_scope/0").and_then(|v| v.as_str()), Some("eip155:1"));
    assert_eq!(plain.pointer("/begin_contract/required_fields/3").and_then(|v| v.as_str()), Some("limits.max_rounds"));
    let mut patch = JsonValue::empty_object();
    let mut contract = JsonValue::empty_object();
    contract.insert("note".to_string(), JsonValue::String("patched".to_string()));
    patch.insert("begin_contract".to_string(), contract);
    patch.insert("extra".to_string(), JsonValue::Bool(true));
    let patched = begin_prompt_payload(&req, Some(&patch));
    assert_eq!(patched.pointer("/begin_contract/note").and_then(|v| v.as_str()), Some("patched"));
    assert_eq!(patched.pointer("/begin_contract/cursor_type").and_then(|v| v.as_str()), Some("string_or_number"));
    assert!(matches!(patched.pointer("/extra"), Some(JsonValue::Bool(true))));
    let mut base = JsonValue::Bool(false);
    merge_json_patch(&mut base, &patch);
    assert!(base.pointer("/extra").is_some());
}

#[test]
fn pause_policy_rounds_send_commands_or_ask_again() {
    let (s, a) = brain_start(vec![msg(MessageRole::System, "sys")], 2);
    assert!(matches!(a, BrainAction::CallProvider));
    let (_, a0) = brain_start(vec![], 0);
    assert!(matches!(a0, BrainAction::Fail(ref t) if t == "llm tool round limit reached without engine commands"));
    let mut b = CommandBuilder::new("run");
    let cmd = b.cancel();
    let (_, a) = brain_round_step(
        BrainRoundState { messages: vec![], round: 0, max_rounds: 2 },
        BrainEvent::Answered { assistant: msg(MessageRole::Assistant, "a"), commands: vec![cmd], tool_results: vec![] },
    );
    assert!(matches!(a, BrainAction::Commands(ref cs) if cs.len() == 1 && cs[0].id == "run-cmd-000001"));
    let (s, a) = brain_round_step(
        s,
        BrainEvent::Answered {
            assistant: msg(MessageRole::Assistant, "a"),
            commands: vec![],
            tool_results: vec![msg(MessageRole::Tool, "detail")],
        },
    );
    assert!(matches!(a, BrainAction::CallProvider));
    assert_eq!(s.messages.len(), 3);
    let (_, a) = brain_round_step(
        s,
        BrainEvent::Answered { assistant: msg(MessageRole::Assistant, "a"), commands: vec![], tool_results: vec![] },
    );
    assert!(matches!(a, BrainAction::Fail(ref t) if t == "provider returned no actionable tool calls"));
    let (_, a) = brain_round_step(BrainRoundState { messages: vec![], round: 0, max_rounds: 1 }, BrainEvent::NoToolCalls);
    assert!(matches!(a, BrainAction::Fail(ref t) if t == "provider returned no tool calls while paused"));
}

#[test]
fn no_toolcall_payload_names_phase_round_and_tools() {
    let tools = vec![
        ToolSpec { name: "catalog.search".to_string(), description: "d".to_string(), input_schema: JsonValue::empty_object() },
        ToolSpec { name: "plan.begin".to_string(), description: "d".to_string(), input_schema: JsonValue::empty_object() },
    ];
    let payload = no_toolcall_repair_payload(PlannerRoundPhase::Begin, "plan.begin", 1, 1, 2, &tools);
    assert_eq!(
        payload.to_text(),
        "{\"error\":{\"allowed_tools\":[\"catalog.search\",\"plan.begin\"],\"finalize_tool\":\"plan.begin\",\"max_retries\":2,\"message\":\"No tool calls were returned. You must return at least one allowed tool call.\",\"phase\":\"begin\",\"reason_code\":\"no_tool_calls\",\"retry_attempt\":1,\"round\":1},\"rules\":[\"Return at least one tool call in this response.\",\"Use only allowed tools for this phase.\",\"If finishing this phase, call finalize_tool exactly once and as the last tool call.\"]}"
    );
    assert_eq!(phase_name(PlannerRoundPhase::ReviseSegment), "revise_segment");
}

#[test]
fn a_run_without_rounds_fails_at_once() {
    let s = start("p", "plan.begin", 0);
    assert_eq!(fail_text(&s.first_action()), Some("segmented planner tool round limit reached"));
    let s = start("p", "plan.begin", 24);
    assert!(matches!(s.first_action(), RoundAction::CallProvider));
}
