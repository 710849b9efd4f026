use ais_agent::agent::brain::{
    should_attempt_assist_auto_approve, AgentDecisionPolicy, ApprovalsMode, ConfirmDecision, ConfirmationBundle,
    DecisionPath, NodeCommand, OperatorStep, PauseFacts, PolicyStep,
};
use ais_agent::json::{JsonNumber, JsonValue};

fn risk(level: u64) -> Option<JsonValue> {
    let mut o = JsonValue::empty_object();
    o.insert("risk_level".to_string(), JsonValue::Number(JsonNumber::PosInt(level)));
    Some(o)
}

fn confirm_pause(node: Option<&str>, bundle: Option<(&str, &[&str])>, summary: Option<JsonValue>) -> PauseFacts {
    PauseFacts {
        need_user_confirm: true,
        node_id: node.map(|n| n.to_string()),
        bundle: bundle.map(|(id, nodes)| ConfirmationBundle {
            bundle_id: id.to_string(),
            node_ids: nodes.iter().map(|n| n.to_string()).collect(),
        }),
        confirmation_summary: summary,
    }
}

fn approved(step: PolicyStep) -> Option<String> {
    match step {
        PolicyStep::Approve(n) => Some(n),
        _ => None,
    }
}

#[test]
fn decision_paths_follow_mode_and_risk() {
    let yolo = AgentDecisionPolicy::new(ApprovalsMode::Yolo, None, false);
    assert!(yolo.classify_path(&confirm_pause(Some("n1"), None, None)) == DecisionPath::YoloAutoApprove);
    assert!(yolo.classify_path(&confirm_pause(None, None, None)) == DecisionPath::ManualPrompt);
    let assist = AgentDecisionPolicy::new(ApprovalsMode::Assist, Some(2), true);
    assert!(assist.classify_path(&confirm_pause(Some("n1"), None, risk(1))) == DecisionPath::AssistLlmAutoApprove);
    assert!(assist.classify_path(&confirm_pause(Some("n1"), None, risk(3))) == DecisionPath::ManualPrompt);
    let no_llm = AgentDecisionPolicy::new(ApprovalsMode::Assist, Some(2), false);
    assert!(no_llm.classify_path(&confirm_pause(Some("n1"), None, risk(1))) == DecisionPath::ManualPrompt);
    assert!(!should_attempt_assist_auto_approve(&confirm_pause(Some("n1"), None, risk(300)), 255));
    assert!(should_attempt_assist_auto_approve(&confirm_pause(Some("n1"), None, risk(255)), 255));
}

#[test]
fn operator_commands_are_read_from_a_line() {
    let mut p = AgentDecisionPolicy::new(ApprovalsMode::Manual, None, false);
    let pause = confirm_pause(Some("n1"), None, None);
    assert!(matches!(p.operator_input(&pause, "   "), OperatorStep::Continue));
    assert!(matches!(p.operator_input(&pause, " h "), OperatorStep::Help));
    assert!(matches!(p.operator_input(&pause, "q"), OperatorStep::Cancel));
    assert!(matches!(p.operator_input(&pause, "a"), OperatorStep::Confirm(n, ConfirmDecision::Approve) if n == "n1"));
    assert!(matches!(p.operator_input(&pause, "deny"), OperatorStep::Confirm(n, ConfirmDecision::Deny) if n == "n1"));
    assert!(matches!(p.operator_input(&pause, "jsonl {\"x\":1}"), OperatorStep::Decode(t) if t == "{\"x\":1}"));
    assert!(matches!(p.operator_input(&pause, "{\"x\":1}"), OperatorStep::Decode(t) if t == "{\"x\":1}"));
    assert!(matches!(p.operator_input(&pause, "maybe"), OperatorStep::Unknown));
    let no_node = confirm_pause(None, None, None);
    assert!(matches!(p.operator_input(&no_node, "d"), OperatorStep::MissingNode(NodeCommand::Deny)));
}

#[test]
fn approve_all_carries_over_the_bundle() {
    let mut p = AgentDecisionPolicy::new(ApprovalsMode::Manual, None, false);
    let nodes: &[&str] = &["n1", "n2", "n3"];
    let first = confirm_pause(Some("n1"), Some(("b1", nodes)), None);
    assert!(matches!(p.decide(&first), PolicyStep::AskOperator));
    assert!(matches!(p.operator_input(&first, "all"), OperatorStep::Confirm(n, ConfirmDecision::Approve) if n == "n1"));
    assert_eq!(p.manual_bundle_approve.as_ref().map(|b| b.node_ids.clone()), Some(vec!["n2".to_string(), "n3".to_string()]));
    assert_eq!(approved(p.decide(&confirm_pause(Some("n3"), Some(("b1", nodes)), None))), Some("n3".to_string()));
    assert_eq!(approved(p.decide(&confirm_pause(Some("n2"), Some(("b1", nodes)), None))), Some("n2".to_string()));
    assert!(p.manual_bundle_approve.is_none());
    assert!(matches!(p.decide(&confirm_pause(Some("n4"), Some(("b1", nodes)), None)), PolicyStep::AskOperator));
}

#[test]
fn other_bundle_or_pause_kind_drops_the_pending_approval() {
    let mut p = AgentDecisionPolicy::new(ApprovalsMode::Manual, None, false);
    let nodes: &[&str] = &["n1", "n2"];
    p.operator_input(&confirm_pause(Some("n1"), Some(("b1", nodes)), None), "approve_all");
    assert!(p.manual_bundle_approve.is_some());
    assert!(matches!(p.decide(&confirm_pause(Some("n2"), Some(("b2", nodes)), None)), PolicyStep::AskOperator));
    assert!(p.manual_bundle_approve.is_none());
    p.operator_input(&confirm_pause(Some("n1"), Some(("b1", nodes)), None), "approve_all");
    let other = PauseFacts { need_user_confirm: false, node_id: None, bundle: None, confirmation_summary: None };
    assert!(p.try_apply_manual_bundle_approve(&other).is_none());
    assert!(p.manual_bundle_approve.is_none());
}

#[test]
fn always_approve_applies_to_the_rest_of_the_run() {
    let mut p = AgentDecisionPolicy::new(ApprovalsMode::Manual, None, false);
    assert!(matches!(p.operator_input(&confirm_pause(Some("n1"), None, None), "aa"), OperatorStep::Confirm(..)));
    assert!(p.manual_always_approve_this_run);
    assert_eq!(approved(p.decide(&confirm_pause(Some("n9"), None, None))), Some("n9".to_string()));
}
