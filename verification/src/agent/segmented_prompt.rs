//! The rule text of the segmented planner's prompt: the defaults of each
//! phase, the operator's overrides, and the rules that apply in a round.
use vstd::prelude::*;
use crate::agent::planner::{clean_lines, non_empty_rules, texts};
use crate::json::JsonValue;
use crate::text::to_owned_string;

verus! {

/// The phase of a planner round.
#[derive(Clone, Copy, Debug)]
pub enum PlannerRoundPhase {
    Begin,
    GroundIntent,
    ProposeTodos,
    ProposeSegment,
    ReviseSegment,
}

/// The name of a phase, as it appears in the planner's messages.
pub open spec fn phase_name_spec(phase: PlannerRoundPhase) -> Seq<char> {
    match phase {
        PlannerRoundPhase::Begin => "begin"@,
        PlannerRoundPhase::GroundIntent => "ground_intent"@,
        PlannerRoundPhase::ProposeTodos => "propose_todos"@,
        PlannerRoundPhase::ProposeSegment => "propose_segment"@,
        PlannerRoundPhase::ReviseSegment => "revise_segment"@,
    }
}

pub fn phase_name(phase: PlannerRoundPhase) -> (r: &'static str)
    ensures
        r@ == phase_name_spec(phase),
{
    match phase {
        PlannerRoundPhase::Begin => "begin",
        PlannerRoundPhase::GroundIntent => "ground_intent",
        PlannerRoundPhase::ProposeTodos => "propose_todos",
        PlannerRoundPhase::ProposeSegment => "propose_segment",
        PlannerRoundPhase::ReviseSegment => "revise_segment",
    }
}
/// The base rules of every round.
pub open spec fn default_base_rules() -> Seq<Seq<char>> {
    seq![
        "Tool-calling only."@,
        "Emit schema-typed JSON only: when schema expects boolean/number, send JSON bool/number (never quoted strings)."@,
        "Before every tool call/finalize, self-check: phase-allowed tool, required keys present, and JSON value types exactly match schema."@,
        "Check state_summary.tool_memory_projection first and reuse cached discovery/schema context; avoid repeating identical discovery calls in one snapshot scope."@,
        "For schema/topic and control-step contracts, use guide.get with canonical request shape; schema lookups are digest-first and should request {\"full\":true} only when digest is insufficient."@,
        "guide.get examples: good {\"schema\":\"ais-plan-sketch/0.1.0\"}, {\"schema\":\"ais-plan-sketch/0.1.0\",\"full\":true}, {\"topic\":\"cel\"}; bad {\"schema\":{\"id\":\"ais-plan-sketch/0.1.0\"}}, {\"full\":\"true\"}."@,
        "Capability narrowing order: prefer catalog.search first (compact ref-first cards: ref/kind/chains?/risk_level?), then get_candidate_detail for selected refs; use list_candidates only as broad inventory when needed."@,
        "list_candidates policy template (filter-first): start with exact chain, add protocol when hinted, and broaden only when empty/insufficient in strict order: exact chain+protocol -> exact chain -> chain namespace wildcard."@,
        "assert/branch/until/retry are PlanSketch control-step semantics, not catalog candidates."@,
        "candidate_ref is required for query/action steps and optional for assert/branch control steps."@,
        "Plan against state_summary.todo_state.current_todo only and produce exactly one deterministic segment for that todo."@,
        "depends_on may only reference step ids in the current segment; never use cross-segment refs like seg_1/...."@,
        "For inputs.* refs, use InputStore-only bindable refs: source_of_truth=state_summary.input_store, projection=state_summary.input_registry.known_refs; never invent candidate/protocol/action refs outside discovered context."@,
        "For unknown_input_ref repair, preserve slot semantics: token/address params map to address-like refs (for example *.address), and *.decimals refs cannot substitute token/address slots."@,
        "If previous_error.autofill.mode=host_binding_adjudicate_round: first prefer host-provided ambiguous_bindings[]/query_candidate_pool/available_input_refs; you may call readonly discovery tools (list_candidates/catalog.search/get_candidate_detail/guide.get) to find query refs; output binding/query decisions before asking user input."@,
        "If previous_error.autofill.mode=host_missing_input_round: prioritize resolver.selected_query_refs/query_candidate_pool for recovery; attempt query_decisions/binding_decisions before emitting missing_required_input questions."@,
        "Never ask user input until both input-ref binding and query-based recovery are exhausted for current missing refs."@,
        "When resolver or host recovery has viable query/binding candidates, continue recovery and do not emit missing_required_input yet."@,
        "Emit missing_required_input only after recovery exhaustion, and include error.details.recovery_exhaustion with unresolved_refs[] + reasons[] + attempt_trace_id."@,
        "For missing_required_input, unresolved_refs/questions must use canonical source refs (inputs.* / node outputs) and must never expose params.* paths to users."@,
        "For transfer/swap writes, enforce same-segment gate chain query -> assert|branch -> action and refresh volatile write facts by query when needed."@,
        "For errors, return status=invalid|unavailable with error.reason_code; for missing_required_input use canonical shape: error.details.questions[] + error.details.recovery_exhaustion{unresolved_refs[],reasons[],attempt_trace_id} (all non-empty). Repair order is strict: shape -> ref -> slot -> semantic."@,
    ]
}

/// The rules of the begin phase.
pub open spec fn default_begin_rules() -> Seq<Seq<char>> {
    seq![
        "Current phase: begin."@,
        "Allowed tools: plan.begin only."@,
        "Call plan.begin exactly once."@,
    ]
}

/// The rules of the grounding phase.
pub open spec fn default_grounding_rules() -> Seq<Seq<char>> {
    seq![
        "Current phase: ground_intent."@,
        "Allowed tools: list_candidates, catalog.search, catalog.resolve_missing_facts, get_candidate_detail, guide.get, and one final plan.ground_intent (must be last)."@,
        "list_candidates usage follows the base-rules filter-first policy template; do not invent alternate broaden order."@,
        "Goal: derive deterministic initial inputs/facts before todo planning; prioritize high-confidence owner/recipient/amount/token/chain fields and avoid guessing."@,
        "When grounding-required facts for known refs are missing, call catalog.resolve_missing_facts with missing_refs before asking user input."@,
        "If status=proposed and ready_for_todos=false, include actionable questions or missing_refs (non-empty)."@,
        "If required grounding fields remain missing, return unavailable with reason_code=missing_required_input and canonical error.details.questions[] + error.details.recovery_exhaustion."@,
        "Call plan.ground_intent exactly once and only as the last tool call."@,
        "Do not call plan.begin, plan.propose_todos, plan.propose_segment, or plan.revise_segment."@,
    ]
}

/// The rules of the todo phase.
pub open spec fn default_todos_rules() -> Seq<Seq<char>> {
    seq![
        "Current phase: propose_todos."@,
        "Allowed tools: list_candidates, catalog.search, catalog.resolve_missing_facts, get_candidate_detail, guide.get, and one final plan.propose_todos (must be last)."@,
        "list_candidates usage follows the base-rules filter-first policy template; do not invent alternate broaden order."@,
        "Output deterministic todos for the whole intent before segment planning."@,
        "Each todo must include title; optional fields: required_facts/produced_facts/acceptance."@,
        "Prefer 2-4 concise todos; avoid duplicates or overlapping objectives."@,
        "When todo-required facts for known refs are missing, call catalog.resolve_missing_facts with missing_refs before asking user input."@,
        "Call plan.propose_todos exactly once and only as the last tool call."@,
        "Do not call plan.begin, plan.propose_segment, or plan.revise_segment."@,
    ]
}

/// The rules of the segment proposal phase.
pub open spec fn default_propose_rules() -> Seq<Seq<char>> {
    seq![
        "Current phase: propose_segment."@,
        "Allowed tools: list_candidates, catalog.search, catalog.resolve_missing_facts, get_candidate_detail, guide.get, plan.check_segment, and one final plan.propose_segment (must be last)."@,
        "list_candidates usage follows the base-rules filter-first policy template; do not invent alternate broaden order."@,
        "Host enforces 1 todo = 1 segment; plan only for current state_summary.todo_state.current_todo."@,
        "Segment shape must stay flat: do not output legacy branch-tree fields (if_true/if_false/then/else/children); encode branch paths via flat steps + when.cel + depends_on."@,
        "You must call plan.check_segment and only finalize when check result has ok=true."@,
        "If token decimals or write-required facts are unknown, call catalog.resolve_missing_facts with missing refs, then add corresponding query steps before write when possible; do not patch token/address slots with *.decimals refs."@,
        "If required facts are missing and resolver/host recovery still has query or binding candidates, continue recovery and do not emit missing_required_input yet."@,
        "If required facts are still missing after recovery is exhausted, return unavailable with reason_code=missing_required_input and include canonical error.details.questions[] + error.details.recovery_exhaustion."@,
        "Call plan.propose_segment exactly once and only as the last tool call."@,
        "Never call plan.begin or plan.revise_segment."@,
    ]
}

/// The rules of the segment revision phase.
pub open spec fn default_revise_rules() -> Seq<Seq<char>> {
    seq![
        "Current phase: revise_segment."@,
        "Allowed tools: list_candidates, catalog.search, catalog.resolve_missing_facts, get_candidate_detail, guide.get, plan.check_segment, and one final plan.revise_segment (must be last)."@,
        "list_candidates usage follows the base-rules filter-first policy template; do not invent alternate broaden order."@,
        "Keep repairing the same current todo from state_summary.todo_state.current_todo; do not switch to a different objective."@,
        "Apply minimum edits to fix output shape and keep semantics stable; patch previous_error.last_failed_finalize when available instead of regenerating from scratch."@,
        "Segment shape must stay flat: do not output legacy branch-tree fields (if_true/if_false/then/else/children); encode branch paths via flat steps + when.cel + depends_on."@,
        "You must call plan.check_segment and only finalize when check result has ok=true."@,
        "Repair order is strict: shape -> ref -> slot -> semantic; keep semantic edits minimal."@,
        "If decimals/facts are missing, call catalog.resolve_missing_facts and prefer adding matched query steps before returning missing_required_input; do not patch token/address slots with *.decimals refs."@,
        "If required facts are missing and resolver/host recovery still has query or binding candidates, continue recovery and do not emit missing_required_input yet."@,
        "If required facts are still missing after recovery is exhausted, return unavailable with reason_code=missing_required_input and include canonical error.details.questions[] + error.details.recovery_exhaustion."@,
        "Call plan.revise_segment exactly once and only as the last tool call."@,
        "Never call plan.begin or plan.propose_segment."@,
    ]
}

/// The summary of the plan contracts.
pub open spec fn default_contracts_summary() -> Seq<Seq<char>> {
    seq![
        "ValueRef forms: lit/ref/cel/object/array."@,
        "Asset shape: object.address + object.chain_ref (compiler normalizes to chain_id)."@,
        "Use CEL for deterministic conditions and value computation; expressions must be side-effect free."@,
        "Write-safety should be expressed via deterministic CEL conditions and explicit query/assert/branch guards."@,
    ]
}

/// Owned copies of the given lines, in order.
fn string_list(xs: Vec<&str>) -> (r: Vec<String>)
    ensures
        texts(r@) == xs@.map_values(|s: &str| s@),
{
    let mut out: Vec<String> = Vec::new();
    let mut i: usize = 0;
    while i < xs.len()
        invariant
            i <= xs@.len(),
            texts(out@) == xs@.subrange(0, i as int).map_values(|s: &str| s@),
        decreases xs.len() - i,
    {
        let ghost prev = texts(out@);
        out.push(to_owned_string(xs[i]));
        assert(texts(out@) =~= prev.push(xs@[i as int]@));
        assert(texts(out@) =~= xs@.subrange(0, i + 1).map_values(|s: &str| s@));
        i = i + 1;
    }
    assert(xs@.subrange(0, xs@.len() as int) =~= xs@);
    out
}

/// The rule lines of the planner prompt: the base rules, the rules of each
/// phase and the contracts summary.
pub struct SegmentedPromptContextBuilder {
    pub base_rules: Vec<String>,
    pub phase_rules_begin: Vec<String>,
    pub phase_rules_grounding: Vec<String>,
    pub phase_rules_todos: Vec<String>,
    pub phase_rules_propose: Vec<String>,
    pub phase_rules_revise: Vec<String>,
    pub contracts_summary: Vec<String>,
}

/// What an operator replaces in the prompt: rule lists, and patches of the
/// payloads of the phases.
pub struct SegmentedPromptOverrides {
    pub base_rules: Option<Vec<String>>,
    pub phase_rules_begin: Option<Vec<String>>,
    pub phase_rules_grounding: Option<Vec<String>>,
    pub phase_rules_todos: Option<Vec<String>>,
    pub phase_rules_propose: Option<Vec<String>>,
    pub phase_rules_revise: Option<Vec<String>>,
    pub contracts_summary: Option<Vec<String>>,
    pub begin_payload_patch: Option<JsonValue>,
    pub grounding_payload_patch: Option<JsonValue>,
    pub todos_payload_patch: Option<JsonValue>,
    pub segment_payload_patch: Option<JsonValue>,
}

impl Default for SegmentedPromptOverrides {
    fn default() -> (r: Self)
        ensures
            r.base_rules is None && r.phase_rules_begin is None && r.phase_rules_grounding is None,
            r.phase_rules_todos is None && r.phase_rules_propose is None && r.phase_rules_revise is None,
            r.contracts_summary is None,
            r.begin_payload_patch is None && r.grounding_payload_patch is None,
            r.todos_payload_patch is None && r.segment_payload_patch is None,
    {
        SegmentedPromptOverrides {
            base_rules: None,
            phase_rules_begin: None,
            phase_rules_grounding: None,
            phase_rules_todos: None,
            phase_rules_propose: None,
            phase_rules_revise: None,
            contracts_summary: None,
            begin_payload_patch: None,
            grounding_payload_patch: None,
            todos_payload_patch: None,
            segment_payload_patch: None,
        }
    }
}

impl Default for SegmentedPromptContextBuilder {
    fn default() -> (r: Self)
        ensures
            texts(r.base_rules@) == default_base_rules(),
            texts(r.phase_rules_begin@) == default_begin_rules(),
            texts(r.phase_rules_grounding@) == default_grounding_rules(),
            texts(r.phase_rules_todos@) == default_todos_rules(),
            texts(r.phase_rules_propose@) == default_propose_rules(),
            texts(r.phase_rules_revise@) == default_revise_rules(),
            texts(r.contracts_summary@) == default_contracts_summary(),
    {
        let l0: Vec<&str> = vec![
            "Tool-calling only.",
            "Emit schema-typed JSON only: when schema expects boolean/number, send JSON bool/number (never quoted strings).",
            "Before every tool call/finalize, self-check: phase-allowed tool, required keys present, and JSON value types exactly match schema.",
            "Check state_summary.tool_memory_projection first and reuse cached discovery/schema context; avoid repeating identical discovery calls in one snapshot scope.",
            "For schema/topic and control-step contracts, use guide.get with canonical request shape; schema lookups are digest-first and should request {\"full\":true} only when digest is insufficient.",
            "guide.get examples: good {\"schema\":\"ais-plan-sketch/0.1.0\"}, {\"schema\":\"ais-plan-sketch/0.1.0\",\"full\":true}, {\"topic\":\"cel\"}; bad {\"schema\":{\"id\":\"ais-plan-sketch/0.1.0\"}}, {\"full\":\"true\"}.",
            "Capability narrowing order: prefer catalog.search first (compact ref-first cards: ref/kind/chains?/risk_level?), then get_candidate_detail for selected refs; use list_candidates only as broad inventory when needed.",
            "list_candidates policy template (filter-first): start with exact chain, add protocol when hinted, and broaden only when empty/insufficient in strict order: exact chain+protocol -> exact chain -> chain namespace wildcard.",
            "assert/branch/until/retry are PlanSketch control-step semantics, not catalog candidates.",
            "candidate_ref is required for query/action steps and optional for assert/branch control steps.",
            "Plan against state_summary.todo_state.current_todo only and produce exactly one deterministic segment for that todo.",
            "depends_on may only reference step ids in the current segment; never use cross-segment refs like seg_1/....",
            "For inputs.* refs, use InputStore-only bindable refs: source_of_truth=state_summary.input_store, projection=state_summary.input_registry.known_refs; never invent candidate/protocol/action refs outside discovered context.",
            "For unknown_input_ref repair, preserve slot semantics: token/address params map to address-like refs (for example *.address), and *.decimals refs cannot substitute token/address slots.",
            "If previous_error.autofill.mode=host_binding_adjudicate_round: first prefer host-provided ambiguous_bindings[]/query_candidate_pool/available_input_refs; you may call readonly discovery tools (list_candidates/catalog.search/get_candidate_detail/guide.get) to find query refs; output binding/query decisions before asking user input.",
            "If previous_error.autofill.mode=host_missing_input_round: prioritize resolver.selected_query_refs/query_candidate_pool for recovery; attempt query_decisions/binding_decisions before emitting missing_required_input questions.",
            "Never ask user input until both input-ref binding and query-based recovery are exhausted for current missing refs.",
            "When resolver or host recovery has viable query/binding candidates, continue recovery and do not emit missing_required_input yet.",
            "Emit missing_required_input only after recovery exhaustion, and include error.details.recovery_exhaustion with unresolved_refs[] + reasons[] + attempt_trace_id.",
            "For missing_required_input, unresolved_refs/questions must use canonical source refs (inputs.* / node outputs) and must never expose params.* paths to users.",
            "For transfer/swap writes, enforce same-segment gate chain query -> assert|branch -> action and refresh volatile write facts by query when needed.",
            "For errors, return status=invalid|unavailable with error.reason_code; for missing_required_input use canonical shape: error.details.questions[] + error.details.recovery_exhaustion{unresolved_refs[],reasons[],attempt_trace_id} (all non-empty). Repair order is strict: shape -> ref -> slot -> semantic.",
        ];
        assert(l0@.map_values(|s: &str| s@) =~= default_base_rules());
        let l1: Vec<&str> = vec![
            "Current phase: begin.",
            "Allowed tools: plan.begin only.",
            "Call plan.begin exactly once.",
        ];
        assert(l1@.map_values(|s: &str| s@) =~= default_begin_rules());
        let l2: Vec<&str> = vec![
            "Current phase: ground_intent.",
            "Allowed tools: list_candidates, catalog.search, catalog.resolve_missing_facts, get_candidate_detail, guide.get, and one final plan.ground_intent (must be last).",
            "list_candidates usage follows the base-rules filter-first policy template; do not invent alternate broaden order.",
            "Goal: derive deterministic initial inputs/facts before todo planning; prioritize high-confidence owner/recipient/amount/token/chain fields and avoid guessing.",
            "When grounding-required facts for known refs are missing, call catalog.resolve_missing_facts with missing_refs before asking user input.",
            "If status=proposed and ready_for_todos=false, include actionable questions or missing_refs (non-empty).",
            "If required grounding fields remain missing, return unavailable with reason_code=missing_required_input and canonical error.details.questions[] + error.details.recovery_exhaustion.",
            "Call plan.ground_intent exactly once and only as the last tool call.",
            "Do not call plan.begin, plan.propose_todos, plan.propose_segment, or plan.revise_segment.",
        ];
        assert(l2@.map_values(|s: &str| s@) =~= default_grounding_rules());
        let l3: Vec<&str> = vec![
            "Current phase: propose_todos.",
            "Allowed tools: list_candidates, catalog.search, catalog.resolve_missing_facts, get_candidate_detail, guide.get, and one final plan.propose_todos (must be last).",
            "list_candidates usage follows the base-rules filter-first policy template; do not invent alternate broaden order.",
            "Output deterministic todos for the whole intent before segment planning.",
            "Each todo must include title; optional fields: required_facts/produced_facts/acceptance.",
            "Prefer 2-4 concise todos; avoid duplicates or overlapping objectives.",
            "When todo-required facts for known refs are missing, call catalog.resolve_missing_facts with missing_refs before asking user input.",
            "Call plan.propose_todos exactly once and only as the last tool call.",
            "Do not call plan.begin, plan.propose_segment, or plan.revise_segment.",
        ];
        assert(l3@.map_values(|s: &str| s@) =~= default_todos_rules());
        let l4: Vec<&str> = vec![
            "Current phase: propose_segment.",
            "Allowed tools: list_candidates, catalog.search, catalog.resolve_missing_facts, get_candidate_detail, guide.get, plan.check_segment, and one final plan.propose_segment (must be last).",
            "list_candidates usage follows the base-rules filter-first policy template; do not invent alternate broaden order.",
            "Host enforces 1 todo = 1 segment; plan only for current state_summary.todo_state.current_todo.",
            "Segment shape must stay flat: do not output legacy branch-tree fields (if_true/if_false/then/else/children); encode branch paths via flat steps + when.cel + depends_on.",
            "You must call plan.check_segment and only finalize when check result has ok=true.",
            "If token decimals or write-required facts are unknown, call catalog.resolve_missing_facts with missing refs, then add corresponding query steps before write when possible; do not patch token/address slots with *.decimals refs.",
            "If required facts are missing and resolver/host recovery still has query or binding candidates, continue recovery and do not emit missing_required_input yet.",
            "If required facts are still missing after recovery is exhausted, return unavailable with reason_code=missing_required_input and include canonical error.details.questions[] + error.details.recovery_exhaustion.",
            "Call plan.propose_segment exactly once and only as the last tool call.",
            "Never call plan.begin or plan.revise_segment.",
        ];
        assert(l4@.map_values(|s: &str| s@) =~= default_propose_rules());
        let l5: Vec<&str> = vec![
            "Current phase: revise_segment.",
            "Allowed tools: list_candidates, catalog.search, catalog.resolve_missing_facts, get_candidate_detail, guide.get, plan.check_segment, and one final plan.revise_segment (must be last).",
            "list_candidates usage follows the base-rules filter-first policy template; do not invent alternate broaden order.",
            "Keep repairing the same current todo from state_summary.todo_state.current_todo; do not switch to a different objective.",
            "Apply minimum edits to fix output shape and keep semantics stable; patch previous_error.last_failed_finalize when available instead of regenerating from scratch.",
            "Segment shape must stay flat: do not output legacy branch-tree fields (if_true/if_false/then/else/children); encode branch paths via flat steps + when.cel + depends_on.",
            "You must call plan.check_segment and only finalize when check result has ok=true.",
            "Repair order is strict: shape -> ref -> slot -> semantic; keep semantic edits minimal.",
            "If decimals/facts are missing, call catalog.resolve_missing_facts and prefer adding matched query steps before returning missing_required_input; do not patch token/address slots with *.decimals refs.",
            "If required facts are missing and resolver/host recovery still has query or binding candidates, continue recovery and do not emit missing_required_input yet.",
            "If required facts are still missing after recovery is exhausted, return unavailable with reason_code=missing_required_input and include canonical error.details.questions[] + error.details.recovery_exhaustion.",
            "Call plan.revise_segment exactly once and only as the last tool call.",
            "Never call plan.begin or plan.propose_segment.",
        ];
        assert(l5@.map_values(|s: &str| s@) =~= default_revise_rules());
        let l6: Vec<&str> = vec![
            "ValueRef forms: lit/ref/cel/object/array.",
            "Asset shape: object.address + object.chain_ref (compiler normalizes to chain_id).",
            "Use CEL for deterministic conditions and value computation; expressions must be side-effect free.",
            "Write-safety should be expressed via deterministic CEL conditions and explicit query/assert/branch guards.",
        ];
        assert(l6@.map_values(|s: &str| s@) =~= default_contracts_summary());
        SegmentedPromptContextBuilder {
            base_rules: string_list(l0),
            phase_rules_begin: string_list(l1),
            phase_rules_grounding: string_list(l2),
            phase_rules_todos: string_list(l3),
            phase_rules_propose: string_list(l4),
            phase_rules_revise: string_list(l5),
            contracts_summary: string_list(l6),
        }
    }
}

/// The rules after an override: its trimmed non-blank lines, unless it
/// is missing or keeps no line.
pub open spec fn rules_after(current: Seq<Seq<char>>, replacement: Option<Vec<String>>) -> Seq<Seq<char>> {
    match replacement {
        Some(ls) => if clean_lines(ls@).len() == 0 {
            current
        } else {
            clean_lines(ls@)
        },
        None => current,
    }
}

fn apply_rules(current: &mut Vec<String>, replacement: Option<Vec<String>>)
    ensures
        texts(final(current)@) == rules_after(texts(old(current)@), replacement),
{
    match non_empty_rules(replacement) {
        Some(rules) => {
            *current = rules;
        },
        None => {},
    }
}

impl SegmentedPromptContextBuilder {
    /// Replaces each rule list that the overrides give with at least one
    /// non-blank line.
    pub fn with_overrides(self, overrides: SegmentedPromptOverrides) -> (r: Self)
        ensures
            texts(r.base_rules@) == rules_after(texts(self.base_rules@), overrides.base_rules),
            texts(r.phase_rules_begin@) == rules_after(texts(self.phase_rules_begin@), overrides.phase_rules_begin),
            texts(r.phase_rules_grounding@) == rules_after(texts(self.phase_rules_grounding@), overrides.phase_rules_grounding),
            texts(r.phase_rules_todos@) == rules_after(texts(self.phase_rules_todos@), overrides.phase_rules_todos),
            texts(r.phase_rules_propose@) == rules_after(texts(self.phase_rules_propose@), overrides.phase_rules_propose),
            texts(r.phase_rules_revise@) == rules_after(texts(self.phase_rules_revise@), overrides.phase_rules_revise),
            texts(r.contracts_summary@) == rules_after(texts(self.contracts_summary@), overrides.contracts_summary),
    {
        let mut b = self;
        apply_rules(&mut b.base_rules, overrides.base_rules);
        apply_rules(&mut b.phase_rules_begin, overrides.phase_rules_begin);
        apply_rules(&mut b.phase_rules_grounding, overrides.phase_rules_grounding);
        apply_rules(&mut b.phase_rules_todos, overrides.phase_rules_todos);
        apply_rules(&mut b.phase_rules_propose, overrides.phase_rules_propose);
        apply_rules(&mut b.phase_rules_revise, overrides.phase_rules_revise);
        apply_rules(&mut b.contracts_summary, overrides.contracts_summary);
        b
    }

    /// The rules of the given phase.
    pub fn phase_rules(&self, phase: PlannerRoundPhase) -> (r: &Vec<String>)
        ensures
            r == match phase {
                PlannerRoundPhase::Begin => &self.phase_rules_begin,
                PlannerRoundPhase::GroundIntent => &self.phase_rules_grounding,
                PlannerRoundPhase::ProposeTodos => &self.phase_rules_todos,
                PlannerRoundPhase::ProposeSegment => &self.phase_rules_propose,
                PlannerRoundPhase::ReviseSegment => &self.phase_rules_revise,
            },
    {
        match phase {
            PlannerRoundPhase::Begin => &self.phase_rules_begin,
            PlannerRoundPhase::GroundIntent => &self.phase_rules_grounding,
            PlannerRoundPhase::ProposeTodos => &self.phase_rules_todos,
            PlannerRoundPhase::ProposeSegment => &self.phase_rules_propose,
            PlannerRoundPhase::ReviseSegment => &self.phase_rules_revise,
        }
    }
}

} // verus!
