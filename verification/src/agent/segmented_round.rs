//! The decisions of one tool round of the segmented planner: how many
//! rounds a run gets, what follows each answer of the model, and how the
//! conversation grows.  The caller makes the model call and runs the tools;
//! this module says what to do next.
use vstd::prelude::*;
use crate::json::{
    JsonNumber, JsonValue, JsonView, NumberView, json_text, lemma_obj_get_insert, obj_get, obj_insert, pointer_spec, str_items,
};
use crate::llm::{
    CompleteWithToolsRequest, LlmMessage, LlmMessageView, LlmProviderError, MessageRole, ToolSpec, ToolSpecView,
    error_text_spec, opt_text,
};
use crate::llm::openai::{json_parse, parse_json_text};
use crate::agent::segmented_prompt::{PlannerRoundPhase, phase_name, phase_name_spec};
use crate::text::{concat, str_eq, to_owned_string};

verus! {

pub const NO_TOOLCALL_RETRY_ATTEMPT_LIMIT: u8 = 2;
pub const FINALIZE_SCHEMA_REPAIR_ATTEMPT_LIMIT: u8 = 2;
pub const ADJUDICATE_MAX_TOOL_ROUNDS: u8 = 3;

/// The rounds a run may take: at most three when the host asks for a
/// binding adjudication, else the configured limit.
pub open spec fn effective_rounds_spec(max_tool_rounds: u8, adjudicate: bool) -> u8 {
    if adjudicate && max_tool_rounds > ADJUDICATE_MAX_TOOL_ROUNDS {
        ADJUDICATE_MAX_TOOL_ROUNDS
    } else {
        max_tool_rounds
    }
}

/// Whether the user prompt is JSON whose `previous_error.autofill.mode` is
/// `host_binding_adjudicate_round`.
pub open spec fn adjudicate_mode_spec(user_prompt: Seq<char>) -> bool {
    match json_parse(user_prompt) {
        Some(v) => pointer_spec(v, "/previous_error/autofill/mode"@) == Some(
            JsonView::Str("host_binding_adjudicate_round"@),
        ),
        None => false,
    }
}

pub fn adjudicate_mode(user_prompt: &str) -> (r: bool)
    ensures
        r == adjudicate_mode_spec(user_prompt@),
{
    match parse_json_text(user_prompt) {
        Some(v) => match v.pointer("/previous_error/autofill/mode") {
            Some(m) => match m.as_str() {
                Some(s) => str_eq(s, "host_binding_adjudicate_round"),
                None => false,
            },
            None => false,
        },
        None => false,
    }
}

/// Where a planner run stands between model calls.
pub struct SegmentedRoundState {
    pub messages: Vec<LlmMessage>,
    pub phase: PlannerRoundPhase,
    pub finalize_tool: String,
    pub tool_names: Vec<String>,
    pub round: u8,
    pub max_rounds: u8,
    pub adjudicate: bool,
    pub no_toolcall_retries: u8,
    pub finalize_repairs: u8,
}

pub struct RoundStateView {
    pub messages: Seq<LlmMessageView>,
    pub phase: PlannerRoundPhase,
    pub finalize_tool: Seq<char>,
    pub tool_names: Seq<Seq<char>>,
    pub round: u8,
    pub max_rounds: u8,
    pub adjudicate: bool,
    pub no_toolcall_retries: u8,
    pub finalize_repairs: u8,
}

pub open spec fn messages_view(ms: Seq<LlmMessage>) -> Seq<LlmMessageView> {
    ms.map_values(|m: LlmMessage| m@)
}

impl View for SegmentedRoundState {
    type V = RoundStateView;

    open spec fn view(&self) -> RoundStateView {
        RoundStateView {
            messages: messages_view(self.messages@),
            phase: self.phase,
            finalize_tool: self.finalize_tool@,
            tool_names: self.tool_names@.map_values(|t: String| t@),
            round: self.round,
            max_rounds: self.max_rounds,
            adjudicate: self.adjudicate,
            no_toolcall_retries: self.no_toolcall_retries,
            finalize_repairs: self.finalize_repairs,
        }
    }
}

/// What came of the last model call, as the caller saw it.
pub enum RoundEvent {
    /// The provider failed.
    ProviderFailed(LlmProviderError),
    /// The model answered without tool calls, with this text.
    NoToolCalls { content: Option<String> },
    /// The model called tools and the caller ran them; `loop_hint` is a
    /// guard message to add, if a loop guard fired.
    ToolRound { assistant: LlmMessage, tool_results: Vec<LlmMessage>, loop_hint: Option<String> },
    /// The finalize call did not match its schema; `repair` is the tool
    /// message that asks for a repair and `error` what fails the run when no
    /// repair is left.
    FinalizeRejected {
        assistant: LlmMessage,
        tool_results: Vec<LlmMessage>,
        repair: LlmMessage,
        error: String,
    },
    /// The finalize call was accepted with this output.
    Finalized(JsonValue),
}

pub enum RoundEventView {
    ProviderFailed(LlmProviderError),
    NoToolCalls { content: Option<Seq<char>> },
    ToolRound { assistant: LlmMessageView, tool_results: Seq<LlmMessageView>, loop_hint: Option<Seq<char>> },
    FinalizeRejected {
        assistant: LlmMessageView,
        tool_results: Seq<LlmMessageView>,
        repair: LlmMessageView,
        error: Seq<char>,
    },
    Finalized(JsonView),
}

impl View for RoundEvent {
    type V = RoundEventView;

    open spec fn view(&self) -> RoundEventView {
        match self {
            RoundEvent::ProviderFailed(e) => RoundEventView::ProviderFailed(*e),
            RoundEvent::NoToolCalls { content } => RoundEventView::NoToolCalls { content: opt_text(*content) },
            RoundEvent::ToolRound { assistant, tool_results, loop_hint } => RoundEventView::ToolRound {
                assistant: assistant@,
                tool_results: messages_view(tool_results@),
                loop_hint: opt_text(*loop_hint),
            },
            RoundEvent::FinalizeRejected { assistant, tool_results, repair, error } =>
                RoundEventView::FinalizeRejected {
                assistant: assistant@,
                tool_results: messages_view(tool_results@),
                repair: repair@,
                error: error@,
            },
            RoundEvent::Finalized(v) => RoundEventView::Finalized(v@),
        }
    }
}

/// What the caller does next.
pub enum RoundAction {
    /// Call the model again with the state's messages.
    CallProvider,
    /// The run ends with this finalize output.
    Finish(JsonValue),
    /// The run fails with this model error text.
    Fail(String),
}

pub enum RoundActionView {
    CallProvider,
    Finish(JsonView),
    Fail(Seq<char>),
}

impl View for RoundAction {
    type V = RoundActionView;

    open spec fn view(&self) -> RoundActionView {
        match self {
            RoundAction::CallProvider => RoundActionView::CallProvider,
            RoundAction::Finish(v) => RoundActionView::Finish(v@),
            RoundAction::Fail(t) => RoundActionView::Fail(t@),
        }
    }
}

pub open spec fn plain_message(role: MessageRole, content: Option<Seq<char>>) -> LlmMessageView {
    LlmMessageView { role, content, tool_name: None, tool_call_id: None, tool_calls: Seq::empty() }
}

/// The run's first state: the system and user messages, no round taken.
pub open spec fn start_spec(
    system_prompt: Seq<char>,
    user_prompt: Seq<char>,
    phase: PlannerRoundPhase,
    finalize_tool: Seq<char>,
    tools: Seq<ToolSpecView>,
    max_tool_rounds: u8,
) -> RoundStateView {
    let adjudicate = adjudicate_mode_spec(user_prompt);
    RoundStateView {
        messages: seq![
            plain_message(MessageRole::System, Some(system_prompt)),
            plain_message(MessageRole::User, Some(user_prompt)),
        ],
        phase,
        finalize_tool,
        tool_names: tools.map_values(|t: ToolSpecView| t.name),
        round: 0,
        max_rounds: effective_rounds_spec(max_tool_rounds, adjudicate),
        adjudicate,
        no_toolcall_retries: 0,
        finalize_repairs: 0,
    }
}

/// The guard shown when an adjudication run is out of rounds.
pub open spec fn adjudicate_guard_view(finalize_tool: Seq<char>, rounds: u8) -> JsonView {
    let rules = seq![
        "Do not issue more discovery tools in this round."@,
        "Return best-effort binding_decisions/query_decisions from available evidence."@,
        "If still unresolved, finalize with status=unavailable reason_code=missing_required_input and include error.details.questions[] + error.details.recovery_exhaustion{unresolved_refs[],reasons[],attempt_trace_id}."@,
    ];
    let g0 = obj_insert(Seq::empty(), "kind"@, JsonView::Str("adjudicate_budget_guard"@));
    let g1 = obj_insert(g0, "reason"@, JsonView::Str("adjudicate_round_limit_reached"@));
    let g2 = obj_insert(g1, "round"@, JsonView::Number(NumberView::PosInt(rounds as u64)));
    let g3 = obj_insert(g2, "max_rounds"@, JsonView::Number(NumberView::PosInt(ADJUDICATE_MAX_TOOL_ROUNDS as u64)));
    let g4 = obj_insert(g3, "required_action"@, JsonView::Str("Finalize now."@));
    let g5 = obj_insert(
        g4,
        "contract"@,
        JsonView::Str("Call `"@ + finalize_tool + "` exactly once as the last tool call in this response."@),
    );
    let g6 = obj_insert(g5, "rules"@, JsonView::Array(str_items(rules)));
    JsonView::Object(obj_insert(Seq::empty(), "loop_guard"@, JsonView::Object(g6)))
}

/// Why a run that used up its rounds fails.
pub open spec fn round_limit_text(s: RoundStateView) -> Seq<char> {
    if s.adjudicate {
        "segmented planner adjudicate rounds exhausted: finalize_required payload="@ + json_text(
            adjudicate_guard_view(s.finalize_tool, s.max_rounds),
        )
    } else {
        "segmented planner tool round limit reached"@
    }
}

/// After a round that did not end the run: one more round is counted, and
/// the run fails once the rounds are used up.
pub open spec fn after_round(s: RoundStateView) -> (RoundStateView, RoundActionView) {
    let s2 = RoundStateView { round: (s.round + 1) as u8, ..s };
    if s2.round >= s2.max_rounds {
        (s2, RoundActionView::Fail(round_limit_text(s2)))
    } else {
        (s2, RoundActionView::CallProvider)
    }
}

/// The message that asks the model again after an answer without tool
/// calls: why it is asked, where the run stands and which tools it may call.
pub open spec fn no_toolcall_payload_view(
    phase: PlannerRoundPhase,
    finalize_tool: Seq<char>,
    round: u8,
    retry_attempt: u8,
    max_retries: u8,
    tool_names: Seq<Seq<char>>,
) -> JsonView {
    let rules = seq![
        "Return at least one tool call in this response."@,
        "Use only allowed tools for this phase."@,
        "If finishing this phase, call finalize_tool exactly once and as the last tool call."@,
    ];
    let e0 = obj_insert(Seq::empty(), "reason_code"@, JsonView::Str("no_tool_calls"@));
    let e1 = obj_insert(
        e0,
        "message"@,
        JsonView::Str("No tool calls were returned. You must return at least one allowed tool call."@),
    );
    let e2 = obj_insert(e1, "phase"@, JsonView::Str(phase_name_spec(phase)));
    let e3 = obj_insert(e2, "finalize_tool"@, JsonView::Str(finalize_tool));
    let e4 = obj_insert(e3, "round"@, JsonView::Number(NumberView::PosInt(round as u64)));
    let e5 = obj_insert(e4, "retry_attempt"@, JsonView::Number(NumberView::PosInt(retry_attempt as u64)));
    let e6 = obj_insert(e5, "max_retries"@, JsonView::Number(NumberView::PosInt(max_retries as u64)));
    let e7 = obj_insert(e6, "allowed_tools"@, JsonView::Array(str_items(tool_names)));
    let o0 = obj_insert(Seq::empty(), "error"@, JsonView::Object(e7));
    JsonView::Object(obj_insert(o0, "rules"@, JsonView::Array(str_items(rules))))
}

pub open spec fn saturating_inc(x: u8) -> u8 {
    if x < 255 {
        (x + 1) as u8
    } else {
        255
    }
}

/// The repair message of the run's state, as text: the next round and the
/// next retry are counted.
pub open spec fn no_toolcall_payload_text(s: RoundStateView) -> Seq<char> {
    json_text(
        no_toolcall_payload_view(
            s.phase,
            s.finalize_tool,
            saturating_inc(s.round),
            saturating_inc(s.no_toolcall_retries),
            NO_TOOLCALL_RETRY_ATTEMPT_LIMIT,
            s.tool_names,
        ),
    )
}

pub open spec fn no_tool_calls_text(payload: Seq<char>) -> Seq<char> {
    "segmented planner provider returned no tool calls: no_tool_calls_retries_exhausted payload="@ + payload
}

/// The decision after one model call.  A provider error fails the run with
/// its text.  An answer without tool calls is asked again (the answer and
/// the repair request join the conversation) at most twice, then fails the
/// run.  A round of tool calls adds the answer, the tool results and any
/// loop hint.  A rejected finalize call is repaired at most twice, then its
/// error fails the run.  An accepted finalize call ends the run.
pub open spec fn round_step_spec(s: RoundStateView, e: RoundEventView) -> (RoundStateView, RoundActionView) {
    match e {
        RoundEventView::ProviderFailed(err) => (s, RoundActionView::Fail(error_text_spec(err))),
        RoundEventView::NoToolCalls { content } => if s.no_toolcall_retries
            < NO_TOOLCALL_RETRY_ATTEMPT_LIMIT {
            after_round(
                RoundStateView {
                    messages: s.messages.push(plain_message(MessageRole::Assistant, content)).push(
                        plain_message(MessageRole::User, Some(no_toolcall_payload_text(s))),
                    ),
                    no_toolcall_retries: (s.no_toolcall_retries + 1) as u8,
                    ..s
                },
            )
        } else {
            (s, RoundActionView::Fail(no_tool_calls_text(no_toolcall_payload_text(s))))
        },
        RoundEventView::ToolRound { assistant, tool_results, loop_hint } => {
            let grown = s.messages.push(assistant) + tool_results;
            after_round(
                RoundStateView {
                    messages: match loop_hint {
                        Some(h) => grown.push(plain_message(MessageRole::User, Some(h))),
                        None => grown,
                    },
                    ..s
                },
            )
        },
        RoundEventView::FinalizeRejected { assistant, tool_results, repair, error } => if s.finalize_repairs
            < FINALIZE_SCHEMA_REPAIR_ATTEMPT_LIMIT {
            after_round(
                RoundStateView {
                    messages: (s.messages.push(assistant) + tool_results).push(repair),
                    finalize_repairs: (s.finalize_repairs + 1) as u8,
                    ..s
                },
            )
        } else {
            (s, RoundActionView::Fail(error))
        },
        RoundEventView::Finalized(v) => (s, RoundActionView::Finish(v)),
    }
}

fn plain(role: MessageRole, content: Option<String>) -> (r: LlmMessage)
    ensures
        r@ == plain_message(role, opt_text(content)),
{
    let r = LlmMessage { role, content, tool_name: None, tool_call_id: None, tool_calls: Vec::new() };
    assert(crate::llm::calls_view(r.tool_calls@) =~= Seq::empty());
    r
}

/// The names of the tools, in order.
fn tool_names_of(tools: &Vec<ToolSpec>) -> (r: Vec<String>)
    ensures
        r@.map_values(|t: String| t@) == tools@.map_values(|t: ToolSpec| t@).map_values(|v: ToolSpecView| v.name),
{
    let ghost target = tools@.map_values(|t: ToolSpec| t@).map_values(|v: ToolSpecView| v.name);
    let mut out: Vec<String> = Vec::new();
    let mut i: usize = 0;
    while i < tools.len()
        invariant
            i <= tools@.len(),
            target.len() == tools@.len(),
            target == tools@.map_values(|t: ToolSpec| t@).map_values(|v: ToolSpecView| v.name),
            out@.map_values(|t: String| t@) == target.subrange(0, i as int),
        decreases tools.len() - i,
    {
        let ghost prev = out@.map_values(|t: String| t@);
        out.push(to_owned_string(tools[i].name.as_str()));
        assert(target[i as int] == tools@[i as int].name@);
        assert(out@.map_values(|t: String| t@) =~= prev.push(tools@[i as int].name@));
        assert(out@.map_values(|t: String| t@) =~= target.subrange(0, i + 1));
        i = i + 1;
    }
    assert(target.subrange(0, tools@.len() as int) =~= target);
    out
}

fn payload_from_names(
    phase: PlannerRoundPhase,
    finalize_tool: &str,
    round: u8,
    retry_attempt: u8,
    max_retries: u8,
    tool_names: &Vec<String>,
) -> (r: JsonValue)
    ensures
        r@ == no_toolcall_payload_view(
            phase,
            finalize_tool@,
            round,
            retry_attempt,
            max_retries,
            tool_names@.map_values(|t: String| t@),
        ),
{
    let rules: Vec<String> = vec![
        to_owned_string("Return at least one tool call in this response."),
        to_owned_string("Use only allowed tools for this phase."),
        to_owned_string("If finishing this phase, call finalize_tool exactly once and as the last tool call."),
    ];
    assert(rules@.map_values(|s: String| s@) =~= seq![
        "Return at least one tool call in this response."@,
        "Use only allowed tools for this phase."@,
        "If finishing this phase, call finalize_tool exactly once and as the last tool call."@,
    ]);
    let mut e = JsonValue::empty_object();
    e.insert(to_owned_string("reason_code"), JsonValue::String(to_owned_string("no_tool_calls")));
    e.insert(
        to_owned_string("message"),
        JsonValue::String(to_owned_string("No tool calls were returned. You must return at least one allowed tool call.")),
    );
    e.insert(to_owned_string("phase"), JsonValue::String(to_owned_string(phase_name(phase))));
    e.insert(to_owned_string("finalize_tool"), JsonValue::String(to_owned_string(finalize_tool)));
    e.insert(to_owned_string("round"), JsonValue::Number(JsonNumber::PosInt(round as u64)));
    e.insert(to_owned_string("retry_attempt"), JsonValue::Number(JsonNumber::PosInt(retry_attempt as u64)));
    e.insert(to_owned_string("max_retries"), JsonValue::Number(JsonNumber::PosInt(max_retries as u64)));
    e.insert(to_owned_string("allowed_tools"), crate::json::string_array(tool_names));
    let mut o = JsonValue::empty_object();
    o.insert(to_owned_string("error"), e);
    o.insert(to_owned_string("rules"), crate::json::string_array(&rules));
    o
}

/// The message that asks the model again after an answer without tool
/// calls, for the phase's tools.
pub fn no_toolcall_repair_payload(
    phase: PlannerRoundPhase,
    finalize_tool: &str,
    round: u8,
    retry_attempt: u8,
    max_retries: u8,
    tools: &Vec<ToolSpec>,
) -> (r: JsonValue)
    ensures
        r@ == no_toolcall_payload_view(
            phase,
            finalize_tool@,
            round,
            retry_attempt,
            max_retries,
            tools@.map_values(|t: ToolSpec| t@).map_values(|v: ToolSpecView| v.name),
        ),
{
    let names = tool_names_of(tools);
    payload_from_names(phase, finalize_tool, round, retry_attempt, max_retries, &names)
}

impl SegmentedRoundState {
    /// A run's first state.
    pub fn start(
        system_prompt: String,
        user_prompt: String,
        phase: PlannerRoundPhase,
        finalize_tool: String,
        tools: &Vec<ToolSpec>,
        max_tool_rounds: u8,
    ) -> (r: SegmentedRoundState)
        ensures
            r@ == start_spec(
                system_prompt@,
                user_prompt@,
                phase,
                finalize_tool@,
                tools@.map_values(|t: ToolSpec| t@),
                max_tool_rounds,
            ),
    {
        let adjudicate = adjudicate_mode(user_prompt.as_str());
        let max_rounds = if adjudicate && max_tool_rounds > ADJUDICATE_MAX_TOOL_ROUNDS {
            ADJUDICATE_MAX_TOOL_ROUNDS
        } else {
            max_tool_rounds
        };
        let ghost sp = system_prompt@;
        let ghost up = user_prompt@;
        let messages = vec![plain(MessageRole::System, Some(system_prompt)), plain(MessageRole::User, Some(user_prompt))];
        let tool_names = tool_names_of(tools);
        let r = SegmentedRoundState {
            messages,
            phase,
            finalize_tool,
            tool_names,
            round: 0,
            max_rounds,
            adjudicate,
            no_toolcall_retries: 0,
            finalize_repairs: 0,
        };
        assert(r@.messages =~= seq![
            plain_message(MessageRole::System, Some(sp)),
            plain_message(MessageRole::User, Some(up)),
        ]);
        r
    }

    /// What the caller does first: a run whose rounds are already used up
    /// fails as one that ran out of rounds, any other calls the model.
    pub fn first_action(&self) -> (r: RoundAction)
        ensures
            r@ == (if round_state_wf(self@) {
                RoundActionView::CallProvider
            } else {
                RoundActionView::Fail(round_limit_text(self@))
            }),
    {
        if self.round < self.max_rounds {
            RoundAction::CallProvider
        } else {
            RoundAction::Fail(limit_text(self))
        }
    }

    /// The request of the next model call: the conversation so far and the
    /// phase's tools.
    pub fn request(&self, tools: &Vec<ToolSpec>) -> (r: CompleteWithToolsRequest)
        ensures
            r@.0 == self@.messages,
            r@.1 == tools@.map_values(|t: ToolSpec| t@),
    {
        let mut messages: Vec<LlmMessage> = Vec::new();
        let mut i: usize = 0;
        while i < self.messages.len()
            invariant
                i <= self.messages@.len(),
                messages_view(messages@) == messages_view(self.messages@).subrange(0, i as int),
            decreases self.messages.len() - i,
        {
            let ghost before = messages_view(messages@);
            messages.push(self.messages[i].clone_message());
            assert(messages_view(messages@) =~= before.push(self.messages@[i as int]@));
            assert(messages_view(messages@) =~= messages_view(self.messages@).subrange(0, i + 1));
            i = i + 1;
        }
        let mut ts: Vec<ToolSpec> = Vec::new();
        let mut j: usize = 0;
        while j < tools.len()
            invariant
                j <= tools@.len(),
                ts@.map_values(|t: ToolSpec| t@) == tools@.map_values(|t: ToolSpec| t@).subrange(0, j as int),
            decreases tools.len() - j,
        {
            let ghost before = ts@.map_values(|t: ToolSpec| t@);
            ts.push(tools[j].clone_spec());
            assert(ts@.map_values(|t: ToolSpec| t@) =~= before.push(tools@[j as int]@));
            assert(ts@.map_values(|t: ToolSpec| t@) =~= tools@.map_values(|t: ToolSpec| t@).subrange(0, j + 1));
            j = j + 1;
        }
        assert(messages_view(self.messages@).subrange(0, self.messages@.len() as int) =~= messages_view(self.messages@));
        assert(tools@.map_values(|t: ToolSpec| t@).subrange(0, tools@.len() as int) =~= tools@.map_values(|t: ToolSpec| t@));
        let r = CompleteWithToolsRequest { messages, tools: ts };
        assert(r@.0 =~= messages_view(messages@));
        assert(r@.1 =~= ts@.map_values(|t: ToolSpec| t@));
        r
    }
}

fn clone_state(s: &SegmentedRoundState) -> (r: SegmentedRoundState)
    ensures
        r@ == s@,
{
    let mut messages: Vec<LlmMessage> = Vec::new();
    let mut i: usize = 0;
    while i < s.messages.len()
        invariant
            i <= s.messages@.len(),
            messages_view(messages@) == messages_view(s.messages@).subrange(0, i as int),
        decreases s.messages.len() - i,
    {
        let ghost before = messages_view(messages@);
        messages.push(s.messages[i].clone_message());
        assert(messages_view(messages@) =~= before.push(s.messages@[i as int]@));
        assert(messages_view(messages@) =~= messages_view(s.messages@).subrange(0, i + 1));
        i = i + 1;
    }
    assert(messages_view(s.messages@).subrange(0, s.messages@.len() as int) =~= messages_view(s.messages@));
    SegmentedRoundState {
        messages,
        phase: s.phase,
        finalize_tool: to_owned_string(s.finalize_tool.as_str()),
        tool_names: crate::agent::capabilities::copy_strings(&s.tool_names),
        round: s.round,
        max_rounds: s.max_rounds,
        adjudicate: s.adjudicate,
        no_toolcall_retries: s.no_toolcall_retries,
        finalize_repairs: s.finalize_repairs,
    }
}

fn adjudicate_guard(finalize_tool: &str, rounds: u8) -> (r: JsonValue)
    ensures
        r@ == adjudicate_guard_view(finalize_tool@, rounds),
{
    let rules: Vec<String> = vec![
        to_owned_string("Do not issue more discovery tools in this round."),
        to_owned_string("Return best-effort binding_decisions/query_decisions from available evidence."),
        to_owned_string("If still unresolved, finalize with status=unavailable reason_code=missing_required_input and include error.details.questions[] + error.details.recovery_exhaustion{unresolved_refs[],reasons[],attempt_trace_id}."),
    ];
    assert(rules@.map_values(|s: String| s@) =~= seq![
        "Do not issue more discovery tools in this round."@,
        "Return best-effort binding_decisions/query_decisions from available evidence."@,
        "If still unresolved, finalize with status=unavailable reason_code=missing_required_input and include error.details.questions[] + error.details.recovery_exhaustion{unresolved_refs[],reasons[],attempt_trace_id}."@,
    ]);
    let mut g = JsonValue::empty_object();
    g.insert(to_owned_string("kind"), JsonValue::String(to_owned_string("adjudicate_budget_guard")));
    g.insert(to_owned_string("reason"), JsonValue::String(to_owned_string("adjudicate_round_limit_reached")));
    g.insert(to_owned_string("round"), JsonValue::Number(JsonNumber::PosInt(rounds as u64)));
    g.insert(to_owned_string("max_rounds"), JsonValue::Number(JsonNumber::PosInt(ADJUDICATE_MAX_TOOL_ROUNDS as u64)));
    g.insert(to_owned_string("required_action"), JsonValue::String(to_owned_string("Finalize now.")));
    let c1 = concat("Call `", finalize_tool);
    let contract = concat(c1.as_str(), "` exactly once as the last tool call in this response.");
    g.insert(to_owned_string("contract"), JsonValue::String(contract));
    g.insert(to_owned_string("rules"), crate::json::string_array(&rules));
    let mut o = JsonValue::empty_object();
    o.insert(to_owned_string("loop_guard"), g);
    o
}

fn limit_text(s: &SegmentedRoundState) -> (r: String)
    ensures
        r@ == round_limit_text(s@),
{
    if s.adjudicate {
        let g = adjudicate_guard(s.finalize_tool.as_str(), s.max_rounds);
        let payload = g.to_text();
        concat("segmented planner adjudicate rounds exhausted: finalize_required payload=", payload.as_str())
    } else {
        to_owned_string("segmented planner tool round limit reached")
    }
}

fn finish_round(s: SegmentedRoundState) -> (r: (SegmentedRoundState, RoundAction))
    requires
        s.round < 255,
    ensures
        (r.0@, r.1@) == after_round(s@),
{
    let mut s2 = s;
    s2.round = s2.round + 1;
    if s2.round >= s2.max_rounds {
        let text = limit_text(&s2);
        (s2, RoundAction::Fail(text))
    } else {
        (s2, RoundAction::CallProvider)
    }
}

/// The well-formed states: fewer rounds taken than allowed.
pub open spec fn round_state_wf(s: RoundStateView) -> bool {
    s.round < s.max_rounds
}

/// Decides what follows one model call of a run.
pub fn segmented_round_step(state: &SegmentedRoundState, event: RoundEvent) -> (r: (SegmentedRoundState, RoundAction))
    requires
        round_state_wf(state@),
    ensures
        (r.0@, r.1@) == round_step_spec(state@, event@),
{
    let mut s = clone_state(state);
    match event {
        RoundEvent::ProviderFailed(err) => {
            let text = err.message();
            (s, RoundAction::Fail(text))
        },
        RoundEvent::NoToolCalls { content } => {
            let next_round = if s.round < 255 { s.round + 1 } else { 255 };
            let next_retry = if s.no_toolcall_retries < 255 { s.no_toolcall_retries + 1 } else { 255 };
            let payload = payload_from_names(
                s.phase,
                s.finalize_tool.as_str(),
                next_round,
                next_retry,
                NO_TOOLCALL_RETRY_ATTEMPT_LIMIT,
                &s.tool_names,
            );
            let repair_payload = payload.to_text();
            assert(repair_payload@ == no_toolcall_payload_text(s@));
            if s.no_toolcall_retries < NO_TOOLCALL_RETRY_ATTEMPT_LIMIT {
                let ghost m0 = messages_view(s.messages@);
                let ghost c = opt_text(content);
                let ghost p = repair_payload@;
                s.messages.push(plain(MessageRole::Assistant, content));
                s.messages.push(plain(MessageRole::User, Some(repair_payload)));
                s.no_toolcall_retries = s.no_toolcall_retries + 1;
                assert(messages_view(s.messages@) =~= m0.push(plain_message(MessageRole::Assistant, c)).push(
                    plain_message(MessageRole::User, Some(p)),
                ));
                finish_round(s)
            } else {
                let text = concat(
                    "segmented planner provider returned no tool calls: no_tool_calls_retries_exhausted payload=",
                    repair_payload.as_str(),
                );
                (s, RoundAction::Fail(text))
            }
        },
        RoundEvent::ToolRound { assistant, tool_results, loop_hint } => {
            let ghost m0 = messages_view(s.messages@);
            let ghost a = assistant@;
            let ghost tr = messages_view(tool_results@);
            let ghost h = opt_text(loop_hint);
            s.messages.push(assistant);
            let mut results = tool_results;
            let mut k: usize = 0;
            let ghost m1 = messages_view(s.messages@);
            assert(m1 =~= m0.push(a));
            let n = results.len();
            while results.len() > 0
                invariant
                    k + results@.len() == n,
                    n == tr.len(),
                    messages_view(results@) == tr.subrange(k as int, n as int),
                    messages_view(s.messages@) == m1 + tr.subrange(0, k as int),
                    s.round == state.round && s.max_rounds == state.max_rounds && s.adjudicate == state.adjudicate,
                    s.finalize_tool@ == state.finalize_tool@ && s.no_toolcall_retries == state.no_toolcall_retries,
                    s.phase == state.phase,
                    s.tool_names@.map_values(|t: String| t@) == state.tool_names@.map_values(|t: String| t@),
                    s.finalize_repairs == state.finalize_repairs,
                decreases results.len(),
            {
                assert(messages_view(results@)[0] == results@[0]@);
                let ghost rs = results@;
                let ghost before = messages_view(s.messages@);
                let m = results.remove(0);
                assert(m@ == tr[k as int]);
                s.messages.push(m);
                assert(messages_view(s.messages@) =~= before.push(tr[k as int]));
                assert(messages_view(s.messages@) =~= m1 + tr.subrange(0, k + 1));
                assert(results@ =~= rs.drop_first());
                assert(messages_view(results@) =~= messages_view(rs).drop_first());
                assert(messages_view(results@) =~= tr.subrange(k + 1, n as int));
                k = k + 1;
            }
            assert(tr.subrange(0, n as int) =~= tr);
            match loop_hint {
                Some(hint) => {
                    let ghost hv = hint@;
                    let ghost before = messages_view(s.messages@);
                    s.messages.push(plain(MessageRole::User, Some(hint)));
                    assert(messages_view(s.messages@) =~= before.push(plain_message(MessageRole::User, Some(hv))));
                },
                None => {},
            }
            finish_round(s)
        },
        RoundEvent::FinalizeRejected { assistant, tool_results, repair, error } => {
            if s.finalize_repairs < FINALIZE_SCHEMA_REPAIR_ATTEMPT_LIMIT {
                let ghost m0 = messages_view(s.messages@);
                let ghost a = assistant@;
                let ghost tr = messages_view(tool_results@);
                let ghost rp = repair@;
                s.messages.push(assistant);
                let ghost m1 = messages_view(s.messages@);
                assert(m1 =~= m0.push(a));
                let mut results = tool_results;
                let mut k: usize = 0;
                let n = results.len();
                while results.len() > 0
                    invariant
                        k + results@.len() == n,
                        n == tr.len(),
                        messages_view(results@) == tr.subrange(k as int, n as int),
                        messages_view(s.messages@) == m1 + tr.subrange(0, k as int),
                        s.round == state.round && s.max_rounds == state.max_rounds && s.adjudicate == state.adjudicate,
                        s.finalize_tool@ == state.finalize_tool@ && s.no_toolcall_retries == state.no_toolcall_retries,
                    s.phase == state.phase,
                    s.tool_names@.map_values(|t: String| t@) == state.tool_names@.map_values(|t: String| t@),
                        s.finalize_repairs == state.finalize_repairs,
                        s.finalize_repairs < FINALIZE_SCHEMA_REPAIR_ATTEMPT_LIMIT,
                    decreases results.len(),
                {
                    assert(messages_view(results@)[0] == results@[0]@);
                    let ghost rs = results@;
                    let ghost before = messages_view(s.messages@);
                    let m = results.remove(0);
                    assert(m@ == tr[k as int]);
                    s.messages.push(m);
                    assert(messages_view(s.messages@) =~= before.push(tr[k as int]));
                    assert(messages_view(s.messages@) =~= m1 + tr.subrange(0, k + 1));
                    assert(results@ =~= rs.drop_first());
                    assert(messages_view(results@) =~= messages_view(rs).drop_first());
                    assert(messages_view(results@) =~= tr.subrange(k + 1, n as int));
                    k = k + 1;
                }
                assert(tr.subrange(0, n as int) =~= tr);
                let ghost before = messages_view(s.messages@);
                s.messages.push(repair);
                assert(messages_view(s.messages@) =~= before.push(rp));
                s.finalize_repairs = s.finalize_repairs + 1;
                finish_round(s)
            } else {
                (s, RoundAction::Fail(error))
            }
        },
        RoundEvent::Finalized(v) => (s, RoundAction::Finish(v)),
    }
}

/// The repair message says why it is sent and which retry and round it
/// belongs to: under `error`, `reason_code` is `no_tool_calls`, and
/// `retry_attempt` and `round` are the numbers given.
pub proof fn lemma_no_toolcall_payload_fields(
    phase: PlannerRoundPhase,
    finalize_tool: Seq<char>,
    round: u8,
    retry_attempt: u8,
    max_retries: u8,
    tool_names: Seq<Seq<char>>,
)
    ensures
        no_toolcall_payload_view(phase, finalize_tool, round, retry_attempt, max_retries, tool_names) matches JsonView::Object(
            es,
        ) && obj_get(es, "error"@) matches Some(JsonView::Object(e)) && obj_get(e, "reason_code"@) == Some(
            JsonView::Str("no_tool_calls"@),
        ) && obj_get(e, "retry_attempt"@) == Some(JsonView::Number(NumberView::PosInt(retry_attempt as u64)))
            && obj_get(e, "round"@) == Some(JsonView::Number(NumberView::PosInt(round as u64))),
{
    reveal_strlit("error");
    reveal_strlit("rules");
    reveal_strlit("reason_code");
    reveal_strlit("message");
    reveal_strlit("phase");
    reveal_strlit("finalize_tool");
    reveal_strlit("round");
    reveal_strlit("retry_attempt");
    reveal_strlit("max_retries");
    reveal_strlit("allowed_tools");
    let e0 = obj_insert(Seq::empty(), "reason_code"@, JsonView::Str("no_tool_calls"@));
    let e1 = obj_insert(
        e0,
        "message"@,
        JsonView::Str("No tool calls were returned. You must return at least one allowed tool call."@),
    );
    let e2 = obj_insert(e1, "phase"@, JsonView::Str(phase_name_spec(phase)));
    let e3 = obj_insert(e2, "finalize_tool"@, JsonView::Str(finalize_tool));
    let e4 = obj_insert(e3, "round"@, JsonView::Number(NumberView::PosInt(round as u64)));
    let e5 = obj_insert(e4, "retry_attempt"@, JsonView::Number(NumberView::PosInt(retry_attempt as u64)));
    let e6 = obj_insert(e5, "max_retries"@, JsonView::Number(NumberView::PosInt(max_retries as u64)));
    let e7 = obj_insert(e6, "allowed_tools"@, JsonView::Array(str_items(tool_names)));
    let o0 = obj_insert(Seq::empty(), "error"@, JsonView::Object(e7));
    let rules = seq![
        "Return at least one tool call in this response."@,
        "Use only allowed tools for this phase."@,
        "If finishing this phase, call finalize_tool exactly once and as the last tool call."@,
    ];
    lemma_obj_get_insert(Seq::empty(), "error"@, JsonView::Object(e7), "error"@);
    lemma_obj_get_insert(o0, "rules"@, JsonView::Array(str_items(rules)), "error"@);
    let rc = "reason_code"@;
    lemma_obj_get_insert(e6, "allowed_tools"@, JsonView::Array(str_items(tool_names)), rc);
    lemma_obj_get_insert(e5, "max_retries"@, JsonView::Number(NumberView::PosInt(max_retries as u64)), rc);
    lemma_obj_get_insert(e4, "retry_attempt"@, JsonView::Number(NumberView::PosInt(retry_attempt as u64)), rc);
    lemma_obj_get_insert(e3, "round"@, JsonView::Number(NumberView::PosInt(round as u64)), rc);
    lemma_obj_get_insert(e2, "finalize_tool"@, JsonView::Str(finalize_tool), rc);
    lemma_obj_get_insert(e1, "phase"@, JsonView::Str(phase_name_spec(phase)), rc);
    lemma_obj_get_insert(
        e0,
        "message"@,
        JsonView::Str("No tool calls were returned. You must return at least one allowed tool call."@),
        rc,
    );
    lemma_obj_get_insert(Seq::empty(), rc, JsonView::Str("no_tool_calls"@), rc);
    assert(obj_get(e7, rc) == Some(JsonView::Str("no_tool_calls"@)));
    let ra = "retry_attempt"@;
    lemma_obj_get_insert(e6, "allowed_tools"@, JsonView::Array(str_items(tool_names)), ra);
    lemma_obj_get_insert(e5, "max_retries"@, JsonView::Number(NumberView::PosInt(max_retries as u64)), ra);
    lemma_obj_get_insert(e4, ra, JsonView::Number(NumberView::PosInt(retry_attempt as u64)), ra);
    assert(obj_get(e7, ra) == Some(JsonView::Number(NumberView::PosInt(retry_attempt as u64))));
    let rd = "round"@;
    lemma_obj_get_insert(e6, "allowed_tools"@, JsonView::Array(str_items(tool_names)), rd);
    lemma_obj_get_insert(e5, "max_retries"@, JsonView::Number(NumberView::PosInt(max_retries as u64)), rd);
    lemma_obj_get_insert(e4, "retry_attempt"@, JsonView::Number(NumberView::PosInt(retry_attempt as u64)), rd);
    lemma_obj_get_insert(e3, rd, JsonView::Number(NumberView::PosInt(round as u64)), rd);
    assert(obj_get(e7, rd) == Some(JsonView::Number(NumberView::PosInt(round as u64))));
}

/// Each step keeps the conversation's earlier messages: the messages only
/// grow, and the first two stay the system and user prompts.
pub proof fn lemma_round_step_keeps_messages(s: RoundStateView, e: RoundEventView)
    ensures
        round_step_spec(s, e).0.messages.len() >= s.messages.len(),
        round_step_spec(s, e).0.messages.subrange(0, s.messages.len() as int) == s.messages,
{
    let m = round_step_spec(s, e).0.messages;
    assert(m.subrange(0, s.messages.len() as int) =~= s.messages);
}

/// A run never takes more model calls than its rounds allow: a step that
/// asks for another call leaves fewer rounds taken than allowed.
pub proof fn lemma_round_step_within_limit(s: RoundStateView, e: RoundEventView)
    requires
        round_state_wf(s),
    ensures
        round_step_spec(s, e).1 == RoundActionView::CallProvider ==> round_state_wf(round_step_spec(s, e).0)
            && round_step_spec(s, e).0.round == s.round + 1,
{
}

} // verus!
