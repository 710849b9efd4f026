//! Classifying what went wrong in a planning round: planner output errors,
//! execution pauses and compile errors, each with its reason codes.
use vstd::prelude::*;
use crate::json::{JsonNumber, JsonValue, JsonView, NumberView, items_view, lemma_array_view, obj_insert, view_as_str};
use crate::agent::budget::{compact_json_for_llm, compact_view, JsonBudgetOptions};
use crate::agent::candidates::{field, field_str};
use crate::text::{concat, contains, starts_with, str_contains, str_eq, str_starts_with, to_owned_string};

verus! {

/// Why the planner's output was refused.
#[derive(Clone, Copy, PartialEq, Eq, Structural)]
pub enum PlannerSubReasonCode {
    InvalidToolArgs,
    SegmentNotJson,
    NoToolCalls,
    MissingCandidateRef,
    SegmentShapeInvalid,
    MissingSegment,
    MissingError,
    InvalidStatus,
    Unknown,
}

impl PlannerSubReasonCode {
    pub open spec fn name_spec(self) -> Seq<char> {
        match self {
            PlannerSubReasonCode::InvalidToolArgs => "invalid_tool_args"@,
            PlannerSubReasonCode::SegmentNotJson => "segment_not_json"@,
            PlannerSubReasonCode::NoToolCalls => "no_tool_calls"@,
            PlannerSubReasonCode::MissingCandidateRef => "missing_candidate_ref"@,
            PlannerSubReasonCode::SegmentShapeInvalid => "segment_shape_invalid"@,
            PlannerSubReasonCode::MissingSegment => "missing_segment"@,
            PlannerSubReasonCode::MissingError => "missing_error"@,
            PlannerSubReasonCode::InvalidStatus => "invalid_status"@,
            PlannerSubReasonCode::Unknown => "unknown"@,
        }
    }

    /// The code's name in payloads.
    pub fn as_str(self) -> (r: &'static str)
        ensures
            r@ == self.name_spec(),
    {
        match self {
            PlannerSubReasonCode::InvalidToolArgs => "invalid_tool_args",
            PlannerSubReasonCode::SegmentNotJson => "segment_not_json",
            PlannerSubReasonCode::NoToolCalls => "no_tool_calls",
            PlannerSubReasonCode::MissingCandidateRef => "missing_candidate_ref",
            PlannerSubReasonCode::SegmentShapeInvalid => "segment_shape_invalid",
            PlannerSubReasonCode::MissingSegment => "missing_segment",
            PlannerSubReasonCode::MissingError => "missing_error",
            PlannerSubReasonCode::InvalidStatus => "invalid_status",
            PlannerSubReasonCode::Unknown => "unknown",
        }
    }
}

/// Why execution paused.
#[derive(Clone, Copy, PartialEq, Eq, Structural)]
pub enum ExecutionSubReasonCode {
    MissingPausedReason,
    ExecutorError,
    AssertFailed,
    ConditionFailed,
    NonRetryablePause,
}

impl ExecutionSubReasonCode {
    pub open spec fn name_spec(self) -> Seq<char> {
        match self {
            ExecutionSubReasonCode::MissingPausedReason => "missing_paused_reason"@,
            ExecutionSubReasonCode::ExecutorError => "executor_error"@,
            ExecutionSubReasonCode::AssertFailed => "assert_failed"@,
            ExecutionSubReasonCode::ConditionFailed => "condition_failed"@,
            ExecutionSubReasonCode::NonRetryablePause => "non_retryable_pause"@,
        }
    }

    pub fn as_str(self) -> (r: &'static str)
        ensures
            r@ == self.name_spec(),
    {
        match self {
            ExecutionSubReasonCode::MissingPausedReason => "missing_paused_reason",
            ExecutionSubReasonCode::ExecutorError => "executor_error",
            ExecutionSubReasonCode::AssertFailed => "assert_failed",
            ExecutionSubReasonCode::ConditionFailed => "condition_failed",
            ExecutionSubReasonCode::NonRetryablePause => "non_retryable_pause",
        }
    }
}

/// What kind of compile error a segment hit.
#[derive(Clone, Copy, PartialEq, Eq, Structural)]
pub enum CompileSubReasonCode {
    UnknownInputRef,
    CandidateNotFound,
    MissingRequiredInput,
    ShapeOrContract,
    CompileError,
}

impl CompileSubReasonCode {
    pub open spec fn name_spec(self) -> Seq<char> {
        match self {
            CompileSubReasonCode::UnknownInputRef => "unknown_input_ref"@,
            CompileSubReasonCode::CandidateNotFound => "candidate_not_found"@,
            CompileSubReasonCode::MissingRequiredInput => "missing_required_input"@,
            CompileSubReasonCode::ShapeOrContract => "shape_or_contract"@,
            CompileSubReasonCode::CompileError => "compile_error"@,
        }
    }

    pub fn as_str(self) -> (r: &'static str)
        ensures
            r@ == self.name_spec(),
    {
        match self {
            CompileSubReasonCode::UnknownInputRef => "unknown_input_ref",
            CompileSubReasonCode::CandidateNotFound => "candidate_not_found",
            CompileSubReasonCode::MissingRequiredInput => "missing_required_input",
            CompileSubReasonCode::ShapeOrContract => "shape_or_contract",
            CompileSubReasonCode::CompileError => "compile_error",
        }
    }
}

/// The reason codes this crate knows by name.
#[derive(Clone, Copy, PartialEq, Eq, Structural)]
pub enum KnownReasonCode {
    CompileError,
    MissingRequiredInput,
}

/// A reason code: a known one, or any other text kept as it came.
pub enum ReasonCode {
    Known(KnownReasonCode),
    Raw(String),
}

pub enum ReasonView {
    Known(KnownReasonCode),
    Raw(Seq<char>),
}

impl ReasonCode {
    pub open spec fn view_of(self) -> ReasonView {
        match self {
            ReasonCode::Known(k) => ReasonView::Known(k),
            ReasonCode::Raw(s) => ReasonView::Raw(s@),
        }
    }

    /// The code named by `raw`: a known code for its snake-case name, else
    /// `raw` itself.
    pub open spec fn from_raw_spec(raw: Seq<char>) -> ReasonView {
        if raw == "compile_error"@ {
            ReasonView::Known(KnownReasonCode::CompileError)
        } else if raw == "missing_required_input"@ {
            ReasonView::Known(KnownReasonCode::MissingRequiredInput)
        } else {
            ReasonView::Raw(raw)
        }
    }

    /// The code's text: a known code's snake-case name, or the raw text.
    pub open spec fn code_spec(v: ReasonView) -> Seq<char> {
        match v {
            ReasonView::Known(KnownReasonCode::CompileError) => "compile_error"@,
            ReasonView::Known(KnownReasonCode::MissingRequiredInput) => "missing_required_input"@,
            ReasonView::Raw(s) => s,
        }
    }

    pub fn from_raw(raw: &str) -> (r: ReasonCode)
        ensures
            r.view_of() == Self::from_raw_spec(raw@),
    {
        if str_eq(raw, "compile_error") {
            ReasonCode::Known(KnownReasonCode::CompileError)
        } else if str_eq(raw, "missing_required_input") {
            ReasonCode::Known(KnownReasonCode::MissingRequiredInput)
        } else {
            ReasonCode::Raw(to_owned_string(raw))
        }
    }

    pub fn compile_default() -> (r: ReasonCode)
        ensures
            r.view_of() == ReasonView::Known(KnownReasonCode::CompileError),
    {
        ReasonCode::Known(KnownReasonCode::CompileError)
    }

    pub fn is_missing_required_input(&self) -> (b: bool)
        ensures
            b == (self.view_of() == ReasonView::Known(KnownReasonCode::MissingRequiredInput)),
    {
        match self {
            ReasonCode::Known(KnownReasonCode::MissingRequiredInput) => true,
            _ => false,
        }
    }

    /// The code's text in payloads.
    pub fn code(&self) -> (r: String)
        ensures
            r@ == Self::code_spec(self.view_of()),
    {
        match self {
            ReasonCode::Known(KnownReasonCode::CompileError) => to_owned_string("compile_error"),
            ReasonCode::Known(KnownReasonCode::MissingRequiredInput) => to_owned_string("missing_required_input"),
            ReasonCode::Raw(s) => to_owned_string(s.as_str()),
        }
    }
}

// ---------------------------------------------------------------------------
// Execution pauses
// ---------------------------------------------------------------------------

/// How a pause is classified, and whether a repair is worth trying.
#[derive(Clone, Copy, PartialEq, Eq, Structural)]
pub struct ExecutionPauseClassification {
    pub sub_reason_code: ExecutionSubReasonCode,
    pub retryable: bool,
}

/// A pause is retryable when its reason starts with `executor_error:`,
/// `assert_failed:` or `condition_failed:` (first match wins); a missing
/// reason and any other one are not.
pub open spec fn pause_spec(paused_reason: Option<Seq<char>>) -> ExecutionPauseClassification {
    match paused_reason {
        None => ExecutionPauseClassification {
            sub_reason_code: ExecutionSubReasonCode::MissingPausedReason,
            retryable: false,
        },
        Some(r) => if starts_with(r, "executor_error:"@) {
            ExecutionPauseClassification { sub_reason_code: ExecutionSubReasonCode::ExecutorError, retryable: true }
        } else if starts_with(r, "assert_failed:"@) {
            ExecutionPauseClassification { sub_reason_code: ExecutionSubReasonCode::AssertFailed, retryable: true }
        } else if starts_with(r, "condition_failed:"@) {
            ExecutionPauseClassification {
                sub_reason_code: ExecutionSubReasonCode::ConditionFailed,
                retryable: true,
            }
        } else {
            ExecutionPauseClassification {
                sub_reason_code: ExecutionSubReasonCode::NonRetryablePause,
                retryable: false,
            }
        },
    }
}

pub open spec fn opt_str_view(o: Option<&str>) -> Option<Seq<char>> {
    match o {
        Some(s) => Some(s@),
        None => None,
    }
}

pub fn classify_execution_pause(paused_reason: Option<&str>) -> (r: ExecutionPauseClassification)
    ensures
        r == pause_spec(opt_str_view(paused_reason)),
{
    let reason = match paused_reason {
        Some(r) => r,
        None => {
            return ExecutionPauseClassification {
                sub_reason_code: ExecutionSubReasonCode::MissingPausedReason,
                retryable: false,
            };
        },
    };
    if str_starts_with(reason, "executor_error:") {
        ExecutionPauseClassification { sub_reason_code: ExecutionSubReasonCode::ExecutorError, retryable: true }
    } else if str_starts_with(reason, "assert_failed:") {
        ExecutionPauseClassification { sub_reason_code: ExecutionSubReasonCode::AssertFailed, retryable: true }
    } else if str_starts_with(reason, "condition_failed:") {
        ExecutionPauseClassification { sub_reason_code: ExecutionSubReasonCode::ConditionFailed, retryable: true }
    } else {
        ExecutionPauseClassification { sub_reason_code: ExecutionSubReasonCode::NonRetryablePause, retryable: false }
    }
}

/// A repair of the intent is worth trying after a retryable pause.
pub fn should_attempt_intent_repair(paused_reason: Option<&str>) -> (b: bool)
    ensures
        b == pause_spec(opt_str_view(paused_reason)).retryable,
{
    classify_execution_pause(paused_reason).retryable
}

// ---------------------------------------------------------------------------
// Planner output errors
// ---------------------------------------------------------------------------

/// A known fault in the planner's output: the text that shows it and the
/// code it is reported under.
#[derive(Clone, Copy, PartialEq, Eq)]
pub struct PlannerOutputPattern {
    pub needle: &'static str,
    pub sub_reason_code: PlannerSubReasonCode,
}

/// The known faults, in the order in which they are looked for.
pub open spec fn planner_patterns() -> Seq<(Seq<char>, PlannerSubReasonCode)> {
    seq![
        ("invalid plan.propose_segment args"@, PlannerSubReasonCode::InvalidToolArgs),
        ("invalid plan.revise_segment args"@, PlannerSubReasonCode::InvalidToolArgs),
        ("proposed segment draft `segment` must be a JSON object (stringified JSON is not allowed)"@, PlannerSubReasonCode::SegmentNotJson),
        ("proposed segment draft `segment` string must be valid JSON object text"@, PlannerSubReasonCode::SegmentNotJson),
        ("proposed segment draft `segment` must decode to a JSON object"@, PlannerSubReasonCode::SegmentNotJson),
        ("segmented planner provider returned no tool calls"@, PlannerSubReasonCode::NoToolCalls),
        ("steps missing required `candidate_ref`"@, PlannerSubReasonCode::MissingCandidateRef),
        ("proposed segment draft `segment` must be a valid PlanSketchSegment"@, PlannerSubReasonCode::SegmentShapeInvalid),
        ("proposed segment draft requires `segment`"@, PlannerSubReasonCode::MissingSegment),
        ("unavailable segment draft requires `error`"@, PlannerSubReasonCode::MissingError),
        ("invalid segment draft requires `error`"@, PlannerSubReasonCode::MissingError),
        ("invalid segment draft status"@, PlannerSubReasonCode::InvalidStatus),
    ]
}

/// The first known fault, from index `i` on, whose text the message holds.
pub open spec fn first_pattern_from(message: Seq<char>, i: int) -> Option<(Seq<char>, PlannerSubReasonCode)>
    decreases 12 - i,
{
    if i < 0 || i >= 12 {
        None
    } else if contains(message, planner_patterns()[i].0) {
        Some(planner_patterns()[i])
    } else {
        first_pattern_from(message, i + 1)
    }
}

fn planner_pattern(i: usize) -> (p: PlannerOutputPattern)
    requires
        i < 12,
    ensures
        (p.needle@, p.sub_reason_code) == planner_patterns()[i as int],
{
    let (needle, code): (&'static str, PlannerSubReasonCode) = if i == 0 {
        ("invalid plan.propose_segment args", PlannerSubReasonCode::InvalidToolArgs)
    } else if i == 1 {
        ("invalid plan.revise_segment args", PlannerSubReasonCode::InvalidToolArgs)
    } else if i == 2 {
        ("proposed segment draft `segment` must be a JSON object (stringified JSON is not allowed)", PlannerSubReasonCode::SegmentNotJson)
    } else if i == 3 {
        ("proposed segment draft `segment` string must be valid JSON object text", PlannerSubReasonCode::SegmentNotJson)
    } else if i == 4 {
        ("proposed segment draft `segment` must decode to a JSON object", PlannerSubReasonCode::SegmentNotJson)
    } else if i == 5 {
        ("segmented planner provider returned no tool calls", PlannerSubReasonCode::NoToolCalls)
    } else if i == 6 {
        ("steps missing required `candidate_ref`", PlannerSubReasonCode::MissingCandidateRef)
    } else if i == 7 {
        ("proposed segment draft `segment` must be a valid PlanSketchSegment", PlannerSubReasonCode::SegmentShapeInvalid)
    } else if i == 8 {
        ("proposed segment draft requires `segment`", PlannerSubReasonCode::MissingSegment)
    } else if i == 9 {
        ("unavailable segment draft requires `error`", PlannerSubReasonCode::MissingError)
    } else if i == 10 {
        ("invalid segment draft requires `error`", PlannerSubReasonCode::MissingError)
    } else {
        ("invalid segment draft status", PlannerSubReasonCode::InvalidStatus)
    };
    PlannerOutputPattern { needle, sub_reason_code: code }
}

/// The known fault that an LLM error message shows, if any. Only errors of
/// the LLM kind carry such a message; others pass `None`.
pub fn classify_planner_output_error(llm_message: Option<&str>) -> (r: Option<PlannerOutputPattern>)
    ensures
        match llm_message {
            None => r is None,
            Some(m) => match first_pattern_from(m@, 0) {
                Some(p) => r is Some && (r->0.needle@, r->0.sub_reason_code) == p,
                None => r is None,
            },
        },
{
    let message = match llm_message {
        Some(m) => m,
        None => return None,
    };
    let mut i: usize = 0;
    while i < 12
        invariant
            i <= 12,
            llm_message == Some(message),
            first_pattern_from(message@, 0) == first_pattern_from(message@, i as int),
        decreases 12 - i,
    {
        let p = planner_pattern(i);
        if str_contains(message, p.needle) {
            assert(first_pattern_from(message@, i as int) == Some(planner_patterns()[i as int]));
            return Some(p);
        }
        i = i + 1;
    }
    None
}

/// A planner output error is retried when it shows a known fault.
pub fn should_retry_segmented_planner_output(llm_message: Option<&str>) -> (b: bool)
    ensures
        b == match llm_message {
            None => false,
            Some(m) => first_pattern_from(m@, 0) is Some,
        },
{
    classify_planner_output_error(llm_message).is_some()
}

// ---------------------------------------------------------------------------
// Compile errors
// ---------------------------------------------------------------------------

/// The `reference` texts of the issues that have one, in order.
pub open spec fn issue_references(items: Seq<JsonView>) -> Seq<Seq<char>>
    decreases items.len(),
{
    if items.len() == 0 {
        Seq::empty()
    } else {
        let rest = issue_references(items.drop_last());
        match field_str(items.last(), "reference"@) {
            Some(r) => rest.push(r),
            None => rest,
        }
    }
}

pub open spec fn any_equal(rs: Seq<Seq<char>>, t: Seq<char>) -> bool {
    exists|i: int| 0 <= i < rs.len() && #[trigger] rs[i] == t
}

pub open spec fn any_contains(rs: Seq<Seq<char>>, t: Seq<char>) -> bool {
    exists|i: int| 0 <= i < rs.len() && contains(#[trigger] rs[i], t)
}

/// The compile sub-reason: an issue referencing `unknown_input_ref`, then
/// one mentioning `candidate_not_found`, then `missing_required_input` (or
/// that reason code), then a shape or contract problem; else a plain
/// compile error.
pub open spec fn compile_sub_reason_spec(reason: ReasonView, issues: JsonView) -> CompileSubReasonCode {
    let rs = match issues {
        JsonView::Array(items) => issue_references(items),
        _ => Seq::empty(),
    };
    if any_equal(rs, "unknown_input_ref"@) {
        CompileSubReasonCode::UnknownInputRef
    } else if any_contains(rs, "candidate_not_found"@) {
        CompileSubReasonCode::CandidateNotFound
    } else if any_contains(rs, "missing_required_input"@) || reason == ReasonView::Known(
        KnownReasonCode::MissingRequiredInput,
    ) {
        CompileSubReasonCode::MissingRequiredInput
    } else if any_contains(rs, "input_type_mismatch"@) || any_contains(rs, "constraint_violation"@)
        || any_contains(rs, "write_gate_missing"@) {
        CompileSubReasonCode::ShapeOrContract
    } else {
        CompileSubReasonCode::CompileError
    }
}

fn references_of(issues: &JsonValue) -> (r: Vec<String>)
    ensures
        r@.map_values(|s: String| s@) == match issues@ {
            JsonView::Array(items) => issue_references(items),
            _ => Seq::empty(),
        },
{
    let mut out: Vec<String> = Vec::new();
    match issues {
        JsonValue::Array(items) => {
            proof {
                lemma_array_view(*items);
            }
            let ghost iv = items_view(items@);
            let mut i: usize = 0;
            while i < items.len()
                invariant
                    i <= items@.len(),
                    iv == items_view(items@),
                    out@.map_values(|s: String| s@) == issue_references(iv.subrange(0, i as int)),
                decreases items.len() - i,
            {
                let ghost pre = iv.subrange(0, i + 1);
                assert(pre.drop_last() =~= iv.subrange(0, i as int));
                assert(pre.last() == items@[i as int]@);
                match items[i].get("reference") {
                    Some(x) => match x.as_str() {
                        Some(t) => {
                            let ghost before = out@.map_values(|s: String| s@);
                            out.push(to_owned_string(t));
                            assert(out@.map_values(|s: String| s@) =~= before.push(t@));
                        },
                        None => {},
                    },
                    None => {},
                }
                i = i + 1;
            }
            assert(iv.subrange(0, iv.len() as int) =~= iv);
        },
        _ => {
            assert(out@.map_values(|s: String| s@) =~= Seq::<Seq<char>>::empty());
        },
    }
    out
}

fn any_reference_contains(rs: &Vec<String>, t: &str) -> (b: bool)
    ensures
        b == any_contains(rs@.map_values(|s: String| s@), t@),
{
    let ghost v = rs@.map_values(|s: String| s@);
    let mut i: usize = 0;
    while i < rs.len()
        invariant
            i <= rs@.len(),
            v == rs@.map_values(|s: String| s@),
            forall|k: int| 0 <= k < i ==> !contains(#[trigger] v[k], t@),
        decreases rs.len() - i,
    {
        assert(v[i as int] == rs@[i as int]@);
        if str_contains(rs[i].as_str(), t) {
            return true;
        }
        i = i + 1;
    }
    false
}

fn any_reference_equals(rs: &Vec<String>, t: &str) -> (b: bool)
    ensures
        b == any_equal(rs@.map_values(|s: String| s@), t@),
{
    let ghost v = rs@.map_values(|s: String| s@);
    let mut i: usize = 0;
    while i < rs.len()
        invariant
            i <= rs@.len(),
            v == rs@.map_values(|s: String| s@),
            forall|k: int| 0 <= k < i ==> #[trigger] v[k] != t@,
        decreases rs.len() - i,
    {
        assert(v[i as int] == rs@[i as int]@);
        if str_eq(rs[i].as_str(), t) {
            return true;
        }
        i = i + 1;
    }
    false
}

pub fn classify_compile_sub_reason_code(reason_code: &ReasonCode, issues: &JsonValue) -> (r: CompileSubReasonCode)
    ensures
        r == compile_sub_reason_spec(reason_code.view_of(), issues@),
{
    let rs = references_of(issues);
    if any_reference_equals(&rs, "unknown_input_ref") {
        return CompileSubReasonCode::UnknownInputRef;
    }
    if any_reference_contains(&rs, "candidate_not_found") {
        return CompileSubReasonCode::CandidateNotFound;
    }
    if any_reference_contains(&rs, "missing_required_input") || reason_code.is_missing_required_input() {
        return CompileSubReasonCode::MissingRequiredInput;
    }
    if any_reference_contains(&rs, "input_type_mismatch") || any_reference_contains(&rs, "constraint_violation")
        || any_reference_contains(&rs, "write_gate_missing") {
        return CompileSubReasonCode::ShapeOrContract;
    }
    CompileSubReasonCode::CompileError
}

// ---------------------------------------------------------------------------
// Error payloads
// ---------------------------------------------------------------------------

pub open spec fn text_view(s: Seq<char>) -> JsonView {
    JsonView::Str(s)
}

pub open spec fn round_view(round: u8) -> JsonView {
    JsonView::Number(NumberView::PosInt(round as u64))
}

/// The order in which repairs are to be tried.
pub open spec fn repair_order_view() -> JsonView {
    JsonView::Array(seq![text_view("shape"@), text_view("ref"@), text_view("slot"@), text_view("semantic"@)])
}

fn repair_order() -> (r: JsonValue)
    ensures
        r@ == repair_order_view(),
{
    let v = vec![
        JsonValue::String(to_owned_string("shape")),
        JsonValue::String(to_owned_string("ref")),
        JsonValue::String(to_owned_string("slot")),
        JsonValue::String(to_owned_string("semantic")),
    ];
    proof {
        lemma_array_view(v);
        assert(items_view(v@) =~= seq![text_view("shape"@), text_view("ref"@), text_view("slot"@), text_view("semantic"@)]);
    }
    JsonValue::Array(v)
}

fn round_value(round: u8) -> (r: JsonValue)
    ensures
        r@ == round_view(round),
{
    JsonValue::Number(JsonNumber::PosInt(round as u64))
}

/// The reason code of a compile error payload: the one it names, or the
/// plain compile error.
pub open spec fn payload_reason_spec(payload: JsonView) -> ReasonView {
    match field_str(payload, "reason_code"@) {
        Some(r) => ReasonCode::from_raw_spec(r),
        None => ReasonView::Known(KnownReasonCode::CompileError),
    }
}

pub open spec fn payload_issues_spec(payload: JsonView) -> JsonView {
    match field(payload, "issues"@) {
        Some(v) => v,
        None => JsonView::Array(Seq::empty()),
    }
}

/// The compile error state shown to the planner, before compaction.
pub open spec fn compile_state_spec(payload: JsonView, round: u8) -> JsonView {
    let reason = payload_reason_spec(payload);
    let issues = payload_issues_spec(payload);
    let sub = compile_sub_reason_spec(reason, issues);
    let message = match field_str(payload, "message"@) {
        Some(m) => m,
        None => "segment compile failed"@,
    };
    let e0 = obj_insert(Seq::empty(), "phase"@, text_view("compile"@));
    let e1 = obj_insert(e0, "reason_code"@, text_view(ReasonCode::code_spec(reason)));
    let e2 = obj_insert(e1, "sub_reason_code"@, text_view(sub.name_spec()));
    let e3 = obj_insert(e2, "phase_reason_code"@, text_view("compile."@ + sub.name_spec()));
    let e4 = obj_insert(e3, "message"@, text_view(message));
    let e5 = obj_insert(e4, "issues"@, issues);
    let e6 = obj_insert(e5, "repair_order"@, repair_order_view());
    JsonView::Object(obj_insert(e6, "round"@, round_view(round)))
}

pub fn compile_error_state_payload(error_payload: &JsonValue, round: u8) -> (r: JsonValue)
    ensures
        r@ == compact_view(compile_state_spec(error_payload@, round), JsonBudgetOptions::default_spec(), 0),
{
    let reason_code = match error_payload.get("reason_code") {
        Some(x) => match x.as_str() {
            Some(t) => ReasonCode::from_raw(t),
            None => ReasonCode::compile_default(),
        },
        None => ReasonCode::compile_default(),
    };
    let message = match error_payload.get("message") {
        Some(x) => match x.as_str() {
            Some(t) => t,
            None => "segment compile failed",
        },
        None => "segment compile failed",
    };
    let issues = match error_payload.get("issues") {
        Some(x) => x.clone_value(),
        None => {
            let v: Vec<JsonValue> = Vec::new();
            proof {
                lemma_array_view(v);
                assert(items_view(v@) =~= Seq::<JsonView>::empty());
            }
            JsonValue::Array(v)
        },
    };
    let sub = classify_compile_sub_reason_code(&reason_code, &issues);
    let mut o = JsonValue::empty_object();
    o.insert(to_owned_string("phase"), JsonValue::String(to_owned_string("compile")));
    o.insert(to_owned_string("reason_code"), JsonValue::String(reason_code.code()));
    o.insert(to_owned_string("sub_reason_code"), JsonValue::String(to_owned_string(sub.as_str())));
    o.insert(to_owned_string("phase_reason_code"), JsonValue::String(concat("compile.", sub.as_str())));
    o.insert(to_owned_string("message"), JsonValue::String(to_owned_string(message)));
    o.insert(to_owned_string("issues"), issues);
    o.insert(to_owned_string("repair_order"), repair_order());
    o.insert(to_owned_string("round"), round_value(round));
    compact_json_for_llm(&o)
}

pub open spec fn message_view(m: Option<Seq<char>>) -> JsonView {
    match m {
        Some(s) => JsonView::Str(s),
        None => JsonView::Null,
    }
}

/// The error state of a grounding or todo phase, before compaction: the
/// phase, its reason code under the phase's prefix, and what went with it.
pub open spec fn phase_state_spec(
    phase: Seq<char>,
    prefix: Seq<char>,
    reason_code: Seq<char>,
    message: Option<Seq<char>>,
    issues: Seq<JsonView>,
    questions: Seq<JsonView>,
    round: u8,
) -> JsonView {
    let base = ReasonCode::code_spec(ReasonCode::from_raw_spec(reason_code));
    let e0 = obj_insert(Seq::empty(), "phase"@, text_view(phase));
    let e1 = obj_insert(e0, "reason_code"@, text_view(prefix + base));
    let e2 = obj_insert(e1, "base_reason_code"@, text_view(base));
    let e3 = obj_insert(e2, "message"@, message_view(message));
    let e4 = obj_insert(e3, "issues"@, JsonView::Array(issues));
    let e5 = obj_insert(e4, "questions"@, JsonView::Array(questions));
    JsonView::Object(obj_insert(e5, "round"@, round_view(round)))
}

fn clone_items(items: &Vec<JsonValue>) -> (r: JsonValue)
    ensures
        r@ == JsonView::Array(items_view(items@)),
{
    let mut out: Vec<JsonValue> = Vec::new();
    let mut i: usize = 0;
    while i < items.len()
        invariant
            i <= items@.len(),
            out@.len() == i,
            forall|k: int| 0 <= k < i ==> #[trigger] out@[k]@ == items@[k]@,
        decreases items.len() - i,
    {
        out.push(items[i].clone_value());
        i = i + 1;
    }
    proof {
        lemma_array_view(out);
        assert(items_view(out@) =~= items_view(items@));
    }
    JsonValue::Array(out)
}

fn phase_error_payload(
    phase: &str,
    prefix: &str,
    reason_code: &str,
    message: Option<&str>,
    issues: &Vec<JsonValue>,
    questions: &Vec<JsonValue>,
    round: u8,
) -> (r: JsonValue)
    ensures
        r@ == compact_view(
            phase_state_spec(
                phase@,
                prefix@,
                reason_code@,
                opt_str_view(message),
                items_view(issues@),
                items_view(questions@),
                round,
            ),
            JsonBudgetOptions::default_spec(),
            0,
        ),
{
    let base = ReasonCode::from_raw(reason_code).code();
    let mut o = JsonValue::empty_object();
    o.insert(to_owned_string("phase"), JsonValue::String(to_owned_string(phase)));
    o.insert(to_owned_string("reason_code"), JsonValue::String(concat(prefix, base.as_str())));
    o.insert(to_owned_string("base_reason_code"), JsonValue::String(base));
    let m = match message {
        Some(t) => JsonValue::String(to_owned_string(t)),
        None => JsonValue::Null,
    };
    o.insert(to_owned_string("message"), m);
    o.insert(to_owned_string("issues"), clone_items(issues));
    o.insert(to_owned_string("questions"), clone_items(questions));
    o.insert(to_owned_string("round"), round_value(round));
    compact_json_for_llm(&o)
}

pub fn grounding_phase_error_payload(
    reason_code: &str,
    message: Option<&str>,
    issues: &Vec<JsonValue>,
    questions: &Vec<JsonValue>,
    round: u8,
) -> (r: JsonValue)
    ensures
        r@ == compact_view(
            phase_state_spec(
                "grounding"@,
                "grounding."@,
                reason_code@,
                opt_str_view(message),
                items_view(issues@),
                items_view(questions@),
                round,
            ),
            JsonBudgetOptions::default_spec(),
            0,
        ),
{
    phase_error_payload("grounding", "grounding.", reason_code, message, issues, questions, round)
}

pub fn todo_phase_error_payload(
    reason_code: &str,
    message: Option<&str>,
    issues: &Vec<JsonValue>,
    questions: &Vec<JsonValue>,
    round: u8,
) -> (r: JsonValue)
    ensures
        r@ == compact_view(
            phase_state_spec(
                "todo_planning"@,
                "todo."@,
                reason_code@,
                opt_str_view(message),
                items_view(issues@),
                items_view(questions@),
                round,
            ),
            JsonBudgetOptions::default_spec(),
            0,
        ),
{
    phase_error_payload("todo_planning", "todo.", reason_code, message, issues, questions, round)
}


// ---------------------------------------------------------------------------
// Repair hints for planner output faults
// ---------------------------------------------------------------------------

pub open spec fn texts_view(xs: Seq<Seq<char>>) -> JsonView {
    JsonView::Array(xs.map_values(|x: Seq<char>| JsonView::Str(x)))
}

/// The object of the given text fields, inserted in order.
pub open spec fn text_fields(es: Seq<(Seq<char>, JsonView)>, fields: Seq<(Seq<char>, Seq<char>)>) -> Seq<
    (Seq<char>, JsonView),
>
    decreases fields.len(),
{
    if fields.len() == 0 {
        es
    } else {
        obj_insert(text_fields(es, fields.drop_last()), fields.last().0, JsonView::Str(fields.last().1))
    }
}

fn text_list(xs: Vec<&str>) -> (r: JsonValue)
    ensures
        r@ == texts_view(xs@.map_values(|s: &str| s@)),
{
    let ghost target = xs@.map_values(|s: &str| s@);
    let mut out: Vec<JsonValue> = Vec::new();
    let mut i: usize = 0;
    while i < xs.len()
        invariant
            i <= xs@.len(),
            target == xs@.map_values(|s: &str| s@),
            items_view(out@) == target.subrange(0, i as int).map_values(|x: Seq<char>| JsonView::Str(x)),
        decreases xs.len() - i,
    {
        let ghost prev = items_view(out@);
        out.push(JsonValue::String(to_owned_string(xs[i])));
        assert(items_view(out@) =~= prev.push(JsonView::Str(target[i as int])));
        assert(items_view(out@) =~= target.subrange(0, i + 1).map_values(|x: Seq<char>| JsonView::Str(x)));
        i = i + 1;
    }
    proof {
        lemma_array_view(out);
    }
    assert(target.subrange(0, target.len() as int) =~= target);
    JsonValue::Array(out)
}

fn put_text(o: &mut JsonValue, key: &str, value: &str)
    requires
        old(o)@ is Object,
    ensures
        final(o)@ == JsonView::Object(obj_insert(old(o)@->Object_0, key@, JsonView::Str(value@))),
{
    o.insert(to_owned_string(key), JsonValue::String(to_owned_string(value)));
}

/// The object of the hint's summary and its one note.
pub open spec fn note_hint(summary: Seq<char>, note: Seq<char>) -> JsonView {
    JsonView::Object(text_fields(Seq::empty(), seq![("summary"@, summary), ("note"@, note)]))
}

fn note_hint_exec(summary: &str, note: &str) -> (r: JsonValue)
    ensures
        r@ == note_hint(summary@, note@),
{
    let mut o = JsonValue::empty_object();
    put_text(&mut o, "summary", summary);
    put_text(&mut o, "note", note);
    proof {
        lemma_text_fields_2(("summary"@, summary@), ("note"@, note@));
    }
    o
}

pub open spec fn expected_segment_view() -> JsonView {
    let step = JsonView::Object(
        obj_insert(
            text_fields(
                Seq::empty(),
                seq![("id"@, "..."@), ("kind"@, "query"@), ("candidate_ref"@, "..."@)],
            ),
            "inputs"@,
            JsonView::Object(Seq::empty()),
        ),
    );
    let segment = JsonView::Object(
        obj_insert(
            obj_insert(
                text_fields(Seq::empty(), seq![("segment_id"@, "..."@), ("cursor_in"@, "..."@), ("cursor_out"@, "..."@)]),
                "done"@,
                JsonView::Bool(false),
            ),
            "steps"@,
            JsonView::Array(seq![step]),
        ),
    );
    JsonView::Object(
        obj_insert(
            obj_insert(text_fields(Seq::empty(), seq![("status"@, "proposed"@)]), "done"@, JsonView::Bool(false)),
            "segment"@,
            segment,
        ),
    )
}

pub open spec fn expected_error_view() -> JsonView {
    JsonView::Object(
        obj_insert(
            obj_insert(text_fields(Seq::empty(), seq![("status"@, "invalid"@)]), "done"@, JsonView::Bool(false)),
            "error"@,
            JsonView::Object(text_fields(Seq::empty(), seq![("reason_code"@, "..."@), ("message"@, "..."@)])),
        ),
    )
}

/// What the planner is told to fix, by the kind of fault its output had.
pub open spec fn hint_spec(code: PlannerSubReasonCode) -> JsonView {
    match code {
        PlannerSubReasonCode::MissingSegment => JsonView::Object(
            obj_insert(
                text_fields(Seq::empty(), seq![("summary"@, "status=proposed must include segment"@)]),
                "expected"@,
                expected_segment_view(),
            ),
        ),
        PlannerSubReasonCode::MissingError => JsonView::Object(
            obj_insert(
                text_fields(
                    Seq::empty(),
                    seq![("summary"@, "status=invalid|unavailable must include error.reason_code"@)],
                ),
                "expected"@,
                expected_error_view(),
            ),
        ),
        PlannerSubReasonCode::InvalidToolArgs => note_hint(
            "finalize tool arguments did not match schema"@,
            "Keep fields minimal; avoid extra keys; ensure types match (strings for ids/cursors; boolean for done)."@,
        ),
        PlannerSubReasonCode::SegmentNotJson => note_hint(
            "segment was a string but not valid JSON"@,
            "Return segment as an object, or a JSON string that decodes to an object."@,
        ),
        PlannerSubReasonCode::NoToolCalls => note_hint(
            "model response did not include tool calls"@,
            "Always emit exactly one final tool call in each round."@,
        ),
        PlannerSubReasonCode::SegmentShapeInvalid => JsonView::Object(
            obj_insert(
                obj_insert(
                    obj_insert(
                        text_fields(Seq::empty(), seq![("summary"@, "segment JSON did not match required fields"@)]),
                        "required_segment_fields"@,
                        texts_view(seq!["segment_id"@, "cursor_in"@, "cursor_out"@, "done"@, "steps"@]),
                    ),
                    "step_forbidden_fields"@,
                    texts_view(
                        seq![
                            "if_true"@, "if_false"@, "then"@, "else"@, "children"@, "steps_if_true"@,
                            "steps_if_false"@,
                        ],
                    ),
                ),
                "branch_fix"@,
                JsonView::Str(
                    "Do not nest branch trees. Keep steps flat and use when.cel + depends_on to model path selection."@,
                ),
            ),
        ),
        PlannerSubReasonCode::MissingCandidateRef => JsonView::Object(
            obj_insert(
                obj_insert(
                    text_fields(Seq::empty(), seq![("summary"@, "one or more steps are missing candidate_ref"@)]),
                    "required_step_fields"@,
                    texts_view(seq!["id"@, "kind"@, "inputs"@]),
                ),
                "rules"@,
                texts_view(
                    seq![
                        "query/action steps require candidate_ref."@,
                        "assert/branch are built-in control steps and may omit candidate_ref."@,
                        "when candidate_ref is present, it must come from discovered candidates (catalog.search/get_candidate_detail)."@,
                        "Do not invent refs; reuse known candidate refs and keep semantics unchanged while fixing shape."@,
                    ],
                ),
            ),
        ),
        PlannerSubReasonCode::InvalidStatus => JsonView::Object(
            obj_insert(
                text_fields(Seq::empty(), seq![("summary"@, "status must be one of: proposed|invalid|unavailable"@)]),
                "allowed"@,
                texts_view(seq!["proposed"@, "invalid"@, "unavailable"@]),
            ),
        ),
        PlannerSubReasonCode::Unknown => JsonView::Object(
            obj_insert(
                Seq::empty(),
                "rules"@,
                texts_view(
                    seq![
                        "Return exactly one finalize tool call and make it the last tool call in the round."@,
                        "If status=proposed: include a non-empty segment with steps[]."@,
                        "If status=invalid|unavailable: include error.reason_code and omit segment."@,
                        "Do not add unknown fields; follow the tool input schema exactly."@,
                    ],
                ),
            ),
        ),
    }
}

proof fn lemma_text_fields_1(a: (Seq<char>, Seq<char>))
    ensures
        text_fields(Seq::empty(), seq![a]) == obj_insert(Seq::empty(), a.0, JsonView::Str(a.1)),
{
    let one = seq![a];
    assert(one.drop_last() =~= Seq::<(Seq<char>, Seq<char>)>::empty());
    assert(one.last() == a);
    assert(text_fields(Seq::empty(), Seq::<(Seq<char>, Seq<char>)>::empty()) == Seq::<(Seq<char>, JsonView)>::empty());
}

proof fn lemma_text_fields_2(a: (Seq<char>, Seq<char>), b: (Seq<char>, Seq<char>))
    ensures
        text_fields(Seq::empty(), seq![a, b]) == obj_insert(
            obj_insert(Seq::empty(), a.0, JsonView::Str(a.1)),
            b.0,
            JsonView::Str(b.1),
        ),
{
    let two = seq![a, b];
    assert(two.drop_last() =~= seq![a]);
    assert(two.last() == b);
    lemma_text_fields_1(a);
}

proof fn lemma_text_fields_3(a: (Seq<char>, Seq<char>), b: (Seq<char>, Seq<char>), c: (Seq<char>, Seq<char>))
    ensures
        text_fields(Seq::empty(), seq![a, b, c]) == obj_insert(
            obj_insert(obj_insert(Seq::empty(), a.0, JsonView::Str(a.1)), b.0, JsonView::Str(b.1)),
            c.0,
            JsonView::Str(c.1),
        ),
{
    let three = seq![a, b, c];
    assert(three.drop_last() =~= seq![a, b]);
    assert(three.last() == c);
    lemma_text_fields_2(a, b);
}

fn expected_segment() -> (r: JsonValue)
    ensures
        r@ == expected_segment_view(),
{
    let mut step = JsonValue::empty_object();
    put_text(&mut step, "id", "...");
    put_text(&mut step, "kind", "query");
    put_text(&mut step, "candidate_ref", "...");
    step.insert(to_owned_string("inputs"), JsonValue::empty_object());
    let mut segment = JsonValue::empty_object();
    put_text(&mut segment, "segment_id", "...");
    put_text(&mut segment, "cursor_in", "...");
    put_text(&mut segment, "cursor_out", "...");
    segment.insert(to_owned_string("done"), JsonValue::Bool(false));
    let ghost sv = step@;
    let steps = vec![step];
    proof {
        lemma_array_view(steps);
        assert(items_view(steps@) =~= seq![sv]);
    }
    segment.insert(to_owned_string("steps"), JsonValue::Array(steps));
    let mut o = JsonValue::empty_object();
    put_text(&mut o, "status", "proposed");
    o.insert(to_owned_string("done"), JsonValue::Bool(false));
    o.insert(to_owned_string("segment"), segment);
    proof {
        lemma_text_fields_3(("id"@, "..."@), ("kind"@, "query"@), ("candidate_ref"@, "..."@));
        lemma_text_fields_3(("segment_id"@, "..."@), ("cursor_in"@, "..."@), ("cursor_out"@, "..."@));
        lemma_text_fields_1(("status"@, "proposed"@));
    }
    o
}

fn expected_error() -> (r: JsonValue)
    ensures
        r@ == expected_error_view(),
{
    let mut err = JsonValue::empty_object();
    put_text(&mut err, "reason_code", "...");
    put_text(&mut err, "message", "...");
    let mut o = JsonValue::empty_object();
    put_text(&mut o, "status", "invalid");
    o.insert(to_owned_string("done"), JsonValue::Bool(false));
    o.insert(to_owned_string("error"), err);
    proof {
        lemma_text_fields_2(("reason_code"@, "..."@), ("message"@, "..."@));
        lemma_text_fields_1(("status"@, "invalid"@));
    }
    o
}

fn missing_segment_hint() -> (r: JsonValue)
    ensures
        r@ == hint_spec(PlannerSubReasonCode::MissingSegment),
{
    let mut o = JsonValue::empty_object();
    put_text(&mut o, "summary", "status=proposed must include segment");
    let e = expected_segment();
    assert(e@ == expected_segment_view());
    o.insert(to_owned_string("expected"), e);
    proof {
        lemma_text_fields_1(("summary"@, "status=proposed must include segment"@));
    }
    o
}

fn shape_hint() -> (r: JsonValue)
    ensures
        r@ == hint_spec(PlannerSubReasonCode::SegmentShapeInvalid),
{
        let mut o = JsonValue::empty_object();
        put_text(&mut o, "summary", "segment JSON did not match required fields");
        let list1 = vec!["segment_id", "cursor_in", "cursor_out", "done", "steps"];
        assert(list1@.map_values(|s: &str| s@) =~= seq!["segment_id"@, "cursor_in"@, "cursor_out"@, "done"@, "steps"@]);
        o.insert(to_owned_string("required_segment_fields"), text_list(list1));
        let list2 = vec!["if_true", "if_false", "then", "else", "children", "steps_if_true", "steps_if_false"];
        assert(list2@.map_values(|s: &str| s@) =~= seq!["if_true"@, "if_false"@, "then"@, "else"@, "children"@, "steps_if_true"@, "steps_if_false"@]);
        o.insert(to_owned_string("step_forbidden_fields"), text_list(list2));
        put_text(
            &mut o,
            "branch_fix",
            "Do not nest branch trees. Keep steps flat and use when.cel + depends_on to model path selection.",
        );
        proof {
            lemma_text_fields_1(("summary"@, "segment JSON did not match required fields"@));
        }
        o
}

fn candidate_ref_hint() -> (r: JsonValue)
    ensures
        r@ == hint_spec(PlannerSubReasonCode::MissingCandidateRef),
{
        let mut o = JsonValue::empty_object();
        put_text(&mut o, "summary", "one or more steps are missing candidate_ref");
        let list3 = vec!["id", "kind", "inputs"];
        assert(list3@.map_values(|s: &str| s@) =~= seq!["id"@, "kind"@, "inputs"@]);
        o.insert(to_owned_string("required_step_fields"), text_list(list3));
        let list4 = vec!["query/action steps require candidate_ref.",
                    "assert/branch are built-in control steps and may omit candidate_ref.",
                    "when candidate_ref is present, it must come from discovered candidates (catalog.search/get_candidate_detail).",
                    "Do not invent refs; reuse known candidate refs and keep semantics unchanged while fixing shape."];
        assert(list4@.map_values(|s: &str| s@) =~= seq!["query/action steps require candidate_ref."@, "assert/branch are built-in control steps and may omit candidate_ref."@, "when candidate_ref is present, it must come from discovered candidates (catalog.search/get_candidate_detail)."@, "Do not invent refs; reuse known candidate refs and keep semantics unchanged while fixing shape."@]);
        o.insert(to_owned_string("rules"), text_list(list4));
        proof {
            lemma_text_fields_1(("summary"@, "one or more steps are missing candidate_ref"@));
        }
        o
}

fn status_hint() -> (r: JsonValue)
    ensures
        r@ == hint_spec(PlannerSubReasonCode::InvalidStatus),
{
        let mut o = JsonValue::empty_object();
        put_text(&mut o, "summary", "status must be one of: proposed|invalid|unavailable");
        let list5 = vec!["proposed", "invalid", "unavailable"];
        assert(list5@.map_values(|s: &str| s@) =~= seq!["proposed"@, "invalid"@, "unavailable"@]);
        o.insert(to_owned_string("allowed"), text_list(list5));
        proof {
            lemma_text_fields_1(("summary"@, "status must be one of: proposed|invalid|unavailable"@));
        }
        o
}

fn general_hint() -> (r: JsonValue)
    ensures
        r@ == hint_spec(PlannerSubReasonCode::Unknown),
{
        let mut o = JsonValue::empty_object();
        let list6 = vec!["Return exactly one finalize tool call and make it the last tool call in the round.",
                    "If status=proposed: include a non-empty segment with steps[].",
                    "If status=invalid|unavailable: include error.reason_code and omit segment.",
                    "Do not add unknown fields; follow the tool input schema exactly."];
        assert(list6@.map_values(|s: &str| s@) =~= seq!["Return exactly one finalize tool call and make it the last tool call in the round."@, "If status=proposed: include a non-empty segment with steps[]."@, "If status=invalid|unavailable: include error.reason_code and omit segment."@, "Do not add unknown fields; follow the tool input schema exactly."@]);
        o.insert(to_owned_string("rules"), text_list(list6));
        o
}

fn missing_error_hint() -> (r: JsonValue)
    ensures
        r@ == hint_spec(PlannerSubReasonCode::MissingError),
{
        let mut o = JsonValue::empty_object();
        put_text(&mut o, "summary", "status=invalid|unavailable must include error.reason_code");
        o.insert(to_owned_string("expected"), expected_error());
        proof {
            lemma_text_fields_1(("summary"@, "status=invalid|unavailable must include error.reason_code"@));
        }
        o
}

pub fn planner_hint_for_sub_reason(sub_reason_code: PlannerSubReasonCode) -> (r: JsonValue)
    ensures
        r@ == hint_spec(sub_reason_code),
{
    match sub_reason_code {
        PlannerSubReasonCode::MissingSegment => missing_segment_hint(),
        PlannerSubReasonCode::MissingError => missing_error_hint(),
        PlannerSubReasonCode::InvalidToolArgs => note_hint_exec(
            "finalize tool arguments did not match schema",
            "Keep fields minimal; avoid extra keys; ensure types match (strings for ids/cursors; boolean for done).",
        ),
        PlannerSubReasonCode::SegmentNotJson => note_hint_exec(
            "segment was a string but not valid JSON",
            "Return segment as an object, or a JSON string that decodes to an object.",
        ),
        PlannerSubReasonCode::NoToolCalls => note_hint_exec(
            "model response did not include tool calls",
            "Always emit exactly one final tool call in each round.",
        ),
        PlannerSubReasonCode::SegmentShapeInvalid => shape_hint(),
        PlannerSubReasonCode::MissingCandidateRef => candidate_ref_hint(),
        PlannerSubReasonCode::InvalidStatus => status_hint(),
        PlannerSubReasonCode::Unknown => general_hint(),
    }
}


/// The fault an LLM error message shows, `unknown` when none.
pub open spec fn planner_sub_reason_spec(llm_message: Option<Seq<char>>) -> PlannerSubReasonCode {
    match llm_message {
        Some(m) => match first_pattern_from(m, 0) {
            Some(p) => p.1,
            None => PlannerSubReasonCode::Unknown,
        },
        None => PlannerSubReasonCode::Unknown,
    }
}

/// The error state shown to the planner after output it could not use,
/// before compaction.
pub open spec fn planner_output_state_spec(
    message: Seq<char>,
    llm_message: Option<Seq<char>>,
    expected_finalize_tool: Seq<char>,
    round: u8,
    retry: u8,
    last_failed_finalize: Option<JsonView>,
) -> JsonView {
    let sub = planner_sub_reason_spec(llm_message);
    let e0 = obj_insert(Seq::empty(), "phase"@, text_view("planning"@));
    let e1 = obj_insert(e0, "reason_code"@, text_view("planner_invalid_tool_output"@));
    let e2 = obj_insert(e1, "sub_reason_code"@, text_view(sub.name_spec()));
    let e3 = obj_insert(e2, "phase_reason_code"@, text_view("planning."@ + sub.name_spec()));
    let e4 = obj_insert(e3, "message"@, text_view(message));
    let e5 = obj_insert(e4, "expected_finalize_tool"@, text_view(expected_finalize_tool));
    let e6 = obj_insert(e5, "repair_order"@, repair_order_view());
    let e7 = obj_insert(e6, "hint"@, hint_spec(sub));
    let e8 = obj_insert(e7, "round"@, round_view(round));
    let e9 = obj_insert(e8, "retry"@, round_view(retry));
    JsonView::Object(
        obj_insert(
            e9,
            "last_failed_finalize"@,
            match last_failed_finalize {
                Some(v) => v,
                None => JsonView::Null,
            },
        ),
    )
}

/// The planner's error state after unusable output: `message` is the
/// error's text and `llm_message` the message of an LLM error (`None` for
/// other errors), from which the fault is classified.
pub fn segmented_planner_output_error_payload(
    message: &str,
    llm_message: Option<&str>,
    expected_finalize_tool: &str,
    round: u8,
    retry: u8,
    last_failed_finalize: Option<JsonValue>,
) -> (r: JsonValue)
    ensures
        r@ == compact_view(
            planner_output_state_spec(
                message@,
                opt_str_view(llm_message),
                expected_finalize_tool@,
                round,
                retry,
                match last_failed_finalize {
                    Some(v) => Some(v@),
                    None => None,
                },
            ),
            JsonBudgetOptions::default_spec(),
            0,
        ),
{
    let sub = match classify_planner_output_error(llm_message) {
        Some(p) => p.sub_reason_code,
        None => PlannerSubReasonCode::Unknown,
    };
    let mut o = JsonValue::empty_object();
    o.insert(to_owned_string("phase"), JsonValue::String(to_owned_string("planning")));
    o.insert(to_owned_string("reason_code"), JsonValue::String(to_owned_string("planner_invalid_tool_output")));
    o.insert(to_owned_string("sub_reason_code"), JsonValue::String(to_owned_string(sub.as_str())));
    o.insert(to_owned_string("phase_reason_code"), JsonValue::String(concat("planning.", sub.as_str())));
    o.insert(to_owned_string("message"), JsonValue::String(to_owned_string(message)));
    o.insert(to_owned_string("expected_finalize_tool"), JsonValue::String(to_owned_string(expected_finalize_tool)));
    o.insert(to_owned_string("repair_order"), repair_order());
    o.insert(to_owned_string("hint"), planner_hint_for_sub_reason(sub));
    o.insert(to_owned_string("round"), round_value(round));
    o.insert(to_owned_string("retry"), round_value(retry));
    o.insert(
        to_owned_string("last_failed_finalize"),
        match last_failed_finalize {
            Some(v) => v,
            None => JsonValue::Null,
        },
    );
    compact_json_for_llm(&o)
}

} // verus!
