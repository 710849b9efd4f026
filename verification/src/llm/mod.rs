//! The model-provider interface: messages, tool calls, provider errors and
//! how an error is classified for retry and fallback.
use vstd::prelude::*;
use crate::json::{JsonValue, JsonView};
use crate::text::{contains, decimal, push_decimal, push_str, str_contains, str_to_lowercase,
    to_owned_string, unicode_lowercase};

pub mod anthropic;
pub mod chain;
pub mod registry;
pub mod factory;
pub mod http_text;
pub mod openai;

verus! {

#[derive(Clone, Copy, PartialEq, Eq, Structural)]
pub enum MessageRole {
    System,
    User,
    Assistant,
    Tool,
}

/// A tool invocation requested by the model.
pub struct ToolCall {
    pub id: String,
    pub name: String,
    pub arguments: JsonValue,
}

pub struct ToolCallView {
    pub id: Seq<char>,
    pub name: Seq<char>,
    pub arguments: JsonView,
}

impl View for ToolCall {
    type V = ToolCallView;

    open spec fn view(&self) -> ToolCallView {
        ToolCallView { id: self.id@, name: self.name@, arguments: self.arguments@ }
    }
}

pub struct LlmMessage {
    pub role: MessageRole,
    pub content: Option<String>,
    pub tool_name: Option<String>,
    pub tool_call_id: Option<String>,
    pub tool_calls: Vec<ToolCall>,
}

pub struct LlmMessageView {
    pub role: MessageRole,
    pub content: Option<Seq<char>>,
    pub tool_name: Option<Seq<char>>,
    pub tool_call_id: Option<Seq<char>>,
    pub tool_calls: Seq<ToolCallView>,
}

pub open spec fn opt_text(s: Option<String>) -> Option<Seq<char>> {
    match s {
        Some(t) => Some(t@),
        None => None,
    }
}

pub open spec fn calls_view(calls: Seq<ToolCall>) -> Seq<ToolCallView> {
    Seq::new(calls.len(), |i: int| calls[i]@)
}

impl View for LlmMessage {
    type V = LlmMessageView;

    open spec fn view(&self) -> LlmMessageView {
        LlmMessageView {
            role: self.role,
            content: opt_text(self.content),
            tool_name: opt_text(self.tool_name),
            tool_call_id: opt_text(self.tool_call_id),
            tool_calls: calls_view(self.tool_calls@),
        }
    }
}

/// A tool offered to the model.
pub struct ToolSpec {
    pub name: String,
    pub description: String,
    pub input_schema: JsonValue,
}

pub struct ToolSpecView {
    pub name: Seq<char>,
    pub description: Seq<char>,
    pub input_schema: JsonView,
}

impl View for ToolSpec {
    type V = ToolSpecView;

    open spec fn view(&self) -> ToolSpecView {
        ToolSpecView {
            name: self.name@,
            description: self.description@,
            input_schema: self.input_schema@,
        }
    }
}

pub struct CompleteWithToolsRequest {
    pub messages: Vec<LlmMessage>,
    pub tools: Vec<ToolSpec>,
}

impl View for CompleteWithToolsRequest {
    type V = (Seq<LlmMessageView>, Seq<ToolSpecView>);

    open spec fn view(&self) -> (Seq<LlmMessageView>, Seq<ToolSpecView>) {
        (
            Seq::new(self.messages@.len(), |i: int| self.messages@[i]@),
            Seq::new(self.tools@.len(), |i: int| self.tools@[i]@),
        )
    }
}

pub struct CompleteWithToolsResponse {
    pub assistant_content: Option<String>,
    pub tool_calls: Vec<ToolCall>,
}

impl View for CompleteWithToolsResponse {
    type V = (Option<Seq<char>>, Seq<ToolCallView>);

    open spec fn view(&self) -> (Option<Seq<char>>, Seq<ToolCallView>) {
        (opt_text(self.assistant_content), calls_view(self.tool_calls@))
    }
}

pub fn clone_opt_text(s: &Option<String>) -> (r: Option<String>)
    ensures
        opt_text(r) == opt_text(*s),
{
    match s {
        Some(t) => Some(to_owned_string(t.as_str())),
        None => None,
    }
}

impl ToolCall {
    pub fn clone_call(&self) -> (r: ToolCall)
        ensures
            r@ == self@,
    {
        ToolCall {
            id: to_owned_string(self.id.as_str()),
            name: to_owned_string(self.name.as_str()),
            arguments: self.arguments.clone_value(),
        }
    }
}

pub fn clone_calls(calls: &Vec<ToolCall>) -> (r: Vec<ToolCall>)
    ensures
        calls_view(r@) == calls_view(calls@),
{
    let mut out: Vec<ToolCall> = Vec::new();
    let mut i: usize = 0;
    while i < calls.len()
        invariant
            i <= calls@.len(),
            out@.len() == i,
            forall|k: int| 0 <= k < i ==> #[trigger] out@[k]@ == calls@[k]@,
        decreases calls.len() - i,
    {
        out.push(calls[i].clone_call());
        i = i + 1;
    }
    assert(calls_view(out@) =~= calls_view(calls@));
    out
}

impl LlmMessage {
    pub fn clone_message(&self) -> (r: LlmMessage)
        ensures
            r@ == self@,
    {
        LlmMessage {
            role: self.role,
            content: clone_opt_text(&self.content),
            tool_name: clone_opt_text(&self.tool_name),
            tool_call_id: clone_opt_text(&self.tool_call_id),
            tool_calls: clone_calls(&self.tool_calls),
        }
    }
}

impl ToolSpec {
    pub fn clone_spec(&self) -> (r: ToolSpec)
        ensures
            r@ == self@,
    {
        ToolSpec {
            name: to_owned_string(self.name.as_str()),
            description: to_owned_string(self.description.as_str()),
            input_schema: self.input_schema.clone_value(),
        }
    }
}

impl CompleteWithToolsRequest {
    pub fn clone_request(&self) -> (r: CompleteWithToolsRequest)
        ensures
            r@ == self@,
    {
        let mut messages: Vec<LlmMessage> = Vec::new();
        let mut i: usize = 0;
        while i < self.messages.len()
            invariant
                i <= self.messages@.len(),
                messages@.len() == i,
                forall|k: int| 0 <= k < i ==> #[trigger] messages@[k]@ == self.messages@[k]@,
            decreases self.messages.len() - i,
        {
            messages.push(self.messages[i].clone_message());
            i = i + 1;
        }
        let mut tools: Vec<ToolSpec> = Vec::new();
        let mut j: usize = 0;
        while j < self.tools.len()
            invariant
                j <= self.tools@.len(),
                tools@.len() == j,
                forall|k: int| 0 <= k < j ==> #[trigger] tools@[k]@ == self.tools@[k]@,
            decreases self.tools.len() - j,
        {
            tools.push(self.tools[j].clone_spec());
            j = j + 1;
        }
        let r = CompleteWithToolsRequest { messages, tools };
        assert(r@.0 =~= self@.0);
        assert(r@.1 =~= self@.1);
        r
    }
}

/// What went wrong in a provider call.
#[derive(Debug)]
pub enum LlmProviderError {
    CallFailed { reason: String },
    InvalidConfig { reason: String },
    HttpStatus { status: u16, body: String },
    DecodeFailed { reason: String },
    ChainExhausted { reason: String },
}

/// What the caller may do about an error: try the same provider again, move
/// to the next provider, or give up.
#[derive(Clone, Copy, PartialEq, Eq, Structural)]
pub enum LlmErrorClass {
    Retryable,
    Fallbackable,
    Fatal,
}

/// A transport failure whose (lowercased) text names a transient cause.
pub open spec fn mentions_transient_cause(lower: Seq<char>) -> bool {
    contains(lower, "timeout"@) || contains(lower, "timed out"@) || contains(lower, "connection"@)
        || contains(lower, "eof"@) || contains(lower, "broken pipe"@) || contains(
        lower,
        "temporar"@,
    ) || contains(lower, "429"@) || contains(lower, "5xx"@)
}

pub open spec fn call_failure_class(lower: Seq<char>) -> LlmErrorClass {
    if mentions_transient_cause(lower) {
        LlmErrorClass::Retryable
    } else {
        LlmErrorClass::Fallbackable
    }
}

pub open spec fn status_class(status: u16) -> LlmErrorClass {
    if status == 408 || status == 429 || status >= 500 {
        LlmErrorClass::Retryable
    } else {
        LlmErrorClass::Fallbackable
    }
}

pub open spec fn classify_spec(e: LlmProviderError) -> LlmErrorClass {
    match e {
        LlmProviderError::InvalidConfig { .. } => LlmErrorClass::Fatal,
        LlmProviderError::ChainExhausted { .. } => LlmErrorClass::Fatal,
        LlmProviderError::DecodeFailed { .. } => LlmErrorClass::Fallbackable,
        LlmProviderError::HttpStatus { status, .. } => status_class(status),
        LlmProviderError::CallFailed { reason } => call_failure_class(unicode_lowercase(reason@)),
    }
}

pub open spec fn error_text_spec(e: LlmProviderError) -> Seq<char> {
    match e {
        LlmProviderError::CallFailed { reason } => "llm provider call failed: "@ + reason@,
        LlmProviderError::InvalidConfig { reason } => "llm provider config invalid: "@ + reason@,
        LlmProviderError::HttpStatus { status, body } => "llm provider http status "@ + decimal(
            status as nat,
        ) + ": "@ + body@,
        LlmProviderError::DecodeFailed { reason } => "llm provider decode failed: "@ + reason@,
        LlmProviderError::ChainExhausted { reason } => "llm provider exhausted provider chain: "@
            + reason@,
    }
}

/// Classifies a transport failure from its lowercased text.
pub fn classify_call_failure(reason_lower: &str) -> (r: LlmErrorClass)
    ensures
        r == call_failure_class(reason_lower@),
        (r == LlmErrorClass::Retryable) <==> (contains(reason_lower@, "timeout"@) || contains(
            reason_lower@,
            "timed out"@,
        ) || contains(reason_lower@, "connection"@) || contains(reason_lower@, "eof"@) || contains(
            reason_lower@,
            "broken pipe"@,
        ) || contains(reason_lower@, "temporar"@) || contains(reason_lower@, "429"@) || contains(
            reason_lower@,
            "5xx"@,
        )),
        r != LlmErrorClass::Fatal,
{
    if str_contains(reason_lower, "timeout") || str_contains(reason_lower, "timed out")
        || str_contains(reason_lower, "connection") || str_contains(reason_lower, "eof")
        || str_contains(reason_lower, "broken pipe") || str_contains(reason_lower, "temporar")
        || str_contains(reason_lower, "429") || str_contains(reason_lower, "5xx") {
        LlmErrorClass::Retryable
    } else {
        LlmErrorClass::Fallbackable
    }
}

/// How each error is classified.  Configuration errors and an exhausted
/// chain are fatal and nothing else is.  A decode failure moves on to the
/// next provider.  An HTTP status is retried exactly when it is 408, 429 or
/// at least 500.  A transport failure is retried exactly when its lowercased
/// text names a timeout, a connection, an end of file, a broken pipe, a
/// temporary failure, a 429 or a 5xx; otherwise it moves on.
pub proof fn lemma_classify_error(e: LlmProviderError)
    ensures
        (classify_spec(e) == LlmErrorClass::Fatal) <==> (e is InvalidConfig || e is ChainExhausted),
        e is DecodeFailed ==> classify_spec(e) == LlmErrorClass::Fallbackable,
        e matches LlmProviderError::HttpStatus { status, .. } ==> ((classify_spec(e)
            == LlmErrorClass::Retryable) <==> (status == 408 || status == 429 || status >= 500)),
        e matches LlmProviderError::CallFailed { reason } ==> ({
            let l = unicode_lowercase(reason@);
            (classify_spec(e) == LlmErrorClass::Retryable) <==> (contains(l, "timeout"@) || contains(
                l,
                "timed out"@,
            ) || contains(l, "connection"@) || contains(l, "eof"@) || contains(l, "broken pipe"@)
                || contains(l, "temporar"@) || contains(l, "429"@) || contains(l, "5xx"@))
        }),
{
}

impl LlmProviderError {
    /// Configuration errors and an exhausted chain are fatal; a decode
    /// failure moves on to the next provider; an HTTP status of 408, 429 or
    /// 5xx is worth a retry, other statuses a fallback; a transport failure
    /// is retried when its text names a transient cause.
    pub fn classify(&self) -> (r: LlmErrorClass)
        ensures
            r == classify_spec(*self),
    {
        match self {
            LlmProviderError::InvalidConfig { .. } => LlmErrorClass::Fatal,
            LlmProviderError::ChainExhausted { .. } => LlmErrorClass::Fatal,
            LlmProviderError::DecodeFailed { .. } => LlmErrorClass::Fallbackable,
            LlmProviderError::HttpStatus { status, .. } => {
                if *status == 408 || *status == 429 || *status >= 500 {
                    LlmErrorClass::Retryable
                } else {
                    LlmErrorClass::Fallbackable
                }
            },
            LlmProviderError::CallFailed { reason } => {
                let lower = str_to_lowercase(reason.as_str());
                classify_call_failure(lower.as_str())
            },
        }
    }

    pub fn is_retryable(&self) -> (r: bool)
        ensures
            r == (classify_spec(*self) == LlmErrorClass::Retryable),
    {
        self.classify() == LlmErrorClass::Retryable
    }

    pub fn is_fallbackable(&self) -> (r: bool)
        ensures
            r == (classify_spec(*self) != LlmErrorClass::Fatal),
    {
        let c = self.classify();
        c == LlmErrorClass::Retryable || c == LlmErrorClass::Fallbackable
    }

    /// The error's display text.
    pub fn message(&self) -> (r: String)
        ensures
            r@ == error_text_spec(*self),
    {
        match self {
            LlmProviderError::CallFailed { reason } => {
                let mut out = to_owned_string("llm provider call failed: ");
                push_str(&mut out, reason.as_str());
                out
            },
            LlmProviderError::InvalidConfig { reason } => {
                let mut out = to_owned_string("llm provider config invalid: ");
                push_str(&mut out, reason.as_str());
                out
            },
            LlmProviderError::HttpStatus { status, body } => {
                let mut out = to_owned_string("llm provider http status ");
                push_decimal(&mut out, *status as u64);
                push_str(&mut out, ": ");
                push_str(&mut out, body.as_str());
                proof {
                    assert(out@ =~= error_text_spec(*self));
                }
                out
            },
            LlmProviderError::DecodeFailed { reason } => {
                let mut out = to_owned_string("llm provider decode failed: ");
                push_str(&mut out, reason.as_str());
                out
            },
            LlmProviderError::ChainExhausted { reason } => {
                let mut out = to_owned_string("llm provider exhausted provider chain: ");
                push_str(&mut out, reason.as_str());
                out
            },
        }
    }

    pub fn clone_error(&self) -> (r: LlmProviderError)
        ensures
            error_text_spec(r) == error_text_spec(*self),
            classify_spec(r) == classify_spec(*self),
            r == *self || r.same_as(*self),
    {
        match self {
            LlmProviderError::CallFailed { reason } => LlmProviderError::CallFailed {
                reason: to_owned_string(reason.as_str()),
            },
            LlmProviderError::InvalidConfig { reason } => LlmProviderError::InvalidConfig {
                reason: to_owned_string(reason.as_str()),
            },
            LlmProviderError::HttpStatus { status, body } => LlmProviderError::HttpStatus {
                status: *status,
                body: to_owned_string(body.as_str()),
            },
            LlmProviderError::DecodeFailed { reason } => LlmProviderError::DecodeFailed {
                reason: to_owned_string(reason.as_str()),
            },
            LlmProviderError::ChainExhausted { reason } => LlmProviderError::ChainExhausted {
                reason: to_owned_string(reason.as_str()),
            },
        }
    }

    /// Same variant with the same texts.
    pub open spec fn same_as(self, other: LlmProviderError) -> bool {
        match (self, other) {
            (LlmProviderError::CallFailed { reason: a }, LlmProviderError::CallFailed { reason: b }) =>
                a@ == b@,
            (LlmProviderError::InvalidConfig { reason: a }, LlmProviderError::InvalidConfig { reason: b }) =>
                a@ == b@,
            (
                LlmProviderError::HttpStatus { status: s, body: a },
                LlmProviderError::HttpStatus { status: t, body: b },
            ) => s == t && a@ == b@,
            (LlmProviderError::DecodeFailed { reason: a }, LlmProviderError::DecodeFailed { reason: b }) =>
                a@ == b@,
            (
                LlmProviderError::ChainExhausted { reason: a },
                LlmProviderError::ChainExhausted { reason: b },
            ) => a@ == b@,
            _ => false,
        }
    }
}

/// One answered call: the request, as a view, and the result.
pub type CallRecord = ((Seq<LlmMessageView>, Seq<ToolSpecView>), Result<CompleteWithToolsResponse, LlmProviderError>);

/// A model provider; what it returns is its own.  A provider that keeps a
/// record of its calls says so by `records_calls`, and then each call joins
/// its history with the result it returned.  A provider that keeps no
/// record (the default, as for providers written outside this library)
/// promises nothing of its history.
pub trait LlmProvider {
    /// Whether the provider keeps the record that `history` gives.
    open spec fn records_calls(&self) -> bool {
        false
    }

    /// The calls answered so far, in order, for a provider that records them.
    open spec fn history(&self) -> Seq<CallRecord> {
        Seq::empty()
    }

    fn complete_with_tools(&mut self, request: CompleteWithToolsRequest) -> (r: Result<
        CompleteWithToolsResponse,
        LlmProviderError,
    >)
        ensures
            final(self).records_calls() == old(self).records_calls(),
            old(self).records_calls() ==> final(self).history() == old(self).history().push((request@, r)),
    ;
}

/// A provider that answers from a fixed script, one entry per call.
pub struct ScriptedLlmProvider {
    pub responses: std::collections::VecDeque<Result<CompleteWithToolsResponse, LlmProviderError>>,
    pub calls: Ghost<Seq<CallRecord>>,
}

pub open spec fn no_script_left_reason() -> Seq<char> {
    "no scripted response available"@
}

impl ScriptedLlmProvider {
    pub fn from_responses(responses: Vec<Result<CompleteWithToolsResponse, LlmProviderError>>) -> (r:
        ScriptedLlmProvider)
        ensures
            r.responses@ == responses@,
            r.history().len() == 0,
    {
        let mut q: std::collections::VecDeque<Result<CompleteWithToolsResponse, LlmProviderError>> =
            std::collections::VecDeque::new();
        let mut rest = responses;
        let ghost all = rest@;
        while rest.len() > 0
            invariant
                q@ + rest@ == all,
            decreases rest.len(),
        {
            let x = rest.remove(0);
            q.push_back(x);
        }
        assert(q@ =~= all);
        ScriptedLlmProvider { responses: q, calls: Ghost(Seq::empty()) }
    }

    /// Takes the next scripted answer, or a call failure when none is left.
    pub fn next_response(&mut self) -> (r: Result<CompleteWithToolsResponse, LlmProviderError>)
        ensures
            final(self).calls == old(self).calls,
            old(self).responses@.len() > 0 ==> r == old(self).responses@[0]
                && final(self).responses@ == old(self).responses@.drop_first(),
            old(self).responses@.len() == 0 ==> final(self).responses@.len() == 0 && match r {
                Err(LlmProviderError::CallFailed { reason }) => reason@ == no_script_left_reason(),
                _ => false,
            },
    {
        match self.responses.pop_front() {
            Some(x) => x,
            None => Err(
                LlmProviderError::CallFailed {
                    reason: to_owned_string("no scripted response available"),
                },
            ),
        }
    }
}

impl LlmProvider for ScriptedLlmProvider {
    open spec fn records_calls(&self) -> bool {
        true
    }

    open spec fn history(&self) -> Seq<CallRecord> {
        self.calls@
    }

    /// Answers with the next scripted result, taking it from the script;
    /// an empty script answers with a call failure.
    fn complete_with_tools(&mut self, request: CompleteWithToolsRequest) -> (r: Result<
        CompleteWithToolsResponse,
        LlmProviderError,
    >)
        ensures
            old(self).responses@.len() > 0 ==> r == old(self).responses@[0]
                && final(self).responses@ == old(self).responses@.drop_first(),
            old(self).responses@.len() == 0 ==> final(self).responses@.len() == 0 && match r {
                Err(LlmProviderError::CallFailed { reason }) => reason@ == no_script_left_reason(),
                _ => false,
            },
    {
        let r = self.next_response();
        self.calls = Ghost(self.calls@.push((request@, r)));
        r
    }
}

} // verus!
