//! The OpenAI-compatible chat completions wire format: building a request
//! from a completion request and reading a completion from a response.
use vstd::prelude::*;
use crate::json::{JsonNumber, JsonValue, JsonView, json_text, obj_insert};
use crate::llm::{
    calls_view, opt_text, CompleteWithToolsRequest, CompleteWithToolsResponse, LlmMessage, LlmMessageView,
    LlmProviderError, MessageRole, ToolCall, ToolCallView, ToolSpec, ToolSpecView,
};
use crate::text::{is_blank, to_owned_string, trim};

verus! {

pub const DEFAULT_OPENAI_BASE_URL: &'static str = "https://api.openai.com/v1";

/// The function a tool call invokes: its name and its arguments as JSON
/// text.
pub struct OpenAiToolFunctionCall {
    pub name: String,
    pub arguments: String,
}

/// A tool call on the wire; its `kind` is sent as `type`.
pub struct OpenAiToolCall {
    pub id: String,
    pub kind: String,
    pub function: OpenAiToolFunctionCall,
}

pub struct OpenAiMessage {
    pub role: String,
    pub content: Option<String>,
    pub tool_call_id: Option<String>,
    pub tool_calls: Option<Vec<OpenAiToolCall>>,
}

pub struct OpenAiToolFunction {
    pub name: String,
    pub description: String,
    pub parameters: JsonValue,
}

/// A tool offered on the wire; its `kind` is sent as `type`.
pub struct OpenAiTool {
    pub kind: String,
    pub function: OpenAiToolFunction,
}

pub struct OpenAiChatRequest {
    pub model: String,
    pub messages: Vec<OpenAiMessage>,
    pub tools: Vec<OpenAiTool>,
    pub tool_choice: String,
}

pub struct OpenAiChoice {
    pub message: OpenAiMessage,
}

pub struct OpenAiChatResponse {
    pub choices: Vec<OpenAiChoice>,
}

/// A wire tool call as plain values: id, type, function name and
/// arguments text.
pub struct WireCallView {
    pub id: Seq<char>,
    pub kind: Seq<char>,
    pub name: Seq<char>,
    pub arguments: Seq<char>,
}

pub struct WireMessageView {
    pub role: Seq<char>,
    pub content: Option<Seq<char>>,
    pub tool_call_id: Option<Seq<char>>,
    pub tool_calls: Option<Seq<WireCallView>>,
}

pub open spec fn wire_call_view(c: OpenAiToolCall) -> WireCallView {
    WireCallView { id: c.id@, kind: c.kind@, name: c.function.name@, arguments: c.function.arguments@ }
}

pub open spec fn wire_calls_view(cs: Seq<OpenAiToolCall>) -> Seq<WireCallView> {
    cs.map_values(|c: OpenAiToolCall| wire_call_view(c))
}

pub open spec fn wire_message_view(m: OpenAiMessage) -> WireMessageView {
    WireMessageView {
        role: m.role@,
        content: opt_text(m.content),
        tool_call_id: opt_text(m.tool_call_id),
        tool_calls: match m.tool_calls {
            Some(cs) => Some(wire_calls_view(cs@)),
            None => None,
        },
    }
}

pub open spec fn role_name(r: MessageRole) -> Seq<char> {
    match r {
        MessageRole::System => "system"@,
        MessageRole::User => "user"@,
        MessageRole::Assistant => "assistant"@,
        MessageRole::Tool => "tool"@,
    }
}

/// A tool call sent back to the model: a function call whose arguments are
/// their compact JSON text.
pub open spec fn call_on_wire(c: ToolCallView) -> WireCallView {
    WireCallView { id: c.id, kind: "function"@, name: c.name, arguments: json_text(c.arguments) }
}

/// A message on the wire: its role's name; its content (empty when
/// missing), left out when empty and the message has tool calls; its tool
/// call id; its tool calls, when it has any.
pub open spec fn message_on_wire(m: LlmMessageView) -> WireMessageView {
    let content = match m.content {
        Some(c) => c,
        None => Seq::empty(),
    };
    let has_calls = m.tool_calls.len() > 0;
    WireMessageView {
        role: role_name(m.role),
        content: if content.len() == 0 && has_calls {
            None
        } else {
            Some(content)
        },
        tool_call_id: m.tool_call_id,
        tool_calls: if has_calls {
            Some(m.tool_calls.map_values(|c: ToolCallView| call_on_wire(c)))
        } else {
            None
        },
    }
}

fn role_str(r: MessageRole) -> (s: &'static str)
    ensures
        s@ == role_name(r),
{
    match r {
        MessageRole::System => "system",
        MessageRole::User => "user",
        MessageRole::Assistant => "assistant",
        MessageRole::Tool => "tool",
    }
}

pub fn openai_message_from_llm_message(message: LlmMessage) -> (r: OpenAiMessage)
    ensures
        wire_message_view(r) == message_on_wire(message@),
{
    let content = match &message.content {
        Some(c) => to_owned_string(c.as_str()),
        None => {
            let e = String::new();
            assert(e@ =~= Seq::<char>::empty());
            e
        },
    };
    let tool_calls = if message.tool_calls.len() == 0 {
        None
    } else {
        let ghost cv = calls_view(message.tool_calls@);
        let mut out: Vec<OpenAiToolCall> = Vec::new();
        let mut i: usize = 0;
        while i < message.tool_calls.len()
            invariant
                i <= message.tool_calls@.len(),
                cv == calls_view(message.tool_calls@),
                wire_calls_view(out@) == cv.subrange(0, i as int).map_values(|c: ToolCallView| call_on_wire(c)),
            decreases message.tool_calls.len() - i,
        {
            let call = &message.tool_calls[i];
            let w = OpenAiToolCall {
                id: to_owned_string(call.id.as_str()),
                kind: to_owned_string("function"),
                function: OpenAiToolFunctionCall {
                    name: to_owned_string(call.name.as_str()),
                    arguments: call.arguments.to_text(),
                },
            };
            let ghost before = wire_calls_view(out@);
            out.push(w);
            assert(cv[i as int] == call@);
            assert(wire_calls_view(out@) =~= before.push(wire_call_view(w)));
            assert(cv.subrange(0, i + 1).map_values(|c: ToolCallView| call_on_wire(c)) =~= cv.subrange(
                0,
                i as int,
            ).map_values(|c: ToolCallView| call_on_wire(c)).push(call_on_wire(cv[i as int])));
            i = i + 1;
        }
        assert(cv.subrange(0, cv.len() as int) =~= cv);
        Some(out)
    };
    let has_calls = tool_calls.is_some();
    let content_out = if content.as_str().unicode_len() == 0 && has_calls {
        None
    } else {
        Some(content)
    };
    let tool_call_id = match &message.tool_call_id {
        Some(t) => Some(to_owned_string(t.as_str())),
        None => None,
    };
    OpenAiMessage { role: to_owned_string(role_str(message.role)), content: content_out, tool_call_id, tool_calls }
}

pub open spec fn tool_on_wire(t: ToolSpecView) -> (Seq<char>, Seq<char>, Seq<char>, JsonView) {
    ("function"@, t.name, t.description, t.input_schema)
}

pub open spec fn wire_tool_view(t: OpenAiTool) -> (Seq<char>, Seq<char>, Seq<char>, JsonView) {
    (t.kind@, t.function.name@, t.function.description@, t.function.parameters@)
}

pub fn openai_tool_from_spec(spec: ToolSpec) -> (r: OpenAiTool)
    ensures
        wire_tool_view(r) == tool_on_wire(spec@),
{
    OpenAiTool {
        kind: to_owned_string("function"),
        function: OpenAiToolFunction {
            name: to_owned_string(spec.name.as_str()),
            description: to_owned_string(spec.description.as_str()),
            parameters: spec.input_schema.clone_value(),
        },
    }
}

/// The request for `model`: every message and tool on the wire, the model
/// left to choose its tools.
pub fn to_openai_request(request: CompleteWithToolsRequest, model: String) -> (r: OpenAiChatRequest)
    ensures
        r.model@ == model@,
        r.tool_choice@ == "auto"@,
        r.messages@.map_values(|m: OpenAiMessage| wire_message_view(m)) == request@.0.map_values(
            |m: LlmMessageView| message_on_wire(m),
        ),
        r.tools@.map_values(|t: OpenAiTool| wire_tool_view(t)) == request@.1.map_values(
            |t: ToolSpecView| tool_on_wire(t),
        ),
{
    let ghost ms = request@.0;
    let ghost ts = request@.1;
    let CompleteWithToolsRequest { messages, tools } = request;
    let mut out_messages: Vec<OpenAiMessage> = Vec::new();
    let mut i: usize = 0;
    while i < messages.len()
        invariant
            i <= messages@.len(),
            ms == Seq::new(messages@.len(), |k: int| messages@[k]@),
            out_messages@.len() == i,
            forall|k: int| 0 <= k < i ==> #[trigger] wire_message_view(out_messages@[k]) == message_on_wire(ms[k]),
        decreases messages.len() - i,
    {
        let m = messages[i].clone_message();
        out_messages.push(openai_message_from_llm_message(m));
        i = i + 1;
    }
    assert(out_messages@.map_values(|m: OpenAiMessage| wire_message_view(m)) =~= ms.map_values(
        |m: LlmMessageView| message_on_wire(m),
    ));
    let mut out_tools: Vec<OpenAiTool> = Vec::new();
    let mut k: usize = 0;
    while k < tools.len()
        invariant
            k <= tools@.len(),
            ts == Seq::new(tools@.len(), |j: int| tools@[j]@),
            out_tools@.len() == k,
            forall|j: int| 0 <= j < k ==> #[trigger] wire_tool_view(out_tools@[j]) == tool_on_wire(ts[j]),
        decreases tools.len() - k,
    {
        let t = tools[k].clone_spec();
        out_tools.push(openai_tool_from_spec(t));
        k = k + 1;
    }
    assert(out_tools@.map_values(|t: OpenAiTool| wire_tool_view(t)) =~= ts.map_values(
        |t: ToolSpecView| tool_on_wire(t),
    ));
    OpenAiChatRequest { model, messages: out_messages, tools: out_tools, tool_choice: to_owned_string("auto") }
}

/// The arguments of a tool call: `{}` for blank text; else what the text
/// parses to, or `{"raw": text}` when it does not parse.
pub open spec fn arguments_spec(raw: Seq<char>, parsed: Option<JsonView>) -> JsonView {
    if trim(raw).len() == 0 {
        JsonView::Object(Seq::empty())
    } else {
        match parsed {
            Some(v) => v,
            None => JsonView::Object(obj_insert(Seq::empty(), "raw"@, JsonView::Str(raw))),
        }
    }
}

/// A parsed JSON document of `serde_json`, carried opaquely.
#[verifier::external_type_specification]
#[verifier::external_body]
pub struct ExSerdeJsonValue(serde_json::Value);

/// The JSON value that `text` parses to, when it is JSON text.
pub uninterp spec fn json_parse(text: Seq<char>) -> Option<JsonView>;

/// `serde_json::from_str` into a `serde_json::Value`, converted to a
/// `JsonValue`: claimed to give the value that the text parses to, or
/// `None` when it is not JSON text.
#[verifier::external_body]
pub(crate) fn parse_json_text(text: &str) -> (r: Option<JsonValue>)
    ensures
        match r {
            Some(v) => json_parse(text@) == Some(v@),
            None => json_parse(text@) is None,
        },
{
    serde_json::from_str::<serde_json::Value>(text).ok().map(value_from_serde)
}

/// The conversion of a parsed `serde_json::Value`, variant by variant.
#[verifier::external_body]
fn value_from_serde(v: serde_json::Value) -> JsonValue {
    match v {
        serde_json::Value::Null => JsonValue::Null,
        serde_json::Value::Bool(b) => JsonValue::Bool(b),
        serde_json::Value::Number(n) => JsonValue::Number(match (n.as_u64(), n.as_i64()) {
            (Some(u), _) => JsonNumber::PosInt(u),
            (None, Some(i)) => JsonNumber::NegInt(i),
            _ => JsonNumber::Decimal(n.to_string()),
        }),
        serde_json::Value::String(s) => JsonValue::String(s),
        serde_json::Value::Array(xs) => JsonValue::Array(xs.into_iter().map(value_from_serde).collect()),
        serde_json::Value::Object(m) => JsonValue::Object(m.into_iter().map(|(k, x)| (k, value_from_serde(x))).collect()),
    }
}

/// The arguments of a tool call: `{}` for blank text, what the text parses
/// to as JSON, or `{"raw": text}` when it does not parse.
pub fn parse_json_or_wrap_string(raw: String) -> (r: Result<JsonValue, LlmProviderError>)
    ensures
        r matches Ok(v) && v@ == arguments_spec(raw@, json_parse(raw@)),
{
    if is_blank(raw.as_str()) {
        return Ok(JsonValue::empty_object());
    }
    match parse_json_text(raw.as_str()) {
        Some(v) => Ok(v),
        None => {
            let mut o = JsonValue::empty_object();
            o.insert(to_owned_string("raw"), JsonValue::String(raw));
            Ok(o)
        },
    }
}

pub open spec fn decoded_call(c: OpenAiToolCall) -> ToolCallView {
    ToolCallView {
        id: c.id@,
        name: c.function.name@,
        arguments: arguments_spec(c.function.arguments@, json_parse(c.function.arguments@)),
    }
}

pub fn decode_openai_tool_call(call: OpenAiToolCall) -> (r: Result<ToolCall, LlmProviderError>)
    ensures
        r matches Ok(c) && c@ == decoded_call(call),
{
    let OpenAiToolCall { id, kind, function } = call;
    let OpenAiToolFunctionCall { name, arguments } = function;
    match parse_json_or_wrap_string(arguments) {
        Ok(a) => Ok(ToolCall { id, name, arguments: a }),
        Err(e) => Err(e),
    }
}

/// The completion of the first choice: its content unless blank, and its
/// tool calls decoded; a response without choices is a decode failure.
pub fn from_openai_response(response: OpenAiChatResponse) -> (r: Result<CompleteWithToolsResponse, LlmProviderError>)
    ensures
        response.choices@.len() == 0 <==> r is Err,
        r is Err ==> (r matches Err(LlmProviderError::DecodeFailed { reason }) && reason@
            == "openai response has no choices"@),
        r matches Ok(c) ==> ({
            let m = response.choices@[0].message;
            &&& c@.0 == match m.content {
                Some(t) => if trim(t@).len() > 0 {
                    Some(t@)
                } else {
                    None
                },
                None => None,
            }
            &&& c@.1 == match m.tool_calls {
                Some(cs) => cs@.map_values(|x: OpenAiToolCall| decoded_call(x)),
                None => Seq::empty(),
            }
        }),
{
    let OpenAiChatResponse { mut choices } = response;
    if choices.len() == 0 {
        return Err(LlmProviderError::DecodeFailed { reason: to_owned_string("openai response has no choices") });
    }
    let choice = choices.remove(0);
    let OpenAiChoice { message } = choice;
    let OpenAiMessage { role, content, tool_call_id, tool_calls } = message;
    let assistant_content = match content {
        Some(t) => if is_blank(t.as_str()) {
            None
        } else {
            Some(t)
        },
        None => None,
    };
    let mut calls: Vec<ToolCall> = Vec::new();
    match tool_calls {
        Some(mut cs) => {
            let ghost all = cs@;
            let n = cs.len();
            let mut taken: usize = 0;
            while cs.len() > 0
                invariant
                    n == all.len(),
                    taken + cs@.len() == all.len(),
                    cs@ == all.subrange(taken as int, all.len() as int),
                    calls_view(calls@) == all.subrange(0, taken as int).map_values(|x: OpenAiToolCall| decoded_call(x)),
                decreases cs.len(),
            {
                let c = cs.remove(0);
                let ghost before = calls_view(calls@);
                match decode_openai_tool_call(c) {
                    Ok(tc) => {
                        calls.push(tc);
                        assert(calls_view(calls@) =~= before.push(tc@));
                    },
                    Err(e) => return Err(e),
                }
                assert(all.subrange(0, taken + 1).map_values(|x: OpenAiToolCall| decoded_call(x)) =~= all.subrange(
                    0,
                    taken as int,
                ).map_values(|x: OpenAiToolCall| decoded_call(x)).push(decoded_call(all[taken as int])));
                assert(cs@ =~= all.subrange(taken + 1, all.len() as int));
                taken = taken + 1;
            }
            assert(all.subrange(0, all.len() as int) =~= all);
        },
        None => {
            assert(calls_view(calls@) =~= Seq::<ToolCallView>::empty());
        },
    }
    Ok(CompleteWithToolsResponse { assistant_content, tool_calls: calls })
}

} // verus!
