//! The Anthropic messages wire format: building a request from a
//! completion request and reading a completion from a response.
use vstd::prelude::*;
use crate::json::{JsonValue, JsonView};
use crate::llm::{
    calls_view, clone_opt_text, opt_text, CompleteWithToolsRequest, CompleteWithToolsResponse, LlmMessageView,
    MessageRole, ToolCall, ToolCallView, ToolSpecView,
};
use crate::text::{join, join_strings, push_str, to_owned_string, trim, is_blank};

verus! {

pub const DEFAULT_ANTHROPIC_BASE_URL: &'static str = "https://api.anthropic.com";
pub const ANTHROPIC_API_VERSION: &'static str = "2023-06-01";
pub const ANTHROPIC_MAX_TOKENS: u32 = 1024;

/// A content block of a message.
pub enum AnthropicBlock {
    Text { text: String },
    ToolUse { id: String, name: String, input: JsonValue },
    ToolResult { tool_use_id: String, content: String },
}

pub enum BlockView {
    Text(Seq<char>),
    ToolUse(Seq<char>, Seq<char>, JsonView),
    ToolResult(Seq<char>, Seq<char>),
}

impl AnthropicBlock {
    pub open spec fn view_of(self) -> BlockView {
        match self {
            AnthropicBlock::Text { text } => BlockView::Text(text@),
            AnthropicBlock::ToolUse { id, name, input } => BlockView::ToolUse(id@, name@, input@),
            AnthropicBlock::ToolResult { tool_use_id, content } => BlockView::ToolResult(tool_use_id@, content@),
        }
    }
}

pub open spec fn blocks_view(bs: Seq<AnthropicBlock>) -> Seq<BlockView> {
    bs.map_values(|b: AnthropicBlock| b.view_of())
}

/// A message's content: plain text or a list of blocks.
pub enum AnthropicContent {
    Text(String),
    Blocks(Vec<AnthropicBlock>),
}

pub enum ContentView {
    Text(Seq<char>),
    Blocks(Seq<BlockView>),
}

pub struct AnthropicMessage {
    pub role: String,
    pub content: AnthropicContent,
}

pub struct MessageView {
    pub role: Seq<char>,
    pub content: ContentView,
}

pub open spec fn message_view(m: AnthropicMessage) -> MessageView {
    MessageView {
        role: m.role@,
        content: match m.content {
            AnthropicContent::Text(t) => ContentView::Text(t@),
            AnthropicContent::Blocks(bs) => ContentView::Blocks(blocks_view(bs@)),
        },
    }
}

pub open spec fn messages_view(ms: Seq<AnthropicMessage>) -> Seq<MessageView> {
    ms.map_values(|m: AnthropicMessage| message_view(m))
}

pub struct AnthropicTool {
    pub name: String,
    pub description: String,
    pub input_schema: JsonValue,
}

pub open spec fn tools_view(ts: Seq<AnthropicTool>) -> Seq<ToolSpecView> {
    ts.map_values(|t: AnthropicTool| ToolSpecView { name: t.name@, description: t.description@, input_schema: t.input_schema@ })
}

/// A request to the messages endpoint.
pub struct AnthropicRequest {
    pub model: String,
    pub max_tokens: u32,
    pub system: Option<String>,
    pub messages: Vec<AnthropicMessage>,
    pub tools: Vec<AnthropicTool>,
}

/// A response of the messages endpoint.
pub struct AnthropicResponse {
    pub content: Vec<AnthropicBlock>,
}

pub open spec fn or_empty(o: Option<Seq<char>>) -> Seq<char> {
    match o {
        Some(s) => s,
        None => Seq::empty(),
    }
}

/// The texts of the system messages that are not blank, in order.
pub open spec fn system_parts(ms: Seq<LlmMessageView>) -> Seq<Seq<char>>
    decreases ms.len(),
{
    if ms.len() == 0 {
        Seq::empty()
    } else {
        let rest = system_parts(ms.drop_last());
        let m = ms.last();
        if m.role == MessageRole::System && m.content is Some && trim(m.content->0).len() > 0 {
            rest.push(m.content->0)
        } else {
            rest
        }
    }
}

/// The blocks of an assistant message with tool calls: its text when not
/// blank, then one tool use per call.
pub open spec fn assistant_blocks(content: Option<Seq<char>>, calls: Seq<ToolCallView>) -> Seq<BlockView> {
    let text = match content {
        Some(c) => if trim(c).len() > 0 {
            seq![BlockView::Text(c)]
        } else {
            Seq::empty()
        },
        None => Seq::empty(),
    };
    text + calls.map_values(|c: ToolCallView| BlockView::ToolUse(c.id, c.name, c.arguments))
}

/// The wire message of a message, if it has one: system messages go to the
/// system prompt; a tool result is a user message holding one result block.
pub open spec fn wire_message(m: LlmMessageView) -> Option<MessageView> {
    match m.role {
        MessageRole::System => None,
        MessageRole::User => Some(MessageView { role: "user"@, content: ContentView::Text(or_empty(m.content)) }),
        MessageRole::Assistant => if m.tool_calls.len() == 0 {
            Some(MessageView { role: "assistant"@, content: ContentView::Text(or_empty(m.content)) })
        } else {
            Some(
                MessageView {
                    role: "assistant"@,
                    content: ContentView::Blocks(assistant_blocks(m.content, m.tool_calls)),
                },
            )
        },
        MessageRole::Tool => Some(
            MessageView {
                role: "user"@,
                content: ContentView::Blocks(
                    seq![BlockView::ToolResult(or_empty(m.tool_call_id), or_empty(m.content))],
                ),
            },
        ),
    }
}

pub open spec fn wire_messages(ms: Seq<LlmMessageView>) -> Seq<MessageView>
    decreases ms.len(),
{
    if ms.len() == 0 {
        Seq::empty()
    } else {
        match wire_message(ms.last()) {
            Some(w) => wire_messages(ms.drop_last()).push(w),
            None => wire_messages(ms.drop_last()),
        }
    }
}

fn text_of(o: &Option<String>) -> (r: String)
    ensures
        r@ == or_empty(opt_text(*o)),
{
    match o {
        Some(t) => to_owned_string(t.as_str()),
        None => {
            let e = String::new();
            assert(e@ =~= Seq::<char>::empty());
            e
        },
    }
}

fn wire_message_of(m: &crate::llm::LlmMessage) -> (r: Option<AnthropicMessage>)
    ensures
        match r {
            Some(w) => wire_message(m@) == Some(message_view(w)),
            None => wire_message(m@) is None,
        },
{
    match m.role {
        MessageRole::System => None,
        MessageRole::User => Some(
            AnthropicMessage { role: to_owned_string("user"), content: AnthropicContent::Text(text_of(&m.content)) },
        ),
        MessageRole::Assistant => {
            if m.tool_calls.len() == 0 {
                Some(
                    AnthropicMessage {
                        role: to_owned_string("assistant"),
                        content: AnthropicContent::Text(text_of(&m.content)),
                    },
                )
            } else {
                let mut blocks: Vec<AnthropicBlock> = Vec::new();
                match &m.content {
                    Some(c) => {
                        if !is_blank(c.as_str()) {
                            blocks.push(AnthropicBlock::Text { text: to_owned_string(c.as_str()) });
                        }
                    },
                    None => {},
                }
                let ghost head = blocks_view(blocks@);
                assert(head =~= match m@.content {
                    Some(c) => if trim(c).len() > 0 {
                        seq![BlockView::Text(c)]
                    } else {
                        Seq::empty()
                    },
                    None => Seq::empty(),
                });
                let ghost cv = calls_view(m.tool_calls@);
                let mut i: usize = 0;
                while i < m.tool_calls.len()
                    invariant
                        i <= m.tool_calls@.len(),
                        cv == calls_view(m.tool_calls@),
                        blocks_view(blocks@) == head + cv.subrange(0, i as int).map_values(
                            |c: ToolCallView| BlockView::ToolUse(c.id, c.name, c.arguments),
                        ),
                    decreases m.tool_calls.len() - i,
                {
                    let call = &m.tool_calls[i];
                    let b = AnthropicBlock::ToolUse {
                        id: to_owned_string(call.id.as_str()),
                        name: to_owned_string(call.name.as_str()),
                        input: call.arguments.clone_value(),
                    };
                    let ghost before = blocks_view(blocks@);
                    blocks.push(b);
                    assert(cv[i as int] == m.tool_calls@[i as int]@);
                    assert(blocks_view(blocks@) =~= before.push(b.view_of()));
                    assert(cv.subrange(0, i + 1).map_values(
                        |c: ToolCallView| BlockView::ToolUse(c.id, c.name, c.arguments),
                    ) =~= cv.subrange(0, i as int).map_values(
                        |c: ToolCallView| BlockView::ToolUse(c.id, c.name, c.arguments),
                    ).push(b.view_of()));
                    i = i + 1;
                }
                assert(cv.subrange(0, cv.len() as int) =~= cv);
                assert(blocks_view(blocks@) =~= assistant_blocks(m@.content, m@.tool_calls));
                Some(AnthropicMessage { role: to_owned_string("assistant"), content: AnthropicContent::Blocks(blocks) })
            }
        },
        MessageRole::Tool => {
            let b = AnthropicBlock::ToolResult { tool_use_id: text_of(&m.tool_call_id), content: text_of(&m.content) };
            let blocks = vec![b];
            assert(blocks_view(blocks@) =~= seq![b.view_of()]);
            Some(AnthropicMessage { role: to_owned_string("user"), content: AnthropicContent::Blocks(blocks) })
        },
    }
}

/// The request for `model`: the non-blank system messages joined by a
/// blank line as the system prompt (none if there are none), the other
/// messages on the wire, the tools as offered, at most 1024 tokens.
pub fn to_anthropic_request(request: CompleteWithToolsRequest, model: String) -> (r: AnthropicRequest)
    ensures
        r.model@ == model@,
        r.max_tokens == ANTHROPIC_MAX_TOKENS,
        opt_text(r.system) == (if system_parts(request@.0).len() == 0 {
            None
        } else {
            Some(join(system_parts(request@.0), "\n\n"@))
        }),
        messages_view(r.messages@) == wire_messages(request@.0),
        tools_view(r.tools@) == request@.1,
{
    let ghost ms = request@.0;
    let mut system: Vec<String> = Vec::new();
    let mut messages: Vec<AnthropicMessage> = Vec::new();
    let mut i: usize = 0;
    while i < request.messages.len()
        invariant
            i <= request.messages@.len(),
            ms == request@.0,
            system@.map_values(|s: String| s@) == system_parts(ms.subrange(0, i as int)),
            messages_view(messages@) == wire_messages(ms.subrange(0, i as int)),
        decreases request.messages.len() - i,
    {
        let m = &request.messages[i];
        proof {
            let pre = ms.subrange(0, i + 1);
            assert(pre.drop_last() =~= ms.subrange(0, i as int));
            assert(pre.last() == m@);
        }
        if m.role == MessageRole::System {
            match &m.content {
                Some(c) => {
                    if !is_blank(c.as_str()) {
                        let ghost before = system@.map_values(|s: String| s@);
                        system.push(to_owned_string(c.as_str()));
                        assert(system@.map_values(|s: String| s@) =~= before.push(c@));
                    }
                },
                None => {},
            }
        }
        match wire_message_of(m) {
            Some(w) => {
                let ghost before = messages_view(messages@);
                messages.push(w);
                assert(messages_view(messages@) =~= before.push(message_view(w)));
            },
            None => {},
        }
        i = i + 1;
    }
    assert(ms.subrange(0, ms.len() as int) =~= ms);
    let mut tools: Vec<AnthropicTool> = Vec::new();
    let mut k: usize = 0;
    while k < request.tools.len()
        invariant
            k <= request.tools@.len(),
            tools_view(tools@) == request@.1.subrange(0, k as int),
        decreases request.tools.len() - k,
    {
        let t = &request.tools[k];
        let ghost before = tools_view(tools@);
        assert(request@.1[k as int] == t@);
        tools.push(
            AnthropicTool {
                name: to_owned_string(t.name.as_str()),
                description: to_owned_string(t.description.as_str()),
                input_schema: t.input_schema.clone_value(),
            },
        );
        assert(tools_view(tools@) =~= before.push(t@));
        assert(tools_view(tools@) =~= request@.1.subrange(0, k + 1));
        k = k + 1;
    }
    assert(request@.1.subrange(0, request@.1.len() as int) =~= request@.1);
    let system_prompt = if system.len() == 0 {
        None
    } else {
        Some(join_strings(&system, "\n\n"))
    };
    AnthropicRequest { model, max_tokens: ANTHROPIC_MAX_TOKENS, system: system_prompt, messages, tools }
}

/// The texts of the text blocks, in order.
pub open spec fn block_texts(bs: Seq<BlockView>) -> Seq<Seq<char>>
    decreases bs.len(),
{
    if bs.len() == 0 {
        Seq::empty()
    } else {
        match bs.last() {
            BlockView::Text(t) => block_texts(bs.drop_last()).push(t),
            _ => block_texts(bs.drop_last()),
        }
    }
}

/// The tool calls of the tool-use blocks, in order.
pub open spec fn block_calls(bs: Seq<BlockView>) -> Seq<ToolCallView>
    decreases bs.len(),
{
    if bs.len() == 0 {
        Seq::empty()
    } else {
        match bs.last() {
            BlockView::ToolUse(id, name, input) => block_calls(bs.drop_last()).push(
                ToolCallView { id, name, arguments: input },
            ),
            _ => block_calls(bs.drop_last()),
        }
    }
}

/// The completion of a response: its text blocks joined by newlines (none
/// without text) and its tool uses as tool calls; tool results are ignored.
pub fn from_anthropic_response(response: AnthropicResponse) -> (r: Result<CompleteWithToolsResponse, crate::llm::LlmProviderError>)
    ensures
        r is Ok,
        r matches Ok(c) && c@.1 == block_calls(blocks_view(response.content@)) && c@.0 == (if block_texts(
            blocks_view(response.content@),
        ).len() == 0 {
            None
        } else {
            Some(join(block_texts(blocks_view(response.content@)), "\n"@))
        }),
{
    let ghost bs = blocks_view(response.content@);
    let mut texts: Vec<String> = Vec::new();
    let mut calls: Vec<ToolCall> = Vec::new();
    let mut i: usize = 0;
    while i < response.content.len()
        invariant
            i <= response.content@.len(),
            bs == blocks_view(response.content@),
            texts@.map_values(|s: String| s@) == block_texts(bs.subrange(0, i as int)),
            calls_view(calls@) == block_calls(bs.subrange(0, i as int)),
        decreases response.content.len() - i,
    {
        proof {
            let pre = bs.subrange(0, i + 1);
            assert(pre.drop_last() =~= bs.subrange(0, i as int));
            assert(pre.last() == response.content@[i as int].view_of());
        }
        match &response.content[i] {
            AnthropicBlock::Text { text } => {
                let ghost before = texts@.map_values(|s: String| s@);
                texts.push(to_owned_string(text.as_str()));
                assert(texts@.map_values(|s: String| s@) =~= before.push(text@));
            },
            AnthropicBlock::ToolUse { id, name, input } => {
                let c = ToolCall {
                    id: to_owned_string(id.as_str()),
                    name: to_owned_string(name.as_str()),
                    arguments: input.clone_value(),
                };
                let ghost before = calls_view(calls@);
                calls.push(c);
                assert(calls_view(calls@) =~= before.push(c@));
            },
            AnthropicBlock::ToolResult { .. } => {},
        }
        i = i + 1;
    }
    assert(bs.subrange(0, bs.len() as int) =~= bs);
    let assistant_content = if texts.len() == 0 {
        None
    } else {
        Some(join_strings(&texts, "\n"))
    };
    Ok(CompleteWithToolsResponse { assistant_content, tool_calls: calls })
}

} // verus!
