use ais_agent::json::{JsonNumber, JsonValue};
use ais_agent::llm::anthropic::{
    from_anthropic_response, to_anthropic_request, AnthropicBlock, AnthropicContent, AnthropicResponse,
};
use ais_agent::llm::openai::{
    from_openai_response, openai_message_from_llm_message, parse_json_or_wrap_string, to_openai_request, OpenAiChatResponse, OpenAiChoice,
    OpenAiMessage, OpenAiToolCall, OpenAiToolFunctionCall,
};
use ais_agent::llm::{CompleteWithToolsRequest, LlmMessage, LlmProviderError, MessageRole, ToolCall, ToolSpec};

fn obj(entries: Vec<(&str, JsonValue)>) -> JsonValue {
    let mut o = JsonValue::empty_object();
    for (k, v) in entries {
        o.insert(k.to_string(), v);
    }
    o
}

fn string(s: &str) -> JsonValue {
    JsonValue::String(s.to_string())
}

fn message(role: MessageRole, content: Option<&str>) -> LlmMessage {
    LlmMessage {
        role,
        content: content.map(|c| c.to_string()),
        tool_name: None,
        tool_call_id: None,
        tool_calls: vec![],
    }
}

#[test]
fn anthropic_request_maps_system_and_tool_result() {
    let mut assistant = message(MessageRole::Assistant, Some("need tool"));
    assistant.tool_calls = vec![ToolCall {
        id: "c1".to_string(),
        name: "confirm".to_string(),
        arguments: obj(vec![("x", JsonValue::Number(JsonNumber::PosInt(1)))]),
    }];
    let mut tool = message(MessageRole::Tool, Some("{\"ok\":true}"));
    tool.tool_name = Some("confirm".to_string());
    tool.tool_call_id = Some("c1".to_string());
    let request = CompleteWithToolsRequest {
        messages: vec![message(MessageRole::System, Some("sys")), assistant, tool],
        tools: vec![ToolSpec {
            name: "confirm".to_string(),
            description: "confirm action".to_string(),
            input_schema: obj(vec![("type", string("object"))]),
        }],
    };
    let payload = to_anthropic_request(request, "anthropic-model".to_string());
    assert_eq!(payload.system.as_deref(), Some("sys"));
    assert_eq!(payload.messages.len(), 2);
    assert_eq!(payload.tools.len(), 1);
}

#[test]
fn anthropic_response_extracts_tool_calls() {
    let response = AnthropicResponse {
        content: vec![
            AnthropicBlock::Text { text: "working".to_string() },
            AnthropicBlock::ToolUse {
                id: "t1".to_string(),
                name: "confirm".to_string(),
                input: obj(vec![("decision", string("approve"))]),
            },
        ],
    };
    let parsed = from_anthropic_response(response).expect("parse");
    assert_eq!(parsed.assistant_content.as_deref(), Some("working"));
    assert_eq!(parsed.tool_calls.len(), 1);
    assert_eq!(parsed.tool_calls[0].name, "confirm");
}

#[test]
fn anthropic_request_shapes_messages() {
    let mut assistant = message(MessageRole::Assistant, Some("  "));
    assistant.tool_calls = vec![ToolCall { id: "c9".to_string(), name: "cancel".to_string(), arguments: JsonValue::Null }];
    let request = CompleteWithToolsRequest {
        messages: vec![
            message(MessageRole::System, Some("one")),
            message(MessageRole::System, Some("   ")),
            message(MessageRole::User, None),
            assistant,
            message(MessageRole::System, Some("two")),
            message(MessageRole::Tool, Some("done")),
        ],
        tools: vec![],
    };
    let payload = to_anthropic_request(request, "m".to_string());
    assert_eq!(payload.system.as_deref(), Some("one\n\ntwo"));
    assert_eq!(payload.max_tokens, 1024);
    assert_eq!(payload.messages.len(), 3);
    assert_eq!(payload.messages[0].role, "user");
    assert!(matches!(&payload.messages[0].content, AnthropicContent::Text(t) if t.is_empty()));
    match &payload.messages[1].content {
        AnthropicContent::Blocks(blocks) => {
            assert_eq!(blocks.len(), 1);
            assert!(matches!(&blocks[0], AnthropicBlock::ToolUse { id, .. } if id == "c9"));
        }
        _ => panic!("assistant tool calls are blocks"),
    }
    match &payload.messages[2].content {
        AnthropicContent::Blocks(blocks) => {
            assert!(matches!(&blocks[0], AnthropicBlock::ToolResult { tool_use_id, content } if tool_use_id.is_empty() && content == "done"));
        }
        _ => panic!("tool results are blocks"),
    }
}

#[test]
fn anthropic_response_without_text_has_no_content() {
    let response = AnthropicResponse {
        content: vec![
            AnthropicBlock::ToolResult { tool_use_id: "x".to_string(), content: "y".to_string() },
            AnthropicBlock::Text { text: "a".to_string() },
            AnthropicBlock::Text { text: "b".to_string() },
        ],
    };
    let parsed = from_anthropic_response(response).unwrap();
    assert_eq!(parsed.assistant_content.as_deref(), Some("a\nb"));
    assert!(parsed.tool_calls.is_empty());
    let empty = from_anthropic_response(AnthropicResponse { content: vec![] }).unwrap();
    assert!(empty.assistant_content.is_none());
}

#[test]
fn openai_request_maps_tools_and_messages() {
    let request = CompleteWithToolsRequest {
        messages: vec![message(MessageRole::User, Some("hello"))],
        tools: vec![ToolSpec {
            name: "confirm".to_string(),
            description: "confirm action".to_string(),
            input_schema: obj(vec![("type", string("object"))]),
        }],
    };
    let payload = to_openai_request(request, "gpt-4.1-mini".to_string());
    assert_eq!(payload.model, "gpt-4.1-mini");
    assert_eq!(payload.messages.len(), 1);
    assert_eq!(payload.tools.len(), 1);
    assert_eq!(payload.tool_choice, "auto");
    assert_eq!(payload.tools[0].kind, "function");
}

#[test]
fn openai_response_extracts_tool_calls() {
    let arguments = "{\"decision\":\"approve\"}";
    let response = OpenAiChatResponse {
        choices: vec![OpenAiChoice {
            message: OpenAiMessage {
                role: "assistant".to_string(),
                content: Some("ok".to_string()),
                tool_call_id: None,
                tool_calls: Some(vec![OpenAiToolCall {
                    id: "call-1".to_string(),
                    kind: "function".to_string(),
                    function: OpenAiToolFunctionCall {
                        name: "confirm".to_string(),
                        arguments: arguments.to_string(),
                    },
                }]),
            },
        }],
    };
    let parsed = from_openai_response(response).expect("must parse");
    assert_eq!(parsed.tool_calls.len(), 1);
    assert_eq!(parsed.tool_calls[0].name, "confirm");
    assert_eq!(parsed.tool_calls[0].arguments.to_text(), "{\"decision\":\"approve\"}");
}

#[test]
fn openai_arguments_fall_back_to_raw_text() {
    let call = |args: &str| OpenAiToolCall {
        id: "c".to_string(),
        kind: "function".to_string(),
        function: OpenAiToolFunctionCall {
            name: "n".to_string(),
            arguments: args.to_string(),
        },
    };
    let response = OpenAiChatResponse {
        choices: vec![OpenAiChoice {
            message: OpenAiMessage {
                role: "assistant".to_string(),
                content: Some("   ".to_string()),
                tool_call_id: None,
                tool_calls: Some(vec![call("not json"), call("  ")]),
            },
        }],
    };
    let parsed = from_openai_response(response).unwrap();
    assert!(parsed.assistant_content.is_none());
    assert_eq!(parsed.tool_calls[0].arguments.to_text(), "{\"raw\":\"not json\"}");
    assert_eq!(parsed.tool_calls[1].arguments.to_text(), "{}");
    let none = from_openai_response(OpenAiChatResponse { choices: vec![] });
    assert!(matches!(none, Err(LlmProviderError::DecodeFailed { reason }) if reason == "openai response has no choices"));
}

#[test]
fn openai_message_serializes_tool_arguments() {
    let mut m = message(MessageRole::Assistant, None);
    m.tool_calls = vec![ToolCall {
        id: "c1".to_string(),
        name: "confirm".to_string(),
        arguments: obj(vec![("note", string("a\"b\n")), ("n", JsonValue::Number(JsonNumber::NegInt(-3)))]),
    }];
    let w = openai_message_from_llm_message(m);
    assert_eq!(w.role, "assistant");
    assert!(w.content.is_none());
    let calls = w.tool_calls.unwrap();
    assert_eq!(calls[0].kind, "function");
    assert_eq!(calls[0].function.arguments, "{\"n\":-3,\"note\":\"a\\\"b\\n\"}");
    let u = openai_message_from_llm_message(message(MessageRole::Tool, None));
    assert_eq!(u.role, "tool");
    assert_eq!(u.content.as_deref(), Some(""));
    assert!(u.tool_calls.is_none());
}

#[test]
fn tool_arguments_parse_as_json_or_wrap_the_raw_text() {
    let v = parse_json_or_wrap_string("{\"b\":[1,-2,2.5],\"a\":null}".to_string()).unwrap();
    assert_eq!(v.to_text(), "{\"a\":null,\"b\":[1,-2,2.5]}");
    assert!(matches!(v.pointer("/b/1"), Some(JsonValue::Number(JsonNumber::NegInt(-2)))));
    assert_eq!(parse_json_or_wrap_string("oops".to_string()).unwrap().to_text(), "{\"raw\":\"oops\"}");
    assert_eq!(parse_json_or_wrap_string(" \n".to_string()).unwrap().to_text(), "{}");
    assert_eq!(parse_json_or_wrap_string("\"s\"".to_string()).unwrap().to_text(), "\"s\"");
}
