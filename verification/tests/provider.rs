use cordy::engine::agent::assemble;
use cordy::engine::types::{
    Caps, ChatRequest, ContentBlock, Message, Role, ToolOutput, ToolSpec, Usage, WireEvent,
};
use cordy::json::{self, Json, Number};
use cordy::provider::anthropic_messages::{coalesce_roles, Anthropic, AnthropicStreamParser};
use cordy::provider::models_list::{model_ids, models_url};
use cordy::provider::openai_chat::{
    error_reason, extract_error_message, http_error, ChatStreamParser, OpenAiChat,
};
use cordy::provider::openai_compatible::openai_compatible;
use cordy::provider::openai_responses::{OpenAiResponses, ResponsesStreamParser};
use cordy::provider::retry::{
    after_failure, backoff_delay, is_client_error, jitter_ms, jitter_of, RetryStep,
};
use serde_json::Value;

fn to_value(v: &Json) -> Value {
    match v {
        Json::Null => Value::Null,
        Json::Bool(b) => Value::Bool(*b),
        Json::Number(Number::PosInt(n)) => Value::from(*n),
        Json::Number(Number::NegInt(n)) => Value::from(*n),
        Json::Number(Number::Float(t)) => Value::from(t.parse::<f64>().unwrap()),
        Json::Str(s) => Value::from(s.as_str()),
        Json::Array(a) => Value::Array(a.iter().map(to_value).collect()),
        Json::Object(m) => Value::Object(m.iter().map(|(k, v)| (k.clone(), to_value(v))).collect()),
    }
}

fn payloads(raw: &str) -> Vec<&str> {
    raw.lines().filter_map(|l| l.strip_prefix("data: ")).collect()
}

fn chat_events(raw: &str) -> Vec<WireEvent> {
    let mut parser = ChatStreamParser::default();
    payloads(raw).into_iter().flat_map(|p| parser.push(p)).collect()
}

fn anthropic_events(raw: &str) -> Vec<WireEvent> {
    let mut parser = AnthropicStreamParser::default();
    payloads(raw).into_iter().flat_map(|p| parser.push(p)).collect()
}

fn responses_events(raw: &str) -> Vec<WireEvent> {
    let mut parser = ResponsesStreamParser::default();
    payloads(raw).into_iter().flat_map(|p| parser.push(p)).collect()
}

fn usage(input_tokens: u64, output_tokens: u64) -> Usage {
    Usage {
        input_tokens,
        output_tokens,
        cache_read: 0,
        cache_write: 0,
    }
}

fn object_type() -> Json {
    let mut m = json::members();
    json::put(&mut m, "type", json::string("object"));
    json::object(m)
}

fn request(max_tokens: Option<u32>) -> ChatRequest {
    ChatRequest {
        model: String::new(),
        system: "be terse".into(),
        messages: vec![Message::user("hi")],
        tools: vec![ToolSpec {
            name: "read".into(),
            description: "read a file".into(),
            input_schema: object_type(),
        }],
        max_tokens,
        temperature: None,
    }
}

fn tool_call(text: &str, id: &str, name: &str, used: Usage) -> Vec<WireEvent> {
    vec![
        WireEvent::TextDelta(text.into()),
        WireEvent::TextDelta(if name == "edit" { "the file." } else { "file." }.into()),
        WireEvent::ToolUseStart {
            id: id.into(),
            name: name.into(),
        },
        WireEvent::ToolInputDelta {
            id: id.into(),
            json: "{\"path\":".into(),
        },
        WireEvent::ToolInputDelta {
            id: id.into(),
            json: "\"a.rs\"}".into(),
        },
        WireEvent::ToolUseEnd { id: id.into() },
        WireEvent::Usage(used),
        WireEvent::Done,
    ]
}

// ---- Anthropic ------------------------------------------------------------------------------

const ANTHROPIC: &str = r#"event: message_start
data: {"type":"message_start","message":{"usage":{"input_tokens":25,"output_tokens":1}}}

data: {"type":"content_block_start","index":0,"content_block":{"type":"text","text":""}}
data: {"type":"content_block_delta","index":0,"delta":{"type":"text_delta","text":"Reading "}}
data: {"type":"content_block_delta","index":0,"delta":{"type":"text_delta","text":"file."}}
data: {"type":"content_block_stop","index":0}
data: {"type":"content_block_start","index":1,"content_block":{"type":"tool_use","id":"toolu_1","name":"read","input":{}}}
data: {"type":"content_block_delta","index":1,"delta":{"type":"input_json_delta","partial_json":"{\"path\":"}}
data: {"type":"content_block_delta","index":1,"delta":{"type":"input_json_delta","partial_json":"\"a.rs\"}"}}
data: {"type":"content_block_stop","index":1}
data: {"type":"message_delta","delta":{"stop_reason":"tool_use"},"usage":{"output_tokens":15}}
data: {"type":"message_stop"}
"#;

#[test]
fn anthropic_messages_golden_toolcall_stream() {
    assert_eq!(
        anthropic_events(ANTHROPIC),
        tool_call("Reading ", "toolu_1", "read", usage(25, 15))
    );
}

#[test]
fn anthropic_messages_parser_output_assembles_to_message() {
    let (msg, usage) = assemble(anthropic_events(ANTHROPIC)).unwrap();
    assert_eq!(msg.content[0], ContentBlock::text("Reading file."));
    assert!(matches!(&msg.content[1], ContentBlock::ToolUse { name, .. } if name == "read"));
    assert_eq!(usage.output_tokens, 15);
}

#[test]
fn to_wire_uses_system_field_and_block_content() {
    let p = Anthropic::new("k", "opus-x");
    let body = to_value(&p.to_wire(&request(None)));
    assert_eq!(body["model"], "opus-x");
    assert_eq!(body["system"][0]["text"], "be terse");
    assert_eq!(body["system"][0]["cache_control"]["type"], "ephemeral");
    assert_eq!(body["max_tokens"], 4096);
    assert_eq!(body["messages"][0]["content"][0]["type"], "text");
    assert_eq!(body["tools"][0]["name"], "read");
    assert_eq!(body["tools"][0]["cache_control"]["type"], "ephemeral");
}

#[test]
fn roles_alternate_once_coalesced() {
    let result = |id: &str| Message {
        role: Role::Tool,
        content: vec![ContentBlock::ToolResult {
            id: id.into(),
            out: ToolOutput::ok("x"),
        }],
    };
    let wire = coalesce_roles(&vec![
        Message::user("a"),
        result("1"),
        Message::user("b"),
        Message::assistant(vec![ContentBlock::text("c")]),
        Message::assistant(vec![ContentBlock::text("d")]),
    ]);
    assert_eq!(wire.len(), 2);
    assert!(!wire[0].from_assistant);
    assert_eq!(wire[0].content.len(), 3);
    assert!(wire[1].from_assistant);
    assert_eq!(wire[1].content.len(), 2);
}

// ---- OpenAI Chat ----------------------------------------------------------------------------

const CHAT: &str = r#"data: {"choices":[{"index":0,"delta":{"role":"assistant","content":"Editing "}}]}
data: {"choices":[{"index":0,"delta":{"content":"the file."}}]}
data: {"choices":[{"index":0,"delta":{"tool_calls":[{"index":0,"id":"call_abc","type":"function","function":{"name":"edit","arguments":""}}]}}]}
data: {"choices":[{"index":0,"delta":{"tool_calls":[{"index":0,"function":{"arguments":"{\"path\":"}}]}}]}
data: {"choices":[{"index":0,"delta":{"tool_calls":[{"index":0,"function":{"arguments":"\"a.rs\"}"}}]}}]}
data: {"choices":[{"index":0,"delta":{},"finish_reason":"tool_calls"}]}
data: {"choices":[],"usage":{"prompt_tokens":42,"completion_tokens":18}}
data: [DONE]
"#;

#[test]
fn openai_chat_golden_toolcall_stream() {
    assert_eq!(
        chat_events(CHAT),
        tool_call("Editing ", "call_abc", "edit", usage(42, 18))
    );
}

#[test]
fn openai_chat_parser_output_assembles_to_message() {
    // The parser output must drive the agent assembler to a correct Message.
    let (msg, usage) = assemble(chat_events(CHAT)).unwrap();
    assert_eq!(msg.content.len(), 2);
    assert_eq!(msg.content[0], ContentBlock::text("Editing the file."));
    assert!(matches!(&msg.content[1], ContentBlock::ToolUse { name, .. } if name == "edit"));
    assert_eq!(usage.input_tokens, 42);
}

#[test]
fn parses_explicit_null_fields() {
    // Some OpenAI-compatible servers (byesu) send `"tool_calls":null` and other explicit
    // nulls in the delta. A plain Vec would fail to parse null; the content must survive.
    let raw = "data: {\"choices\":[{\"index\":0,\"delta\":{\"role\":\"assistant\",\"content\":\"works\",\"reasoning_content\":null,\"tool_calls\":null},\"finish_reason\":null,\"native_finish_reason\":null}]}\n\
        data: {\"choices\":[{\"index\":0,\"delta\":{\"content\":\"\",\"tool_calls\":null},\"finish_reason\":\"stop\"}],\"usage\":{\"completion_tokens\":1,\"prompt_tokens\":6,\"total_tokens\":7}}\n\
        data: [DONE]\n";
    assert_eq!(
        chat_events(raw),
        vec![
            WireEvent::TextDelta("works".into()),
            WireEvent::Usage(usage(6, 1)),
            WireEvent::Done,
        ]
    );
}

#[test]
fn extracts_error_reason_from_body() {
    assert_eq!(
        extract_error_message(r#"{"error":{"message":"model not found","code":404}}"#),
        "model not found"
    );
    assert_eq!(
        extract_error_message(r#"{"message":"bad request"}"#),
        "bad request"
    );
    assert_eq!(extract_error_message("plain text oops"), "plain text oops");
    assert_eq!(extract_error_message("  "), "(no response body)");
    assert_eq!(error_reason(None, "plain text oops"), "plain text oops");
}

#[test]
fn client_errors_are_told_from_server_errors() {
    let client = http_error(404, "404 Not Found", r#"{"message":"no such model"}"#);
    assert!(client.contains("no such model"), "{client}");
    assert!(is_client_error(None, &client));
    let server = http_error(503, "503 Service Unavailable", "");
    assert!(!is_client_error(None, &server), "{server}");
    assert!(is_client_error(Some(401), "whatever"));
    assert!(!is_client_error(Some(500), "whatever"));
}

#[test]
fn to_wire_shapes_tools_and_messages() {
    let p = OpenAiChat::new("k", "gpt-x");
    let body = to_value(&p.to_wire(&request(Some(256))));
    assert_eq!(body["model"], "gpt-x");
    assert_eq!(body["stream"], true);
    assert_eq!(body["messages"][0]["role"], "system");
    assert_eq!(body["messages"][1]["content"], "hi");
    assert_eq!(body["tools"][0]["function"]["name"], "read");
    assert_eq!(body["max_tokens"], 256);
}

#[test]
fn a_tool_result_is_a_message_of_its_own() {
    let mut req = request(None);
    req.messages = vec![Message {
        role: Role::Tool,
        content: vec![ContentBlock::ToolResult {
            id: "c1".into(),
            out: ToolOutput::ok("done"),
        }],
    }];
    let body = to_value(&OpenAiChat::new("k", "m").to_wire(&req));
    assert_eq!(body["messages"][1]["role"], "tool");
    assert_eq!(body["messages"][1]["tool_call_id"], "c1");
    assert_eq!(body["messages"][1]["content"], "done");
}

#[test]
fn endpoints_follow_the_base_url() {
    let p = openai_compatible("http://localhost:11434/v1", "k", "m");
    assert_eq!(p.endpoint(), "http://localhost:11434/v1/chat/completions");
    assert!(p.caps().tools);
    let caps = Caps {
        images: true,
        ..Caps::default()
    };
    assert!(OpenAiChat::new("k", "m").with_caps(caps).caps().images);
    assert!(Anthropic::new("k", "m").with_base_url("http://x").endpoint().starts_with("http://x"));
    assert_eq!(models_url("http://x/v1/"), "http://x/v1/models");
}

// ---- OpenAI Responses -----------------------------------------------------------------------

const RESPONSES: &str = r#"data: {"type":"response.created","response":{"id":"r1"}}
data: {"type":"response.output_text.delta","delta":"Reading "}
data: {"type":"response.output_text.delta","delta":"file."}
data: {"type":"response.output_item.added","item":{"type":"function_call","id":"fc_1","call_id":"call_1","name":"read","arguments":""}}
data: {"type":"response.function_call_arguments.delta","item_id":"fc_1","delta":"{\"path\":"}
data: {"type":"response.function_call_arguments.delta","item_id":"fc_1","delta":"\"a.rs\"}"}
data: {"type":"response.output_item.done","item":{"type":"function_call","id":"fc_1","call_id":"call_1","name":"read"}}
data: {"type":"response.completed","response":{"usage":{"input_tokens":30,"output_tokens":12}}}
"#;

#[test]
fn openai_responses_golden_toolcall_stream() {
    assert_eq!(
        responses_events(RESPONSES),
        tool_call("Reading ", "call_1", "read", usage(30, 12))
    );
}

#[test]
fn to_wire_uses_input_items_and_instructions() {
    let p = OpenAiResponses::new("k", "gpt-x");
    let body = to_value(&p.to_wire(&request(Some(128))));
    assert_eq!(body["instructions"], "be terse");
    assert_eq!(body["input"][0]["content"][0]["type"], "input_text");
    assert_eq!(body["tools"][0]["type"], "function");
    assert_eq!(body["max_output_tokens"], 128);
}

#[test]
fn payloads_that_are_no_json_are_passed_over_or_reported() {
    assert!(AnthropicStreamParser::default().push("not json").len() <= 1);
    assert!(ResponsesStreamParser::default().push("not json").len() <= 1);
    assert!(ChatStreamParser::default().push("not json").len() <= 1);
}

// ---- retries --------------------------------------------------------------------------------

#[test]
fn backoff_grows_exponentially() {
    assert_eq!(backoff_delay(0, 0), 500);
    assert_eq!(backoff_delay(1, 0), 1000);
    assert_eq!(backoff_delay(3, 10), 4010);
    // Shift is capped so it never overflows.
    assert_eq!(backoff_delay(50, 0), 500 * 32);
}

#[test]
fn failures_are_retried_until_the_limit() {
    assert_eq!(
        after_failure(0, 2, false, 7),
        RetryStep::Wait {
            delay_ms: 507,
            attempt: 1
        }
    );
    assert_eq!(after_failure(2, 2, false, 7), RetryStep::GiveUp);
    assert_eq!(after_failure(0, 2, true, 7), RetryStep::GiveUp);
}

#[test]
fn jitter_stays_below_a_quarter_second() {
    assert_eq!(jitter_of(0, 1), 256 % 250);
    for _ in 0..100 {
        assert!(jitter_ms() < 250);
    }
}

#[test]
fn model_ids_are_sorted() {
    let v = |id: &str| {
        let mut m = json::members();
        json::put(&mut m, "id", json::string(id));
        json::object(m)
    };
    let mut m = json::members();
    json::put(&mut m, "data", json::array(vec![v("b"), v("a"), v("b")]));
    let ids = model_ids(&json::object(m));
    assert!(ids.contains(&"a".to_string()) && ids.contains(&"b".to_string()));
    assert!(ids.windows(2).all(|w| w[0] <= w[1]));
}

#[test]
fn every_provider_is_told_the_same_conversation() {
    let mut input = json::members();
    json::put(&mut input, "path", json::string("a.rs"));
    let mut req = request(None);
    req.messages = vec![
        Message {
            role: Role::User,
            content: vec![
                ContentBlock::text("look at this"),
                ContentBlock::Image {
                    media_type: "image/png".into(),
                    data: "AAAA".into(),
                },
            ],
        },
        Message::assistant(vec![
            ContentBlock::Thinking {
                text: "hm".into(),
            },
            ContentBlock::text("reading"),
            ContentBlock::ToolUse {
                id: "c1".into(),
                name: "read".into(),
                input: json::object(input),
            },
        ]),
        Message {
            role: Role::Tool,
            content: vec![ContentBlock::ToolResult {
                id: "c1".into(),
                out: ToolOutput::ok("fn main() {}"),
            }],
        },
        Message::user("thanks"),
    ];

    let chat = to_value(&OpenAiChat::new("k", "m").to_wire(&req));
    let m = &chat["messages"];
    assert_eq!(m[1]["content"][0]["text"], "look at this");
    assert_eq!(
        m[1]["content"][1]["image_url"]["url"],
        "data:image/png;base64,AAAA"
    );
    assert_eq!(m[2]["content"], "reading");
    assert_eq!(m[2]["tool_calls"][0]["id"], "c1");
    assert_eq!(m[2]["tool_calls"][0]["function"]["name"], "read");
    assert_eq!(
        m[2]["tool_calls"][0]["function"]["arguments"],
        r#"{"path":"a.rs"}"#
    );
    assert_eq!(m[3]["tool_call_id"], "c1");
    assert_eq!(m[3]["content"], "fn main() {}");
    assert_eq!(m[4]["content"], "thanks");

    let responses = to_value(&OpenAiResponses::new("k", "m").to_wire(&req));
    let i = &responses["input"];
    assert_eq!(i[0]["content"][0]["text"], "look at this");
    assert_eq!(i[0]["content"][1]["image_url"], "data:image/png;base64,AAAA");
    assert_eq!(i[1]["content"][0]["text"], "reading");
    assert_eq!(i[2]["call_id"], "c1");
    assert_eq!(i[2]["name"], "read");
    assert_eq!(i[2]["arguments"], r#"{"path":"a.rs"}"#);
    assert_eq!(i[3]["call_id"], "c1");
    assert_eq!(i[3]["output"], "fn main() {}");
    assert_eq!(i[4]["content"][0]["text"], "thanks");

    let messages = to_value(&Anthropic::new("k", "m").to_wire(&req));
    let a = &messages["messages"];
    assert_eq!(a[0]["content"][0]["text"], "look at this");
    assert_eq!(a[0]["content"][1]["source"]["data"], "AAAA");
    assert_eq!(a[1]["content"][0]["text"], "reading");
    assert_eq!(a[1]["content"][1]["id"], "c1");
    assert_eq!(a[1]["content"][1]["name"], "read");
    assert_eq!(a[1]["content"][1]["input"]["path"], "a.rs");
    assert_eq!(a[2]["content"][0]["tool_use_id"], "c1");
    assert_eq!(a[2]["content"][0]["content"], "fn main() {}");
    assert_eq!(a[2]["content"][1]["text"], "thanks");
}

#[test]
fn a_call_that_was_never_opened_is_not_fed() {
    let mut chat = ChatStreamParser::default();
    let stray = r#"{"choices":[{"delta":{"tool_calls":[{"index":3,"function":{"arguments":"{}"}}]},"finish_reason":"tool_calls"}]}"#;
    assert_eq!(chat.push(stray), Vec::new());

    let mut messages = AnthropicStreamParser::default();
    for stray in [
        r#"{"type":"content_block_delta","index":3,"delta":{"type":"input_json_delta","partial_json":"{}"}}"#,
        r#"{"type":"content_block_stop","index":3}"#,
    ] {
        assert_eq!(messages.push(stray), Vec::new());
    }

    let mut responses = ResponsesStreamParser::default();
    for stray in [
        r#"{"type":"response.function_call_arguments.delta","item_id":"x","delta":"{}"}"#,
        r#"{"type":"response.output_item.done","item":{"id":"x"}}"#,
    ] {
        assert_eq!(responses.push(stray), Vec::new());
    }
}
