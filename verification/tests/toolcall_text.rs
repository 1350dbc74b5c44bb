use cordy::engine::toolcall_text::{extract, py_value, recover_text_tool_calls};
use cordy::engine::types::{ContentBlock, Message};
use cordy::json::{Json, Number};

fn assistant(text: &str) -> Message {
    Message::assistant(vec![ContentBlock::text(text)])
}

fn tool_uses(msg: &Message) -> Vec<(&str, &Json)> {
    msg.content
        .iter()
        .filter_map(|b| match b {
            ContentBlock::ToolUse { name, input, .. } => Some((name.as_str(), input)),
            _ => None,
        })
        .collect()
}

#[test]
fn json_tag_format() {
    let mut m = assistant(
        r#"Let me read it. <tool_call>{"name":"read","arguments":{"path":"a.rs"}}</tool_call>"#,
    );
    assert_eq!(recover_text_tool_calls(&mut m), 1);
    let calls = tool_uses(&m);
    assert_eq!(calls[0].0, "read");
    assert_eq!(calls[0].1.str_field("path"), Some("a.rs"));
}

#[test]
fn pipe_delimited_dsl_format() {
    // The exact shape the reported Gemma endpoint emits.
    let mut m = assistant(
        "Starting.\n<|tool_call>call:write{content:<|\">{\"a\":1}<|\">,path:<|\">pkg.json<|\">}<tool_call|>",
    );
    assert_eq!(recover_text_tool_calls(&mut m), 1);
    let calls = tool_uses(&m);
    assert_eq!(calls[0].0, "write");
    // The delimited value stays a string — a file's content, verbatim.
    assert_eq!(calls[0].1.str_field("content"), Some("{\"a\":1}"));
    assert_eq!(calls[0].1.str_field("path"), Some("pkg.json"));
    // Prose is preserved, the call region stripped.
    assert!(m
        .content
        .iter()
        .any(|b| matches!(b, ContentBlock::Text { text } if text.contains("Starting"))));
}

#[test]
fn tool_code_python_format() {
    let mut m = assistant("```tool_code\nread(path=\"main.rs\", limit=10)\n```");
    assert_eq!(recover_text_tool_calls(&mut m), 1);
    let calls = tool_uses(&m);
    assert_eq!(calls[0].0, "read");
    assert_eq!(calls[0].1.str_field("path"), Some("main.rs"));
    assert_eq!(calls[0].1.u64_field("limit"), Some(10));
}

#[test]
fn a_printed_python_call_loses_the_print() {
    let mut m = assistant(
        "```tool_code\nprint(read(path=\"main.rs\"))\nprint(grep(pattern=\"a)\"), end=\"\")\nprint(ls(path=\".\")\n```",
    );
    assert_eq!(recover_text_tool_calls(&mut m), 3);
    let calls = tool_uses(&m);
    assert_eq!(calls[0].0, "read");
    assert_eq!(calls[0].1.str_field("path"), Some("main.rs"));
    assert_eq!(calls[1].0, "grep");
    assert_eq!(calls[1].1.str_field("pattern"), Some("a)"));
    // The print is left open here.
    assert_eq!(calls[2].0, "ls");
    assert_eq!(calls[2].1.str_field("path"), Some("."));
}

#[test]
fn double_encoded_arguments_string() {
    let mut m = assistant(
        r#"<tool_call>{"name":"grep","arguments":"{\"pattern\":\"fn\"}"}</tool_call>"#,
    );
    assert_eq!(recover_text_tool_calls(&mut m), 1);
    assert_eq!(tool_uses(&m)[0].1.str_field("pattern"), Some("fn"));
}

#[test]
fn plain_text_is_untouched() {
    let mut m = assistant("Just a normal reply with no tool call.");
    assert_eq!(recover_text_tool_calls(&mut m), 0);
    assert!(
        matches!(&m.content[0], ContentBlock::Text { text } if text.contains("normal reply"))
    );
}

#[test]
fn several_calls_get_ids_of_their_own() {
    let mut m = assistant(
        r#"<tool_call>{"name":"a","arguments":{}}</tool_call> and <tool_call>{"name":"b","arguments":{}}</tool_call>"#,
    );
    assert_eq!(recover_text_tool_calls(&mut m), 2);
    let ids: Vec<&str> = m
        .content
        .iter()
        .filter_map(|b| match b {
            ContentBlock::ToolUse { id, .. } => Some(id.as_str()),
            _ => None,
        })
        .collect();
    assert_eq!(ids.len(), 2);
    assert_ne!(ids[0], ids[1]);
}

#[test]
fn python_values_are_read_by_their_shape() {
    assert_eq!(py_value("10").as_u64(), Some(10));
    assert_eq!(py_value("'x'").as_str(), Some("x"));
    assert_eq!(py_value("True").as_bool(), Some(true));
    assert_eq!(py_value("1.50"), Json::Number(Number::Float("1.5".into())));
    assert_eq!(py_value("None").as_str(), Some("None"));
    let (prose, calls) = extract("nothing here");
    assert_eq!(prose, "nothing here");
    assert!(calls.is_empty());
}
