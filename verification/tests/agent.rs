use cordy::engine::agent::{
    add_usage, assemble, can_add_usage, delta_event, started_event, AgentEvent, Outcome, Phase,
    Session, Turn,
};
use cordy::engine::types::{ContentBlock, Message, Role, ToolOutput, Usage, WireEvent};
use cordy::json::Json;
use cordy::tools::builtins::read::Read;
use cordy::tools::Registry;

fn read_call() -> Vec<WireEvent> {
    vec![
        WireEvent::TextDelta("reading".into()),
        WireEvent::ToolUseStart {
            id: "t1".into(),
            name: "read".into(),
        },
        WireEvent::ToolInputDelta {
            id: "t1".into(),
            json: "{\"path\":\"f.txt\"}".into(),
        },
        WireEvent::ToolUseEnd { id: "t1".into() },
        WireEvent::Done,
    ]
}

#[test]
fn assembles_text_then_tool_call() {
    let events = vec![
        WireEvent::TextDelta("Editing ".into()),
        WireEvent::TextDelta("the file.".into()),
        WireEvent::ToolUseStart {
            id: "c1".into(),
            name: "edit".into(),
        },
        WireEvent::ToolInputDelta {
            id: "c1".into(),
            json: "{\"path\":".into(),
        },
        WireEvent::ToolInputDelta {
            id: "c1".into(),
            json: "\"a.rs\"}".into(),
        },
        WireEvent::ToolUseEnd { id: "c1".into() },
        WireEvent::Done,
    ];
    let (msg, _usage) = assemble(events).unwrap();
    assert_eq!(msg.role, Role::Assistant);
    assert_eq!(msg.content.len(), 2);
    assert_eq!(msg.content[0], ContentBlock::text("Editing the file."));
    let ContentBlock::ToolUse { input, .. } = &msg.content[1] else {
        panic!("expected a tool call");
    };
    assert_eq!(input.str_field("path"), Some("a.rs"));
}

#[test]
fn error_event_propagates() {
    let err = assemble(vec![WireEvent::Error("boom".into())]).unwrap_err();
    assert_eq!(err, "boom");
}

#[test]
fn a_stream_that_just_ends_is_assembled_too() {
    let usage = Usage {
        input_tokens: 3,
        output_tokens: 2,
        cache_read: 0,
        cache_write: 0,
    };
    let (msg, got) = assemble(vec![
        WireEvent::ThinkingDelta("hm".into()),
        WireEvent::TextDelta("ok".into()),
        WireEvent::Usage(usage),
    ])
    .unwrap();
    assert_eq!(
        msg.content,
        vec![
            ContentBlock::Thinking { text: "hm".into() },
            ContentBlock::text("ok")
        ]
    );
    assert_eq!(got, usage);
}

/// A tool of a registry: takes an input, gives what the model is told.
type RunTool = fn(&Json) -> ToolOutput;

fn read_f(input: &Json) -> ToolOutput {
    match Read::target(input, "/work") {
        Ok(path) => {
            assert_eq!(path, "/work/f.txt");
            Read::finish(input, &path, Ok("hello world".into()))
        }
        Err(out) => out,
    }
}

#[test]
fn full_turn_runs_tool_and_feeds_result_back() {
    // Round 1: model asks to read f.txt. Round 2: model replies and stops.
    let mut scripts = vec![
        read_call(),
        vec![
            WireEvent::TextDelta("the file says hello".into()),
            WireEvent::Done,
        ],
    ]
    .into_iter();
    let mut registry: Registry<RunTool> = Registry::new();
    registry.register(Read.spec(), read_f);

    let mut session = Session::new("sys", "mock");
    session.push_user("what does f.txt say?");

    let mut shown = Vec::new();
    let mut turn = Turn::begin();
    while turn.phase() != Phase::Over {
        let request = Turn::request(&session, registry.specs(), None);
        assert_eq!(request.messages.len(), session.messages.len());
        let (assistant, usage) = assemble(scripts.next().unwrap()).unwrap();
        shown.extend(turn.response(&mut session, assistant, usage));
        while turn.phase() == Phase::Running {
            let call = turn.next_call().unwrap();
            shown.push(started_event(call));
            let outcome = match registry.get(&call.name) {
                Some(run) => Outcome::Output(run(&call.input)),
                None => Outcome::Unknown,
            };
            shown.extend(turn.outcome(&mut session, outcome));
        }
    }

    let mut saw_tool_result_with_hello = false;
    let mut completed = false;
    for ev in &shown {
        match ev {
            AgentEvent::ToolFinished { name, output, .. } => {
                assert_eq!(name, "read");
                if output.text.contains("hello world") {
                    saw_tool_result_with_hello = true;
                }
            }
            AgentEvent::TurnComplete { .. } => completed = true,
            _ => {}
        }
    }
    assert!(
        saw_tool_result_with_hello,
        "read result should reach the UI"
    );
    assert!(completed, "turn should complete");

    // History: user, assistant(tool_use), tool(result), assistant(text).
    assert_eq!(session.messages.len(), 4);
    assert_eq!(session.messages[3].role, Role::Assistant);
}

#[test]
fn unknown_tools_and_interruptions_are_answered() {
    let call = |id: &str, name: &str| ContentBlock::ToolUse {
        id: id.into(),
        name: name.into(),
        input: Json::Null,
    };
    let mut session = Session::new("sys", "mock");
    let mut turn = Turn::begin();
    let asked = Message::assistant(vec![call("1", "nope"), call("2", "slow"), call("3", "late")]);
    turn.response(&mut session, asked, Usage::default());
    turn.outcome(&mut session, Outcome::Unknown);
    let shown = turn.outcome(&mut session, Outcome::Interrupted);
    assert_eq!(turn.phase(), Phase::Over);
    assert!(matches!(shown.last(), Some(AgentEvent::TurnComplete { .. })));
    // Every call has its answer, in order.
    let answers = &session.messages.last().unwrap().content;
    let texts: Vec<(String, String)> = answers
        .iter()
        .map(|b| match b {
            ContentBlock::ToolResult { id, out } => (id.clone(), out.text.clone()),
            _ => panic!("expected a tool result"),
        })
        .collect();
    assert_eq!(
        texts,
        vec![
            ("1".to_string(), "unknown tool: nope".to_string()),
            ("2".to_string(), "interrupted".to_string()),
            ("3".to_string(), "interrupted".to_string()),
        ]
    );
}

#[test]
fn an_empty_response_is_noted() {
    let mut session = Session::new("sys", "mock");
    let mut turn = Turn::begin();
    let shown = turn.response(&mut session, Message::assistant(Vec::new()), Usage::default());
    assert_eq!(
        shown[0],
        AgentEvent::Error("empty response — check the model name and endpoint".into())
    );
    assert_eq!(turn.phase(), Phase::Over);
}

#[test]
fn a_cancelled_turn_completes_without_usage() {
    let mut turn = Turn::begin();
    assert_eq!(
        turn.cancel(),
        vec![AgentEvent::TurnComplete {
            usage: Usage::default()
        }]
    );
    assert_eq!(turn.phase(), Phase::Over);
}

#[test]
fn usage_adds_up() {
    let a = Usage {
        input_tokens: 1,
        output_tokens: 2,
        cache_read: 3,
        cache_write: 4,
    };
    assert!(can_add_usage(a, a));
    assert_eq!(add_usage(a, a).cache_write, 8);
    let full = Usage {
        input_tokens: u64::MAX,
        ..a
    };
    assert!(!can_add_usage(a, full));
}

#[test]
fn only_text_is_shown_while_it_streams() {
    assert_eq!(
        delta_event(&WireEvent::TextDelta("x".into())),
        Some(AgentEvent::TextDelta("x".into()))
    );
    assert_eq!(delta_event(&WireEvent::Done), None);
}

#[test]
fn assembling_keeps_every_word_in_order() {
    let (message, _) = assemble(vec![
        WireEvent::ThinkingDelta("first ".into()),
        WireEvent::TextDelta("one ".into()),
        WireEvent::ToolUseStart {
            id: "t1".into(),
            name: "ls".into(),
        },
        WireEvent::TextDelta("two ".into()),
        WireEvent::ToolUseEnd { id: "t1".into() },
        WireEvent::ThinkingDelta("then".into()),
        WireEvent::TextDelta("three".into()),
        WireEvent::Done,
        WireEvent::TextDelta("never".into()),
    ])
    .unwrap();
    let mut text = String::new();
    let mut thought = String::new();
    for block in &message.content {
        match block {
            ContentBlock::Text { text: t } => text.push_str(t),
            ContentBlock::Thinking { text: t } => thought.push_str(t),
            _ => {}
        }
    }
    assert_eq!(text, "one two three");
    assert_eq!(thought, "first then");
}
