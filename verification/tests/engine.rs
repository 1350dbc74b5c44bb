use std::collections::BTreeMap;

use cordy::config::PermissionConfig;
use cordy::engine::autonomous::{cordy_dir, is_done, iteration_prompt, GoalStore, Guardrails};
use cordy::engine::checkpoint::{CheckpointStore, Restore};
use cordy::engine::context::{estimate_messages_tokens, CompactMode, ContextManager};
use cordy::engine::events;
use cordy::engine::goal::Usd;
use cordy::engine::models_dev::{self, fmt_context, parse_catalog, Catalog};
use cordy::engine::permission::{glob_regex, PermissionEngine, Rule, Verdict};
use cordy::engine::prompt::{
    build_system_prompt, context_names, context_paths, load_project_context, load_system_append,
    load_system_override, project_file, PromptContext,
};
use cordy::engine::records::{message_from_json, message_to_json};
use cordy::engine::session_store::{
    now_unix, seconds_of, LoadError, SessionMeta, SessionStore, StoredFile,
};
use cordy::engine::types::{ContentBlock, Message, ToolOutput, Usage, WireEvent};
use cordy::engine::update::{self, is_newer, offer, version_in_registry, version_of_release};
use cordy::json::{self, Json, Number};
use cordy::tools::{AutoApprove, DenyAll, Permission, PermissionRequest, Risk};
use serde_json::Value;

fn from_value(v: &Value) -> Json {
    match v {
        Value::Null => Json::Null,
        Value::Bool(b) => json::boolean(*b),
        Value::Number(n) => Json::Number(match (n.as_u64(), n.as_i64()) {
            (Some(u), _) => Number::PosInt(u),
            (_, Some(i)) => Number::NegInt(i),
            _ => Number::Float(n.to_string()),
        }),
        Value::String(s) => json::string(s),
        Value::Array(a) => json::array(a.iter().map(from_value).collect()),
        Value::Object(m) => {
            json::object(m.iter().map(|(k, v)| (k.clone(), from_value(v))).collect())
        }
    }
}

fn parse(text: &str) -> Json {
    from_value(&serde_json::from_str(text).unwrap())
}

fn usd(amount: f64) -> Usd {
    Usd {
        bits: amount.to_bits(),
    }
}

// ---- autonomous -----------------------------------------------------------------------------

#[test]
fn goal_round_trips() {
    assert!(GoalStore::goal(None).is_none());
    let file = GoalStore::set_goal("ship the parser");
    assert_eq!(GoalStore::goal(Some(&file)).as_deref(), Some("ship the parser"));
    assert_eq!(cordy_dir("/p"), "/p/.cordy");
}

#[test]
fn guardrails_stop_conditions() {
    let g = Guardrails {
        max_iterations: 3,
        cost_cap_usd: Some(usd(1.0)),
    };
    assert!(g.should_continue(0, usd(0.0), false));
    assert!(!g.should_continue(0, usd(0.0), true), "done stops");
    assert!(!g.should_continue(3, usd(0.0), false), "iteration cap stops");
    assert!(!g.should_continue(1, usd(1.5), false), "cost cap stops");
    assert_eq!(
        g.stop_reason(3, usd(0.0), false),
        Some("iteration cap reached")
    );
    assert_eq!(g.stop_reason(1, usd(2.0), false), Some("cost cap reached"));
}

#[test]
fn detects_done_and_builds_prompt() {
    assert!(is_done("looks good\nDONE"));
    assert!(is_done("DONE."));
    assert!(!is_done("not done yet"));
    let p = iteration_prompt("build X", "did A");
    assert!(p.contains("build X"));
    assert!(p.contains("did A"));
}

// ---- checkpoints ----------------------------------------------------------------------------

type Files = BTreeMap<String, String>;

fn restore(files: &mut Files, steps: Vec<Restore>) {
    for step in steps {
        match step {
            Restore::Write { path, content } => {
                files.insert(path, content);
            }
            Restore::Remove { path } => {
                files.remove(&path);
            }
        }
    }
}

fn captured(files: &Files, path: &str) -> Vec<(String, Option<String>)> {
    vec![(path.to_string(), files.get(path).cloned())]
}

#[test]
fn rewind_restores_prior_content() {
    let mut files = Files::new();
    files.insert("/a.txt".into(), "v1".into());

    let mut store = CheckpointStore::new();
    let id0 = store.snapshot("edit1", captured(&files, "/a.txt"));
    files.insert("/a.txt".into(), "v2".into());
    store.snapshot("edit2", captured(&files, "/a.txt"));
    files.insert("/a.txt".into(), "v3".into());

    // Undo last edit -> v2.
    restore(&mut files, store.steps_last(1));
    store.rewind_last(1);
    assert_eq!(files["/a.txt"], "v2");

    // Rewind all the way to the first snapshot -> v1.
    restore(&mut files, store.steps(id0));
    store.rewind(id0);
    assert_eq!(files["/a.txt"], "v1");
    assert!(store.is_empty());
}

#[test]
fn rewind_removes_files_that_did_not_exist() {
    let mut files = Files::new();
    let mut store = CheckpointStore::new();
    store.snapshot("create", captured(&files, "/new.txt")); // file absent -> None captured
    files.insert("/new.txt".into(), "created".into());

    restore(&mut files, store.steps_last(1));
    store.rewind_last(1);
    assert!(
        !files.contains_key("/new.txt"),
        "rewind should remove a file that did not exist at snapshot time"
    );
}

#[test]
fn rewinding_several_steps_restores_the_oldest_capture() {
    let mut files = Files::new();
    files.insert("/a".into(), "1".into());
    let mut store = CheckpointStore::new();
    for v in ["2", "3", "4"] {
        store.snapshot("edit", captured(&files, "/a"));
        files.insert("/a".into(), v.into());
    }
    restore(&mut files, store.steps_last(3));
    assert_eq!(store.rewind_last(3), 3);
    assert_eq!(files["/a"], "1");
    assert_eq!(store.len(), 0);
}

#[test]
fn a_file_first_changed_later_gets_its_own_oldest_content() {
    let mut files = Files::new();
    files.insert("/a".into(), "a1".into());
    files.insert("/b".into(), "b1".into());
    let mut store = CheckpointStore::new();
    let first = store.snapshot("edit", captured(&files, "/a"));
    files.insert("/a".into(), "a2".into());
    store.snapshot("edit", captured(&files, "/b"));
    files.insert("/b".into(), "b2".into());
    store.snapshot("edit", captured(&files, "/b"));
    files.insert("/b".into(), "b3".into());
    restore(&mut files, store.steps(first));
    assert_eq!(files["/a"], "a1");
    assert_eq!(files["/b"], "b1");
}

// ---- context --------------------------------------------------------------------------------

fn msgs(n: usize) -> Vec<Message> {
    (0..n)
        .map(|i| Message::user(&format!("message number {i} with some words")))
        .collect()
}

#[test]
fn native_provider_never_compacts() {
    let cm = ContextManager::new(1, CompactMode::Auto, true);
    assert!(!cm.needs_compaction(&msgs(100)));
}

#[test]
fn manual_mode_never_auto_compacts() {
    let cm = ContextManager::new(1, CompactMode::Manual, false);
    assert!(!cm.needs_compaction(&msgs(100)));
}

#[test]
fn auto_compacts_over_threshold() {
    let big = ContextManager::new(10, CompactMode::Auto, false);
    assert!(big.needs_compaction(&msgs(50)));
    let high = ContextManager::new(1_000_000, CompactMode::Auto, false);
    assert!(!high.needs_compaction(&msgs(2)));
}

#[test]
fn plan_keeps_recent_and_summarizes_old() {
    let cm = ContextManager::new(10, CompactMode::Auto, false); // keep_recent = 6
    let history = msgs(10);
    let (old, keep) = cm.plan_compaction(&history).unwrap();
    assert_eq!(old.len(), 4);
    assert_eq!(keep.len(), 6);
    // Too short to compact.
    assert!(cm.plan_compaction(&msgs(6)).is_none());
}

#[test]
fn estimate_grows_with_content() {
    let small = estimate_messages_tokens(&[Message::user("hi")]);
    let big = estimate_messages_tokens(&[Message::assistant(vec![ContentBlock::text(
        "a much longer message that clearly has more tokens than the tiny one",
    )])]);
    assert!(big > small);
}

// ---- models ---------------------------------------------------------------------------------

#[test]
fn parses_provider_models() {
    let v = parse(
        r#"{
        "mistral": {
            "id": "mistral", "name": "Mistral",
            "models": {
                "mistral-small-latest": {
                    "id": "mistral-small-latest", "name": "Mistral Small",
                    "tool_call": true, "reasoning": true,
                    "limit": { "context": 256000, "output": 256000 },
                    "cost": { "input": 0.15, "output": 0.6 }
                }
            }
        }
    }"#,
    );
    let cat = Catalog::from_models(parse_catalog(&v));
    let m = cat.get("mistral-small-latest").unwrap();
    assert_eq!(m.provider, "Mistral");
    assert_eq!(m.context, Some(256000));
    assert_eq!(m.price_in, Some(Number::Float("0.15".into())));
    assert!(m.tool_call);
}

#[test]
fn get_matches_trailing_segment() {
    let v = parse(
        r#"{
        "meta": { "name": "Meta", "models": {
            "llama-3.1-8b-instruct": { "id": "llama-3.1-8b-instruct", "name": "Llama 3.1 8B",
                "limit": { "context": 128000 }, "cost": {} }
        }}
    }"#,
    );
    let cat = Catalog::from_models(parse_catalog(&v));
    // Cordy uses the namespaced id; catalog keys the bare id.
    assert!(cat.get("meta/llama-3.1-8b-instruct").is_some());
    assert!(cat.get("meta/unknown").is_none());
    assert_eq!(cat.len(), 1);
    assert!(!cat.is_empty());
}

#[test]
fn formats_context() {
    assert_eq!(fmt_context(128000), "128k");
    assert_eq!(fmt_context(2_000_000), "2M");
    assert_eq!(fmt_context(512), "512");
}

#[test]
fn a_cache_is_fresh_for_a_while() {
    assert!(models_dev::is_fresh(1000, 1000));
    assert!(models_dev::is_fresh(1000, 900), "a clock that went back");
    assert!(models_dev::is_fresh(0, models_dev::MAX_AGE_SECS - 1));
    assert!(!models_dev::is_fresh(0, models_dev::MAX_AGE_SECS));
    assert!(!update::is_fresh(0, update::MAX_AGE_SECS));
}

// ---- permissions ----------------------------------------------------------------------------

fn req<'a>(tool: &'a str, key: &'a str, risk: Risk) -> PermissionRequest<'a> {
    PermissionRequest {
        risk,
        tool,
        key,
        summary: key,
    }
}

#[test]
fn allow_rule_short_circuits_asker() {
    // Asker denies everything; an allow rule must still permit.
    let engine =
        PermissionEngine::new(DenyAll).with_rules(vec![Rule::new("bash", "git *", true)]);
    assert!(engine.request(&req("bash", "git status", Risk::Exec)));
}

#[test]
fn deny_rule_wins() {
    let engine =
        PermissionEngine::new(AutoApprove).with_rules(vec![Rule::new("bash", "rm -rf *", false)]);
    assert!(!engine.request(&req("bash", "rm -rf /", Risk::Exec)));
}

#[test]
fn no_rule_delegates_to_asker() {
    let allow = PermissionEngine::new(AutoApprove);
    assert!(allow.request(&req("bash", "ls", Risk::Exec)));
    let deny = PermissionEngine::new(DenyAll);
    assert!(!deny.request(&req("bash", "ls", Risk::Exec)));
}

#[test]
fn add_rule_takes_effect_and_describes() {
    let mut engine = PermissionEngine::new(DenyAll);
    assert!(!engine.request(&req("bash", "ls", Risk::Exec))); // asker denies
    engine.add_rule("bash", "*", true); // allow-always
    assert!(engine.request(&req("bash", "ls", Risk::Exec)));
    assert_eq!(engine.describe_rules(), vec!["allow bash:*".to_string()]);
}

#[test]
fn write_outside_sandbox_ignores_allow_rule() {
    let root = "/tmp/cordy_sandbox_test";
    let inside = "/tmp/cordy_sandbox_test/src/a.rs";
    let outside = "/tmp/elsewhere/x.rs";

    let engine = PermissionEngine::new(DenyAll)
        .with_sandbox(root)
        .with_rules(vec![Rule::new("write", "*", true)]);

    // Even with a broad allow rule, a write outside the sandbox asks (asker denies).
    assert!(!engine.request(&req("write", outside, Risk::Write)));
    // Inside the sandbox the allow rule applies.
    assert!(engine.request(&req("write", inside, Risk::Write)));
}

#[test]
fn globs_match_whole_keys() {
    assert_eq!(glob_regex("a.b *?"), "^a\\.b .*.$");
    let rule = Rule::new("bash", "git *", true);
    assert!(rule.matches("bash", "git push"));
    assert!(!rule.matches("bash", "xgit push"));
    assert!(!rule.matches("write", "git push"));
    assert!(Rule::new("*", "git *", true).matches("write", "git push"));
}

#[test]
fn configured_rules_deny_first() {
    let config = PermissionConfig {
        mode: Some("auto".into()),
        allow: vec!["bash:git *".into()],
        deny: vec!["bash:git push *".into(), "*secret*".into()],
    };
    let engine = PermissionEngine::new(DenyAll).with_rules(Rule::from_config(&config));
    assert_eq!(
        engine.decide(&req("bash", "git push origin", Risk::Exec)),
        Verdict::Deny
    );
    assert_eq!(
        engine.decide(&req("read", "my secret file", Risk::ReadOnly)),
        Verdict::Deny
    );
    assert_eq!(
        engine.decide(&req("bash", "git status", Risk::Exec)),
        Verdict::Allow
    );
    assert_eq!(
        engine.decide(&req("bash", "make", Risk::Exec)),
        Verdict::Allow,
        "auto approves what is not denied"
    );
    let asking = PermissionConfig {
        mode: None,
        ..config
    };
    let engine = PermissionEngine::new(DenyAll).with_rules(Rule::from_config(&asking));
    assert_eq!(engine.decide(&req("bash", "make", Risk::Exec)), Verdict::Ask);
}

// ---- prompts --------------------------------------------------------------------------------

fn ctx<'a>(cwd: &'a str, tools: &'a Vec<String>) -> PromptContext<'a> {
    PromptContext {
        cwd,
        os: "linux",
        tool_names: tools,
        project_context: None,
        custom_prompt: None,
        append_prompt: None,
        capabilities: None,
        cognitive_core: false,
    }
}

#[test]
fn full_prompt_lists_tools_and_env() {
    let tools = vec!["read".to_string(), "edit".to_string()];
    let p = build_system_prompt(&ctx("/proj", &tools));
    assert!(p.contains("autonomous coding agent"));
    assert!(p.contains("read, edit"));
    assert!(p.contains("os: linux"));
}

#[test]
fn lean_prompt_for_cognitive_core() {
    let tools = vec!["read".to_string()];
    let mut c = ctx("/p", &tools);
    c.cognitive_core = true;
    let p = build_system_prompt(&c);
    assert!(p.contains("compact coding agent"));
}

#[test]
fn custom_prompt_overrides_default() {
    let tools = vec!["read".to_string()];
    let mut c = ctx("/p", &tools);
    c.custom_prompt = Some("BESPOKE INSTRUCTIONS".into());
    let p = build_system_prompt(&c);
    assert!(p.contains("BESPOKE INSTRUCTIONS"));
    assert!(!p.contains("autonomous coding agent")); // default replaced
    assert!(p.contains("read")); // tools still appended
}

#[test]
fn context_and_append_are_placed() {
    let tools = vec!["read".to_string()];
    let mut c = ctx("/p", &tools);
    c.project_context = Some("<file path=\"AGENTS.md\">tabs</file>".into());
    c.append_prompt = Some("EXTRA".into());
    let p = build_system_prompt(&c);
    assert!(p.contains("<project_context>"));
    assert!(p.contains("tabs"));
    // Append comes after the context block.
    assert!(p.find("EXTRA").unwrap() > p.find("<project_context>").unwrap());
}

#[test]
fn context_files_tagged_with_paths() {
    let names = context_names();
    let files: Vec<(String, Option<String>)> = context_paths("/proj", &names)
        .into_iter()
        .map(|p| {
            let text = (p == "/proj/AGENTS.md").then_some("Follow the style guide.".to_string());
            (p, text)
        })
        .collect();
    let pc = load_project_context(&files).unwrap();
    assert!(pc.contains("Follow the style guide."));
    assert!(pc.contains("<file path="));
    assert!(pc.contains("AGENTS.md"));
}

#[test]
fn context_files_have_their_names() {
    assert_eq!(context_names(), vec!["AGENTS.md", ".cordy/CORDY.md"]);
}

#[test]
fn context_files_come_nearest_last() {
    let names = context_names();
    assert_eq!(
        context_paths("/a/b", &names),
        vec![
            "/AGENTS.md",
            "/.cordy/CORDY.md",
            "/a/AGENTS.md",
            "/a/.cordy/CORDY.md",
            "/a/b/AGENTS.md",
            "/a/b/.cordy/CORDY.md",
        ]
    );
    assert_eq!(load_project_context(&Vec::new()), None);
}

#[test]
fn system_override_prefers_project_then_global() {
    // Only global present.
    assert_eq!(
        load_system_override(None, Some("global".into())).as_deref(),
        Some("global")
    );
    // Project override wins.
    assert_eq!(
        load_system_override(Some("project".into()), Some("global".into())).as_deref(),
        Some("project")
    );
    assert_eq!(
        project_file("/proj", "SYSTEM.md"),
        "/proj/.cordy/SYSTEM.md"
    );
}

#[test]
fn append_concatenates_global_then_project() {
    let a = load_system_append(Some("P".into()), Some("G".into())).unwrap();
    assert!(a.find('G').unwrap() < a.find('P').unwrap());
}

// ---- sessions -------------------------------------------------------------------------------

fn meta(id: &str) -> SessionMeta {
    SessionMeta {
        id: id.into(),
        provider: "openai-chat".into(),
        model: "gpt-4o".into(),
        cwd: "/proj".into(),
        created_at: 1000,
        title: "test".into(),
    }
}

#[test]
fn create_append_load_round_trips() {
    let mut file = SessionStore::create(&meta("s1"));
    file.push_str(&SessionStore::append(&Message::user("hello")));
    file.push_str(&SessionStore::append(&Message::assistant(vec![
        ContentBlock::text("hi"),
    ])));

    let (m, msgs) = SessionStore::load(&file).unwrap();
    assert_eq!(m.model, "gpt-4o");
    assert_eq!(msgs.len(), 2);
    assert_eq!(msgs[0], Message::user("hello"));
}

#[test]
fn rename_fork_delete() {
    let mut file = SessionStore::create(&meta("s1"));
    file.push_str(&SessionStore::append(&Message::user("hello")));

    let file = SessionStore::rename(&file, "renamed").unwrap();
    let (m, msgs) = SessionStore::load(&file).unwrap();
    assert_eq!(m.title, "renamed");
    assert_eq!(msgs.len(), 1); // messages preserved

    let (fork_id, fork) = SessionStore::fork(&file).unwrap();
    assert_ne!(fork_id, "s1");
    let (fm, fmsgs) = SessionStore::load(&fork).unwrap();
    assert_eq!(fm.id, fork_id);
    assert_eq!(fm.title, "renamed (fork)");
    assert_eq!(fmsgs.len(), 1);
    assert!(fm.created_at <= now_unix());
}

fn stored(name: &str, text: &str, modified: Option<u64>) -> StoredFile {
    StoredFile {
        name: name.into(),
        text: text.into(),
        modified,
    }
}

#[test]
fn list_sorts_newest_first() {
    let mut older = meta("old");
    older.created_at = 100;
    let mut newer = meta("new");
    newer.created_at = 200;
    let files = vec![
        stored("old.jsonl", &SessionStore::create(&older), None),
        stored("new.jsonl", &SessionStore::create(&newer), None),
        stored("notes.txt", "nothing", None),
    ];

    let list = SessionStore::list(&files);
    assert_eq!(list.len(), 2);
    assert_eq!(list[0].id, "new");
    assert_eq!(SessionStore::latest(&files).as_deref(), Some("new"));
}

#[test]
fn summaries_show_the_last_thing_the_user_said() {
    let mut file = SessionStore::create(&meta("s1"));
    file.push_str(&SessionStore::append(&Message::user("first\nthing")));
    file.push_str(&SessionStore::append(&Message::assistant(vec![
        ContentBlock::text("ok"),
    ])));
    file.push_str(&SessionStore::append(&Message::user("second\nthing")));
    let listed = SessionStore::list_summaries(&vec![
        stored("a.jsonl", &file, Some(5)),
        stored("b.jsonl", &SessionStore::create(&meta("s2")), Some(9)),
    ]);
    assert_eq!(listed.len(), 2);
    assert_eq!(listed[0].meta.id, "s2", "newest activity first");
    assert_eq!(listed[1].last_user, "second thing");
    assert_eq!(listed[1].messages, 3);
}

#[test]
fn broken_session_files_are_refused() {
    assert_eq!(SessionStore::load("").unwrap_err(), LoadError::Empty);
    assert!(matches!(
        SessionStore::load("not json\n").unwrap_err(),
        LoadError::Json(_)
    ));
    assert_eq!(SessionStore::load("{}\n").unwrap_err(), LoadError::Shape);
    let file = SessionStore::create(&meta("s1")) + "{\"role\":\"user\"}\n";
    assert_eq!(SessionStore::load(&file).unwrap_err(), LoadError::Shape);
}

#[test]
fn ids_carry_the_time() {
    assert_eq!(SessionStore::id_at(0), SessionStore::id_at(0));
    assert_ne!(SessionStore::id_at(1), SessionStore::id_at(2));
    assert_eq!(SessionStore::id_at(35), "sz");
    assert_eq!(SessionStore::id_at(36), "s10");
    assert_eq!(SessionStore::id_at(1_700_000_000_000), "sloyw3v28");
    assert!(SessionStore::new_id().starts_with('s'));
    assert_eq!(SessionStore::new("/s").path("x"), "/s/x.jsonl");
    assert!(now_unix() > 1_600_000_000);
    assert!(now_unix() < 1_000_000_000_000);
    assert_eq!(seconds_of(1999), 1);
}

// ---- messages -------------------------------------------------------------------------------

#[test]
fn message_round_trips_through_json() {
    let msg = Message::assistant(vec![
        ContentBlock::Thinking {
            text: "let me think".into(),
        },
        ContentBlock::text("here is the plan"),
        ContentBlock::ToolUse {
            id: "call_1".into(),
            name: "edit".into(),
            input: parse(r#"{ "path": "a.rs", "old": "x", "new": "y" }"#),
        },
        ContentBlock::ToolResult {
            id: "call_1".into(),
            out: ToolOutput::ok("applied"),
        },
        ContentBlock::Image {
            media_type: "image/png".into(),
            data: "aGk=".into(),
        },
    ]);

    let back = message_from_json(&parse(&SessionStore::append(&msg))).unwrap();
    assert_eq!(msg, back);
    assert_eq!(message_from_json(&message_to_json(&msg)), Some(back));
    assert_eq!(message_from_json(&parse("{\"role\":\"boss\",\"content\":[]}")), None);
}

// ---- updates --------------------------------------------------------------------------------

#[test]
fn newer_versions_detected() {
    assert!(is_newer("0.1.2", "0.1.1"));
    assert!(is_newer("v0.2.0", "0.1.9"));
    assert!(is_newer("1.0.0", "0.9.9"));
}

#[test]
fn same_or_older_is_not_newer() {
    assert!(!is_newer("0.1.1", "0.1.1"));
    assert!(!is_newer("0.1.0", "0.1.1"));
    assert!(!is_newer("garbage", "0.1.1"));
}

#[test]
fn an_update_is_offered_only_when_newer() {
    assert_eq!(offer("1.2.0".into(), "1.1.9").as_deref(), Some("1.2.0"));
    assert_eq!(offer("1.1.9".into(), "1.1.9"), None);
    assert_eq!(
        version_in_registry(&parse(r#"{"crate":{"max_stable_version":"1.2.3"}}"#)).as_deref(),
        Some("1.2.3")
    );
    assert_eq!(version_in_registry(&parse("{}")), None);
    assert_eq!(
        version_of_release(&parse(r#"{"tag_name":"v2.0.0"}"#)).as_deref(),
        Some("2.0.0")
    );
}

// ---- stream events --------------------------------------------------------------------------

#[test]
fn wire_event_round_trips() {
    let events = vec![
        WireEvent::TextDelta("hi".into()),
        WireEvent::ToolUseStart {
            id: "1".into(),
            name: "bash".into(),
        },
        WireEvent::ToolInputDelta {
            id: "1".into(),
            json: "{\"cmd\"".into(),
        },
        WireEvent::ToolUseEnd { id: "1".into() },
        WireEvent::Usage(Usage {
            input_tokens: 10,
            output_tokens: 5,
            ..Default::default()
        }),
        WireEvent::Done,
    ];
    let text = events::encode(&events);
    let back = events::decode(&text).unwrap();
    assert_eq!(events, back);
}

#[test]
fn events_are_written_under_their_names() {
    let events = vec![
        WireEvent::ThinkingDelta("hm".into()),
        WireEvent::Error("gone".into()),
        WireEvent::Done,
    ];
    assert_eq!(
        events::encode(&events),
        r#"[{"ThinkingDelta":"hm"},{"Error":"gone"},"Done"]"#
    );
    assert_eq!(
        events::decode(r#"[{"Done":null},{"ToolUseStart":["1","ls"]}]"#),
        Some(vec![
            WireEvent::Done,
            WireEvent::ToolUseStart {
                id: "1".into(),
                name: "ls".into()
            }
        ])
    );
    for bad in [
        r#"["TextDelta"]"#,
        r#"[{"Done":1}]"#,
        r#"[{"Usage":{"input_tokens":1}}]"#,
        r#"[{"ToolUseEnd":["1","2"]}]"#,
        r#"[{"TextDelta":"a","Done":null}]"#,
        r#"{"TextDelta":"a"}"#,
        "[",
    ] {
        assert_eq!(events::decode(bad), None, "{bad}");
    }
}

#[test]
fn a_stale_catalog_is_better_than_none() {
    let model = |id: &str| {
        let mut m = json::members();
        json::put(&mut m, "name", json::string(id));
        let mut models = json::members();
        json::put(&mut models, id, json::object(m));
        let mut provider = json::members();
        json::put(&mut provider, "models", json::object(models));
        let mut all = json::members();
        json::put(&mut all, "p", json::object(provider));
        parse_catalog(&json::object(all))
    };
    assert!(!models_dev::keeps(None, 5));
    assert!(models_dev::keeps(Some(5), 6));
    assert!(!models_dev::keeps(Some(5), 5 + models_dev::MAX_AGE_SECS));
    let fetched = models_dev::settle(Some(model("old")), Some(model("new")));
    assert!(fetched.get("new").is_some() && fetched.get("old").is_none());
    let kept = models_dev::settle(Some(model("old")), None);
    assert!(kept.get("old").is_some());
    assert!(models_dev::settle(None, None).is_empty());
}

#[test]
fn the_registry_is_believed_before_the_release_list() {
    let mut c = json::members();
    json::put(&mut c, "max_stable_version", json::string("1.2.0"));
    let mut registry = json::members();
    json::put(&mut registry, "crate", json::object(c));
    let registry = json::object(registry);
    let mut release = json::members();
    json::put(&mut release, "tag_name", json::string("v1.3.0"));
    let release = json::object(release);
    assert_eq!(
        update::published(Some(&registry), Some(&release)).as_deref(),
        Some("1.2.0")
    );
    assert_eq!(
        update::published(Some(&release), Some(&release)).as_deref(),
        Some("1.3.0")
    );
    assert_eq!(update::published(None, None), None);
    let kept = Some((10, "1.0.0".to_string()));
    assert_eq!(update::known(kept.clone(), 11).as_deref(), Some("1.0.0"));
    assert_eq!(update::known(kept, 10 + update::MAX_AGE_SECS), None);
    assert_eq!(update::known(None, 0), None);
}
