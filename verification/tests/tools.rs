use cordy::engine::capability::CapabilitySource;
use cordy::engine::agent::{AgentEvent, Phase, Turn};
use cordy::engine::types::{ContentBlock, Message, ToolOutput, Usage, WireEvent};
use cordy::agents::AgentDef;
use cordy::json::{self, Json, Number};
use cordy::tools::builtins::bash::{Bash, RunEnd, ShellKind};
use cordy::tools::builtins::edit::Edit;
use cordy::tools::builtins::glob::{glob_to_regex, Glob};
use cordy::tools::builtins::grep::{Grep, Hits};
use cordy::tools::builtins::ls::{dir_of, DirEntry, Ls};
use cordy::tools::builtins::multiedit::MultiEdit;
use cordy::tools::builtins::process::{tree_killer, BgRegistry, Process, Request, BUF_CAP};
use cordy::tools::builtins::read::Read;
use cordy::tools::builtins::rewind::Rewind;
use cordy::tools::builtins::todo::{Todo, TodoList};
use cordy::tools::builtins::web::{
    clean_html, decode_ddg_url, exa_body, format_results, html_form, instant_results, instant_url,
    page_results, suffices, SearchEnd, WebFetch, WebSearch,
};
use cordy::tools::builtins::write::{Write, WriteEnd};
use cordy::tools::builtins::BuiltinTools;
use cordy::tools::diff::{count_tags, signed_lines, LineChange, LineTag};
use cordy::tools::optimize::{
    dedupe_consecutive, estimate_tokens, truncate_middle, GenericCompressor, Optimizer,
    OutputCompressor,
};
use cordy::tools::subagent::{final_text, summarize_child, Running, SubAgentTool};
use cordy::tools::{advertise, open_object, typed, Registry, Risk, ToolCtx};
use regex::Regex;
use serde_json::Value;

fn from_value(v: &Value) -> Json {
    match v {
        Value::Null => Json::Null,
        Value::Bool(b) => json::boolean(*b),
        Value::Number(n) => Json::Number(match (n.as_u64(), n.as_i64()) {
            (Some(u), _) => Number::PosInt(u),
            (_, Some(i)) => Number::NegInt(i),
            _ => Number::Float(n.to_string()),
        }),
        Value::String(s) => json::string(s),
        Value::Array(a) => json::array(a.iter().map(from_value).collect()),
        Value::Object(m) => {
            json::object(m.iter().map(|(k, v)| (k.clone(), from_value(v))).collect())
        }
    }
}

fn parse(text: &str) -> Json {
    from_value(&serde_json::from_str(text).unwrap())
}

// ---- the optimizer --------------------------------------------------------------------------

#[test]
fn dedupe_collapses_runs() {
    let raw = "a\nb\nb\nb\nc";
    assert_eq!(dedupe_consecutive(raw), "a\nb\n... (x3)\nc");
}

#[test]
fn generic_compressor_saves_tokens_on_dupes() {
    let raw = "same line\n".repeat(50);
    let opt = Optimizer::new(true);
    let out = opt.apply("some-cmd", &raw);
    assert!(out.saved > 0);
    assert!(out.text.contains("(x"));
}

#[test]
fn disabled_optimizer_is_passthrough() {
    let raw = "x\nx\nx";
    let opt = Optimizer::new(false);
    let out = opt.apply("cmd", raw);
    assert_eq!(out.text, raw);
    assert_eq!(out.saved, 0);
}

#[test]
fn truncate_keeps_head_and_tail() {
    let raw: String = (0..1000).map(|i| format!("line{i}\n")).collect();
    let out = truncate_middle(&raw, 100);
    assert!(out.contains("line0"));
    assert!(out.contains("line999"));
    assert!(out.contains("elided by optimizer"));
}

#[test]
fn estimates_count_bytes() {
    assert_eq!(estimate_tokens(""), 0);
    assert_eq!(estimate_tokens("abcd"), 1);
    assert!(estimate_tokens("éééé") >= estimate_tokens("eeee"));
}

// ---- the registry ---------------------------------------------------------------------------

#[test]
fn registry_registers_and_runs() {
    let echo: fn(&Json) -> ToolOutput = |input| ToolOutput::ok(input.str_field("text").unwrap_or(""));
    let mut properties = json::members();
    json::put(&mut properties, "text", typed("string"));
    let mut reg = Registry::new();
    assert!(reg.is_empty());
    reg.register(
        advertise("echo", "echo the input back", open_object(properties)),
        echo,
    );
    assert_eq!(reg.len(), 1);
    assert_eq!(reg.specs()[0].name, "echo");

    let tool = reg.get("echo").unwrap();
    let out = tool(&parse(r#"{ "text": "hi" }"#));
    assert_eq!(out.text, "hi");
    assert!(!out.is_error);
    assert!(reg.get("nope").is_none());
}

#[test]
fn a_context_resolves_and_remembers() {
    let mut ctx = ToolCtx::new("/work");
    assert_eq!(ctx.resolve("a.txt"), "/work/a.txt");
    assert_eq!(ctx.resolve("/etc/x"), "/etc/x");
    ctx.checkpoint("edit", "/work/a.txt", Some("old".into()));
    assert_eq!(ctx.checkpoints.len(), 1);
}

// ---- files ----------------------------------------------------------------------------------

#[test]
fn edit_requires_unique_match() {
    let content = "foo\nbar\nfoo\n";
    let edit = |input: &str| Edit::plan(&parse(input), "/work").unwrap().apply(content);

    // multiple matches -> error
    let out = edit(r#"{ "path": "a.txt", "old": "foo", "new": "baz" }"#);
    assert!(out.is_err(), "duplicate `old` should error");

    // zero matches -> error
    let out = edit(r#"{ "path": "a.txt", "old": "nope", "new": "x" }"#);
    assert!(out.is_err(), "missing `old` should error");

    // unique match -> applied
    let out = edit(r#"{ "path": "a.txt", "old": "bar", "new": "BAR" }"#);
    let Ok(edited) = out else {
        panic!("unique `old` should apply");
    };
    assert_eq!(edited.updated, "foo\nBAR\nfoo\n");
    assert_eq!(edited.ask.risk, Risk::Write);
    assert_eq!(edited.ask.key, "/work/a.txt");
    assert!(edited.ask.summary.contains("BAR"), "{}", edited.ask.summary);
    assert!(Edit::plan(&parse("{}"), "/work").is_err());
    assert!(Edit::denied().is_error);
}

#[test]
fn multiedit_applies_all_or_nothing() {
    let input = parse(
        r#"{ "path": "a.txt", "edits": [ {"old": "a", "new": "b"}, {"old": "b", "new": "c"} ] }"#,
    );
    let plan = MultiEdit::plan(&input, "/work").ok().unwrap();
    assert_eq!(plan.apply("a").ok().unwrap(), "c");
    assert!(plan.apply("x").is_err());
    assert!(plan.apply("ab").is_err(), "the second match is ambiguous");
    assert_eq!(plan.ask().risk, Risk::Write);
    assert!(!plan.finish(Ok(())).is_error);
    assert!(plan.finish(Err("disk full".into())).text.contains("disk full"));
}

#[test]
fn read_returns_numbered_lines() {
    let input = parse(r#"{ "path": "b.txt", "offset": 2, "limit": 1 }"#);
    let path = Read::target(&input, "/work").ok().unwrap();
    assert_eq!(path, "/work/b.txt");
    let out = Read::finish(&input, &path, Ok("one\ntwo\nthree\n".into()));
    assert!(out.text.contains("     2\ttwo"));
    assert!(!out.text.contains("three"));
    let out = Read::finish(&input, &path, Err("gone".into()));
    assert!(out.is_error && out.text.contains("gone"));
    assert!(Read::target(&parse("{}"), "/work").is_err());
}

#[test]
fn write_reports_how_it_ended() {
    let plan = Write::plan(&parse(r#"{ "path": "d/a.txt", "content": "hé" }"#), "/work")
        .ok()
        .unwrap();
    assert_eq!(plan.path, "/work/d/a.txt");
    assert_eq!(plan.content, "hé");
    assert_eq!(plan.ask().risk, Risk::Write);
    assert!(!plan.finish(WriteEnd::Written).is_error);
    let out = plan.finish(WriteEnd::NoDir {
        dir: "/work/d".into(),
        error: "nope".into(),
    });
    assert!(out.is_error && out.text.contains("/work/d"));
    assert!(plan.finish(WriteEnd::Failed { error: "full".into() }).is_error);
    assert!(Write::plan(&parse(r#"{ "path": "x" }"#), "/work").is_err());
}

#[test]
fn grep_finds_matches() {
    let plan = Grep::plan(&parse(r#"{ "pattern": "fn wanted" }"#), "/work").ok().unwrap();
    assert_eq!(plan.root, "/work");
    let mut hits = Hits::new();
    hits.scan(&plan.pattern, "/work/code.rs", "fn wanted() {}\nother\n");
    hits.scan(&plan.pattern, "/work/other.rs", "nothing\n");
    assert!(!hits.is_full());
    let out = hits.finish();
    assert!(out.text.contains("code.rs"));
    assert!(!out.text.contains("other.rs"));
    assert!(Grep::plan(&parse(r#"{ "pattern": "(" }"#), "/work").is_err());
}

#[test]
fn glob_regex_matches_expected() {
    let re = Regex::new(&glob_to_regex("**/*.rs")).unwrap();
    assert!(re.is_match("src/main.rs"));
    assert!(re.is_match("main.rs"));
    assert!(!re.is_match("main.txt"));

    let re2 = Regex::new(&glob_to_regex("src/*.rs")).unwrap();
    assert!(re2.is_match("src/a.rs"));
    assert!(!re2.is_match("src/sub/a.rs"));
}

#[test]
fn glob_lists_matching_files() {
    let plan = Glob::plan(&parse(r#"{ "pattern": "*.rs" }"#), "/work").ok().unwrap();
    let out = Glob::finish(
        &plan.pattern,
        &vec!["b.rs".into(), "a.txt".into(), "a.rs".into()],
    );
    assert!(out.text.contains("a.rs") && out.text.contains("b.rs"));
    assert!(!out.text.contains("a.txt"));
    assert!(!Glob::finish(&plan.pattern, &Vec::new()).is_error);
}

#[test]
fn ls_lists_directories_with_a_slash() {
    assert_eq!(dir_of(&parse("{}"), "/work"), "/work");
    assert_eq!(dir_of(&parse(r#"{ "path": "src" }"#), "/work"), "/work/src");
    let out = Ls::finish(&vec![
        DirEntry {
            name: "src".into(),
            is_dir: true,
        },
        DirEntry {
            name: "a.txt".into(),
            is_dir: false,
        },
    ]);
    assert!(out.text.contains("src/"), "{}", out.text);
    assert!(out.text.contains("a.txt"));
    assert!(Ls::unreadable("/x", "denied").is_error);
}

#[test]
fn sets_and_renders_list() {
    let mut todo = Todo::new(TodoList::default());
    let out = todo.run(&parse(
        r#"{ "todos": [
            { "content": "scan", "status": "done" },
            { "content": "fix", "status": "in_progress" }
        ]}"#,
    ));
    assert!(out.text.contains("[x] scan"));
    assert!(out.text.contains("[~] fix"));
    assert_eq!(todo.items().len(), 2);
    assert!(todo.run(&parse(r#"{ "todos": 3 }"#)).is_error);
    assert_eq!(todo.items().len(), 2, "a refused call changes nothing");
}

#[test]
fn rewind_counts_its_steps() {
    assert_eq!(Rewind::steps(&parse("{}")), 1);
    assert_eq!(Rewind::steps(&parse(r#"{ "steps": 3 }"#)), 3);
    assert!(!Rewind::finish(Ok(2)).is_error);
    assert!(Rewind::finish(Err("no".into())).is_error);
}

#[test]
fn diffs_are_counted_by_their_tags() {
    let line = |tag: LineTag, text: &str| LineChange {
        tag,
        text: text.into(),
    };
    let changes = vec![
        line(LineTag::Equal, "a\n"),
        line(LineTag::Delete, "b\n"),
        line(LineTag::Insert, "c\n"),
        line(LineTag::Insert, "d\n"),
    ];
    let (added, removed) = count_tags(&changes);
    assert_eq!((added, removed), (2, 1));
    assert!(signed_lines(&changes).contains("+c"));
}

// ---- bash -----------------------------------------------------------------------------------

fn bash() -> Bash {
    Bash::new(Optimizer::new(true), ShellKind::detect(false))
}

fn exited(stdout: &str, stderr: &str, code: Option<i32>) -> RunEnd {
    RunEnd::Exited {
        stdout: stdout.into(),
        stderr: stderr.into(),
        success: code == Some(0),
        code,
    }
}

#[test]
fn bash_runs_and_reports_output() {
    let plan = Bash::plan(&parse(r#"{ "command": "echo cordy_ok" }"#)).ok().unwrap();
    assert!(!plan.background);
    assert_eq!(bash().program(), "sh");
    assert_eq!(bash().args(&plan.command), ["-c", "echo cordy_ok"]);
    let out = bash().finish(&plan.command, exited("cordy_ok\n", "", Some(0)));
    assert!(out.text.contains("cordy_ok"), "got: {}", out.text);
    assert!(!out.is_error);
}

#[test]
fn bash_reports_failures() {
    let out = bash().finish("x", exited("out", "err", Some(3)));
    assert_eq!(out.text, "out\nerr\n[exit 3]");
    assert!(out.is_error);
    assert_eq!(bash().finish("x", exited("", "", None)).text, "\n[exit -1]");
    assert!(bash().finish("x", RunEnd::TimedOut).text.contains("timed out after 120s"));
    assert_eq!(
        bash().finish("x", RunEnd::NotStarted("no sh".into())).text,
        "bash: spawn failed: no sh"
    );
    assert_eq!(bash().finish("x", RunEnd::Lost("gone".into())).text, "bash: gone");
    assert_eq!(
        Bash::plan(&parse("{}")).err().unwrap().text,
        "bash: missing `command`"
    );
    assert!(Bash::detached(Ok("bg0".into())).text.contains("id=\"bg0\""));
    assert!(Bash::detached(Err("x".into())).is_error);
}

#[test]
fn powershell_commands_get_a_prelude() {
    let args = ShellKind::detect(true).args("dir");
    assert_eq!(args.len(), 4);
    assert!(args[3].ends_with("'None';dir"));
}

// ---- background jobs ------------------------------------------------------------------------

#[test]
fn background_job_captures_output_and_exits() {
    let mut reg = BgRegistry::default();
    let id = reg.spawn("echo hello_bg");
    assert_eq!(reg.is_done(&id), Some(false));
    reg.push_line(&id, "hello_bg");
    reg.finish(&id, 0);
    assert_eq!(reg.is_done(&id), Some(true));
    let (out, status) = reg.read_new(&id).unwrap();
    assert!(out.contains("hello_bg"), "got: {out}");
    assert!(status.starts_with("exited"), "status: {status}");
    // What was shown is not shown again.
    assert_eq!(reg.read_new(&id).unwrap().0, "");
}

#[test]
fn list_and_kill() {
    let mut reg = BgRegistry::default();
    let id = reg.spawn("sleep 30");
    assert_eq!(reg.list().len(), 1);
    assert_eq!(reg.running_count(), 1);
    assert!(reg.kill(&id));
    assert_eq!(reg.is_stopping(&id), Some(true));
    assert!(!reg.kill("bg9"));
    reg.finish(&id, -2);
    assert_eq!(reg.list()[0].status, "killed");
    assert_eq!(reg.running_count(), 0);
}

#[test]
fn the_output_buffer_is_capped() {
    let mut reg = BgRegistry::default();
    let id = reg.spawn("yes");
    let line = "é".repeat(1000);
    for _ in 0..60 {
        reg.push_line(&id, &line);
    }
    let buffer = reg.snapshot(&id).unwrap();
    assert!(buffer.len() <= BUF_CAP);
    assert!(buffer.len() > BUF_CAP - 4);
}

#[test]
fn waits_end_for_a_reason() {
    let mut reg = BgRegistry::default();
    let id = reg.spawn("serve");
    reg.push_line(&id, "listening on 80");
    assert!(Process::look(&mut reg, &id, Some("ready"), false).is_none());
    let out = Process::look(&mut reg, &id, Some("listening on \\d+"), false).unwrap();
    assert_eq!(out.text, "[bg0 · running · condition met]\nlistening on 80\n");
    let out = Process::look(&mut reg, &id, None, true).unwrap();
    assert_eq!(out.text, "[bg0 · running · timeout]\n");
    reg.finish(&id, 3);
    let out = Process::look(&mut reg, &id, None, false).unwrap();
    assert_eq!(out.text, "[bg0 · exited (code 3) · job finished]\n");
    assert!(Process::look(&mut reg, "bg7", None, false).unwrap().is_error);
}

#[test]
fn the_process_tool_lists_and_reads() {
    let mut reg = BgRegistry::default();
    assert_eq!(Process::list(&reg).text, "no background jobs");
    for i in 0..11 {
        reg.spawn(&format!("job {i}"));
    }
    let listed = Process::list(&reg).text;
    let lines: Vec<&str> = listed.lines().collect();
    assert_eq!(lines[0], "bg0  [running]  job 0");
    assert_eq!(lines[2], "bg10  [running]  job 10", "ids sort as texts");
    reg.push_line("bg1", "hi");
    assert_eq!(Process::output(&mut reg, "bg1").text, "[bg1 · running]\nhi\n");
    assert_eq!(
        Process::output(&mut reg, "bg1").text,
        "[bg1 · running] (no new output)"
    );
    assert_eq!(Process::kill(&mut reg, "bg1").text, "bg1: kill requested");
    assert_eq!(Process::kill(&mut reg, "zz").text, "process: no job zz");
}

#[test]
fn process_inputs_are_read() {
    assert!(matches!(Process::request(&parse(r#"{"action":"list"}"#)), Request::List));
    let Request::Wait {
        id,
        until,
        timeout_secs,
    } = Process::request(&parse(r#"{"action":"wait","id":"bg0","until":"x","timeout_secs":9999}"#))
    else {
        panic!("expected a wait");
    };
    assert_eq!((id.as_str(), until.as_deref(), timeout_secs), ("bg0", Some("x"), 600));
    let Request::Bad(out) = Process::request(&parse(r#"{"action":"wait","id":"bg0","until":"("}"#))
    else {
        panic!("expected a refusal");
    };
    assert!(out.text.starts_with("process: bad `until`: "), "{}", out.text);
    let Request::Bad(out) = Process::request(&parse(r#"{"action":"kill"}"#)) else {
        panic!("expected a refusal");
    };
    assert_eq!(out.text, "process: missing `id`");
    assert!(matches!(
        Process::request(&parse(r#"{"id":"bg0"}"#)),
        Request::Output { .. }
    ));
}

// ---- the web --------------------------------------------------------------------------------

#[test]
fn exa_body_shape() {
    let b = exa_body("rust async", 3);
    assert_eq!(b.str_field("query"), Some("rust async"));
    assert_eq!(b.u64_field("numResults"), Some(3));
    let text = b.get("contents").unwrap().get("text").unwrap();
    assert_eq!(text.u64_field("maxCharacters"), Some(2000));
}

#[test]
fn formats_results_and_empty() {
    let v = parse(
        r#"{ "results": [
        { "title": "T", "url": "http://x", "text": "some body text" }
    ]}"#,
    );
    let out = format_results(&v);
    assert!(out.contains("T"));
    assert!(out.contains("http://x"));
    assert!(out.contains("some body text"));

    assert_eq!(format_results(&parse(r#"{ "results": [] }"#)), "no results");
    assert_eq!(format_results(&parse("{}")), "no results");
}

#[test]
fn clean_html_strips_tags_and_entities() {
    assert_eq!(
        clean_html("<b>Rust</b> &amp; <i>async</i>&#x27;s"),
        "Rust & async's"
    );
}

#[test]
fn decode_ddg_redirect() {
    let href = "//duckduckgo.com/l/?uddg=https%3A%2F%2Fdoc.rust-lang.org%2Fbook%2F&rut=abc";
    assert_eq!(decode_ddg_url(href), "https://doc.rust-lang.org/book/");
    // A direct URL passes through.
    assert_eq!(decode_ddg_url("https://example.com"), "https://example.com");
}

#[test]
fn a_page_of_results_is_scraped() {
    let html = "<a class=\"result__a\" rel=\"x\" href=\"https://a.example\">First <b>hit</b></a>\n\
        <a class=\"result__snippet\" href=\"z\">About\n it</a>\n\
        <a class=\"result__a\" href=\"https://b.example\">Second</a>";
    assert_eq!(
        page_results(html, 5).unwrap(),
        "First hit\nhttps://a.example\nAbout it\n\n---\n\nSecond\nhttps://b.example\n"
    );
    assert_eq!(
        page_results(html, 1).unwrap(),
        "First hit\nhttps://a.example\nAbout it"
    );
    assert_eq!(page_results("nothing", 5).as_deref(), Some(""));
    assert!(!suffices(&Some(String::new())));
    assert_eq!(html_form("a b&c"), "q=a+b%26c");
    assert_eq!(
        instant_url("é"),
        "https://api.duckduckgo.com/?q=%C3%A9&format=json&no_html=1&no_redirect=1"
    );
}

#[test]
fn instant_answers_are_shown() {
    let v = parse(
        r#"{ "Heading": "H", "AbstractURL": "u", "AbstractText": "t",
            "RelatedTopics": [ {"Text": "one", "FirstURL": "f"}, {"Name": "group"}, {"Text": "two"} ] }"#,
    );
    assert_eq!(
        instant_results(&v, 2).unwrap(),
        "H\nu\nt\n\n---\n\nf\none"
    );
    assert_eq!(
        instant_results(&v, 5).unwrap(),
        "H\nu\nt\n\n---\n\nf\none\n\n---\n\n\ntwo"
    );
    assert_eq!(instant_results(&parse("{}"), 5), None);
}

#[test]
fn searches_end_in_an_answer() {
    let plan = WebSearch::plan(&parse(r#"{ "query": "q", "num_results": 99 }"#)).ok().unwrap();
    assert_eq!((plan.query.as_str(), plan.num), ("q", 10));
    assert_eq!(WebSearch::plan(&parse(r#"{ "query": "q" }"#)).ok().unwrap().num, 5);
    assert!(WebSearch::plan(&parse("{}")).is_err());
    let ddg = |page: Option<&str>, instant: Option<&str>| {
        WebSearch::finish(SearchEnd::Ddg {
            page: page.map(str::to_string),
            instant: instant.map(str::to_string),
        })
        .text
    };
    assert_eq!(ddg(Some("page"), None), "page");
    assert_eq!(ddg(Some(""), Some("instant")), "instant");
    assert_eq!(ddg(None, None), "no results");
    assert_eq!(
        WebSearch::finish(SearchEnd::ExaFailed("401".into())).text,
        "web_search (exa): 401"
    );
    assert!(WebSearch::finish(SearchEnd::ExaUnreadable("x".into())).is_error);
    assert!(WebSearch::finish(SearchEnd::DdgFailed("x".into())).is_error);
    assert_eq!(WebSearch::finish(SearchEnd::Exa(parse("{}"))).text, "no results");
}

#[test]
fn fetched_pages_are_cut() {
    assert_eq!(WebFetch::plan(&parse(r#"{ "url": "http://x" }"#)).ok().unwrap(), "http://x");
    assert!(WebFetch::plan(&parse("{}")).is_err());
    let out = WebFetch::finish(Ok("é".repeat(9000)));
    assert_eq!(out.text.chars().count(), 8000);
    assert_eq!(WebFetch::finish(Err("404".into())).text, "web_fetch: 404");
}

// ---- sub-agents -----------------------------------------------------------------------------

/// Runs a child's turn on a canned response.
fn drive(running: &mut Running, events: Vec<WireEvent>) -> Result<(), String> {
    let (assistant, usage) = cordy::engine::agent::assemble(events)?;
    let mut turn = Turn::begin();
    turn.response(&mut running.child.session, assistant, usage);
    assert_eq!(turn.phase(), Phase::Over);
    Ok(())
}

fn answer() -> Vec<WireEvent> {
    vec![
        WireEvent::TextDelta("sub-agent answer".into()),
        WireEvent::Done,
    ]
}

fn helper() -> AgentDef {
    AgentDef {
        name: "helper".into(),
        description: "helps".into(),
        tools: Some(vec!["read".into()]),
        model: None,
        system_prompt: "you help".into(),
    }
}

fn base() -> Vec<String> {
    vec!["read".into(), "bash".into()]
}

#[test]
fn task_runs_subagent_and_returns_final_text() {
    let mut tool = SubAgentTool::new(base(), vec![helper()], "mock");

    let mut running = tool
        .begin(&parse(r#"{ "agent_type": "helper", "prompt": "do it" }"#))
        .ok()
        .unwrap();
    assert_eq!(running.child.tools, ["read"]);
    assert_eq!(running.child.session.model, "mock");
    assert_eq!(running.child.session.system, "you help");
    assert_eq!(running.child.session.messages, [Message::user("do it")]);
    let end = drive(&mut running, answer());
    let out = tool.finish(running, end.err());
    assert!(out.text.contains("sub-agent answer"), "{}", out.text);
    assert!(out.text.contains("handle: child0"), "{}", out.text);
    assert!(!out.is_error);

    // Continue the same live sub-agent via its handle.
    let mut running = tool
        .begin(&parse(r#"{ "continue": "child0", "prompt": "more" }"#))
        .ok()
        .unwrap();
    assert_eq!(running.child.session.messages.len(), 3);
    let end = drive(&mut running, answer());
    let cont = tool.finish(running, end.err());
    assert!(!cont.is_error, "{}", cont.text);
    assert!(cont.text.contains("handle: child0"), "{}", cont.text);

    // Unknown handle errors.
    let bad = tool.begin(&parse(r#"{ "continue": "nope", "prompt": "x" }"#));
    assert!(bad.err().unwrap().is_error);
}

#[test]
fn unknown_agent_type_errors() {
    let mut tool = SubAgentTool::new(base(), Vec::new(), "mock");
    let out = tool.begin(&parse(r#"{ "agent_type": "nope", "prompt": "x" }"#));
    assert!(out.err().unwrap().is_error);
    assert_eq!(
        tool.begin(&parse(r#"{ "prompt": "x" }"#)).err().unwrap().text,
        "task: requires `agent_type` (or `continue`)"
    );
    assert_eq!(
        tool.begin(&parse("{}")).err().unwrap().text,
        "task: requires `prompt`"
    );
}

#[test]
fn a_failed_child_is_not_kept() {
    let mut tool = SubAgentTool::new(base(), vec![helper()], "mock");
    let input = parse(r#"{ "agent_type": "helper", "prompt": "do it" }"#);
    let mut running = tool.begin(&input).ok().unwrap();
    let end = drive(&mut running, vec![WireEvent::Error("boom".into())]);
    let out = tool.finish(running, end.err());
    assert_eq!(out.text, "task: sub-agent failed: boom");
    assert!(tool
        .begin(&parse(r#"{ "continue": "child0", "prompt": "x" }"#))
        .is_err());
}

#[test]
fn the_last_text_of_a_child_counts() {
    let messages = vec![
        Message::assistant(vec![ContentBlock::text("a"), ContentBlock::text("b")]),
        Message::user("c"),
        Message::assistant(Vec::new()),
    ];
    assert_eq!(final_text(&messages), "ab");
    assert_eq!(final_text(&Vec::new()), "(sub-agent produced no text)");
    assert_eq!(
        summarize_child(&AgentEvent::TurnComplete {
            usage: Usage::default()
        })
        .as_deref(),
        Some("done")
    );
    assert_eq!(summarize_child(&AgentEvent::TextDelta("x".into())), None);
}

#[test]
fn builtin_tools_are_offered_under_different_names() {
    let source = BuiltinTools::new(Optimizer::new(true), ShellKind::detect(false));
    let names: Vec<String> = source.tools().into_iter().map(|t| t.name).collect();
    assert_eq!(
        names,
        [
            "read",
            "write",
            "edit",
            "apply_patch",
            "multiedit",
            "grep",
            "glob",
            "ls",
            "todo",
            "rewind",
            "web_search",
            "web_fetch",
            "bash",
            "process"
        ]
    );
    assert_eq!(source.prompt_fragment(), None);
    let mut registry = Registry::new();
    for (i, spec) in source.tools().into_iter().enumerate() {
        registry.register(spec, i);
    }
    assert_eq!(registry.len(), names.len());
}

#[test]
fn compressed_output_has_a_bound() {
    let opt = Optimizer::new(true);
    let raw: String = (0..1000).map(|i| format!("line {i}\n")).collect();
    let out = opt.apply("make", &raw);
    assert_eq!(out.text.lines().count(), 201);
    assert!(out.text.contains("... (800 lines elided by optimizer) ..."));
    assert!(out.saved > 0);
}

#[test]
fn a_job_is_stopped_with_all_that_it_started() {
    let (program, args) = tree_killer(false, 42);
    assert_eq!(program, "kill");
    assert_eq!(args, ["-TERM", "-42"]);
    let (program, args) = tree_killer(true, 42);
    assert_eq!(program, "taskkill");
    assert_eq!(args, ["/PID", "42", "/T", "/F"]);
}

#[test]
fn new_output_is_shown_after_the_buffer_is_full() {
    let mut reg = BgRegistry::default();
    let id = reg.spawn("yes");
    let line = "x".repeat(1023);
    for _ in 0..70 {
        reg.push_line(&id, &line);
    }
    assert_eq!(reg.read_new(&id).unwrap().0.len(), BUF_CAP);
    reg.push_line(&id, "fresh");
    assert_eq!(reg.read_new(&id).unwrap().0, "fresh\n");
    assert_eq!(reg.read_new(&id).unwrap().0, "");
    // More than the buffer holds: all of it is new.
    for _ in 0..70 {
        reg.push_line(&id, &line);
    }
    assert_eq!(reg.read_new(&id).unwrap().0.len(), BUF_CAP);
}

#[test]
fn globs_keep_letters_beyond_ascii() {
    assert_eq!(glob_to_regex("é*.rs"), "^é[^/]*\\.rs$");
    let files = vec!["été.rs".to_string(), "ete.rs".to_string()];
    assert_eq!(Glob::finish(&glob_to_regex("é*.rs"), &files).text, "été.rs");
}

#[test]
fn the_compressor_registered_first_wins() {
    let raw: String = (0..50).map(|i| format!("line {i}\n")).collect();
    let mut opt = Optimizer::new(true);
    let first: Box<dyn OutputCompressor> = Box::new(GenericCompressor { max_lines: 10 });
    opt.register(first);
    opt.register(Box::new(GenericCompressor { max_lines: 20 }));
    let out = opt.apply("make", &raw);
    assert_eq!(out.text.lines().count(), 11);
    assert!(out.text.contains("... (40 lines elided by optimizer) ..."));
    assert_eq!(Optimizer::new(true).apply("make", &raw).text.lines().count(), 50);
}
