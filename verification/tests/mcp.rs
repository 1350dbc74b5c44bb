use cordy::engine::capability::CapabilitySource;
use cordy::json::{self, Json};
use cordy::mcp::{launch, qualify, McpCapability, McpTool, RemoteTool};
use cordy::engine::permission::{PermissionEngine, Rule};
use cordy::tools::{DenyAll, Permission, Risk};

#[test]
fn qualify_namespaces() {
    assert_eq!(qualify("fs", "read_file"), "fs__read_file");
}

fn remote(name: &str, description: Option<&str>) -> McpTool {
    McpTool::wrap(
        "fs",
        RemoteTool {
            name: name.into(),
            description: description.map(|d| d.to_string()),
            schema: json::object(json::members()),
        },
    )
}

#[test]
fn a_server_offers_its_tools_under_qualified_names() {
    let source = McpCapability::new("fs", vec![remote("ls", Some("list")), remote("rm", None)]);
    let tools = source.tools();
    assert_eq!(tools.len(), 2);
    assert_eq!(tools[0].name, "fs__ls");
    assert_eq!(tools[0].description, "list");
    assert_eq!(tools[1].name, "fs__rm");
    assert_eq!(tools[1].description, "");
    assert_eq!(
        source.prompt_fragment().as_deref(),
        Some("## MCP server `fs` (2 tools available)\n")
    );
    assert_eq!(
        McpCapability::new("fs", Vec::new()).prompt_fragment(),
        None
    );
}

#[test]
fn an_answer_joins_its_texts() {
    let tool = remote("ls", None);
    assert_eq!(tool.real, "ls");
    assert_eq!(tool.risk(), Risk::Network);
    let out = McpTool::answered(&vec!["a".to_string(), "b".to_string()], None);
    assert_eq!(out.text, "a\nb");
    assert!(!out.is_error);
    assert!(McpTool::answered(&Vec::new(), Some(true)).is_error);
    assert_eq!(tool.failed("gone").text, "mcp fs__ls: gone");
    assert!(tool.failed("gone").is_error);
    assert!(McpTool::sends_arguments(&json::object(json::members())));
    assert!(!McpTool::sends_arguments(&Json::Null));
}

#[test]
fn scripts_are_launched_through_cmd_on_windows() {
    let args = vec!["-y".to_string(), "server".to_string()];
    assert_eq!(launch(false, "npx", &args), ("npx".to_string(), args.clone()));
    let (program, words) = launch(true, "npx", &args);
    assert_eq!(program, "cmd");
    assert_eq!(words, ["/c", "npx", "-y", "server"]);
}

#[test]
fn qualified_names_collide_only_where_a_server_name_holds_the_separator() {
    assert_eq!(qualify("a", "b__c"), qualify("a__b", "c"));
    assert_eq!(qualify("a", "_b"), qualify("a_", "b"));
    assert_ne!(qualify("a", "b_c"), qualify("a_b", "c"));
}

#[test]
fn a_call_asks_under_its_qualified_name() {
    let tool = remote("ls", None);
    let ask = tool.ask();
    assert_eq!(ask.risk, Risk::Network);
    assert_eq!(ask.tool, "fs__ls");
    assert_eq!(ask.key, "fs__ls");
    assert_eq!(ask.summary, "fs__ls");
    let gate = PermissionEngine::new(DenyAll).with_rules(vec![Rule::new("fs__ls", "*", true)]);
    assert!(gate.request(&ask));
    assert!(!gate.request(&remote("rm", None).ask()));
    assert_eq!(tool.denied().text, "fs__ls: denied");
    assert!(tool.denied().is_error);
}
