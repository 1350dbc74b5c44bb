use cordy::agents::{load_agents, parse_agent_md, AgentRegistry};
use cordy::engine::capability::CapabilitySource;
use cordy::json::{self, Json};
use cordy::skills::{load_skills, parse_skill_md, SkillDef, SkillEntry, SkillSet, SkillTool};
use cordy::tools::subagent::SubAgentTool;

fn object(pairs: &[(&str, &str)]) -> Json {
    let mut m = json::members();
    for (k, v) in pairs {
        json::put(&mut m, k, json::string(v));
    }
    json::object(m)
}

#[test]
fn parses_frontmatter_and_body() {
    let md = "---\nname: auditor\ndescription: reviews diffs\ntools: read, grep\nmodel: gpt-4o\n---\nYou review code carefully.";
    let def = parse_agent_md(md, "fallback");
    assert_eq!(def.name, "auditor");
    assert_eq!(def.description, "reviews diffs");
    assert_eq!(
        def.tools,
        Some(vec!["read".to_string(), "grep".to_string()])
    );
    assert_eq!(def.model.as_deref(), Some("gpt-4o"));
    assert_eq!(def.system_prompt, "You review code carefully.");
}

#[test]
fn no_frontmatter_uses_fallback_name_and_full_body() {
    let def = parse_agent_md("just a prompt", "helper");
    assert_eq!(def.name, "helper");
    assert_eq!(def.tools, None);
    assert_eq!(def.system_prompt, "just a prompt");
}

#[test]
fn agents_come_from_markdown_files_alone() {
    let files = vec![
        ("notes.txt".to_string(), "ignored".to_string()),
        ("helper.md".to_string(), "help out".to_string()),
    ];
    let defs = load_agents(&files);
    assert_eq!(defs.len(), 1);
    assert_eq!(defs[0].name, "helper");
    let task = SubAgentTool::new(Vec::new(), Vec::new(), "m");
    let registry = AgentRegistry::new(defs, task.spec());
    assert_eq!(
        registry.prompt_fragment().as_deref(),
        Some("## Sub-agents (spawn via the `task` tool)\n- helper: \n")
    );
    let tools = registry.tools();
    assert_eq!(tools.len(), 1);
    assert_eq!(tools[0].name, "task");
    let empty = AgentRegistry::new(Vec::new(), task.spec());
    assert_eq!(empty.prompt_fragment(), None);
}

#[test]
fn parses_skill_frontmatter() {
    let md = "---\nname: commit\ndescription: write commits\nwhen-to-use: before committing\n---\nWrite a conventional commit.";
    let s = parse_skill_md(md, "fallback");
    assert_eq!(s.name, "commit");
    assert_eq!(s.when_to_use.as_deref(), Some("before committing"));
    assert_eq!(s.body, "Write a conventional commit.");
}

#[test]
fn skill_tool_returns_body_on_demand() {
    let tool = SkillTool {
        skills: vec![SkillDef {
            name: "commit".into(),
            description: "write commits".into(),
            when_to_use: None,
            body: "Full commit instructions.".into(),
        }],
    };
    let out = tool.run(&object(&[("name", "commit")]));
    assert_eq!(out.text, "Full commit instructions.");
    assert!(!out.is_error);

    let miss = tool.run(&object(&[("name", "nope")]));
    assert!(miss.is_error);
    assert!(tool.run(&object(&[])).is_error);
}

#[test]
fn skillset_fragment_lists_names() {
    let set = SkillSet::new(vec![SkillDef {
        name: "commit".into(),
        description: "write commits".into(),
        when_to_use: Some("before committing".into()),
        body: "x".into(),
    }]);
    let frag = set.prompt_fragment().unwrap();
    assert!(frag.contains("commit: write commits"));
    assert!(frag.contains("when: before committing"));
    assert_eq!(set.tools().len(), 1);
    assert_eq!(set.tools()[0].name, "skill");
    let none = SkillSet::new(Vec::new());
    assert_eq!(none.tools().len(), 0);
    assert!(none.tool().is_none());
    assert_eq!(none.prompt_fragment(), None);
}

#[test]
fn skills_come_from_files_and_directories() {
    let skills = load_skills(&vec![
        SkillEntry {
            name: "review".into(),
            is_dir: true,
            text: Some("Review it.".into()),
        },
        SkillEntry {
            name: "commit.md".into(),
            is_dir: false,
            text: Some("Commit it.".into()),
        },
        SkillEntry {
            name: "empty".into(),
            is_dir: true,
            text: None,
        },
        SkillEntry {
            name: "notes.txt".into(),
            is_dir: false,
            text: Some("no".into()),
        },
    ]);
    let mut names: Vec<&str> = skills.iter().map(|s| s.name.as_str()).collect();
    names.sort();
    assert_eq!(names, ["commit", "review"]);
}

#[test]
fn only_a_line_of_dashes_ends_the_frontmatter() {
    let def = parse_agent_md("---\nname: a\n---- x\nmodel: m\n---\nbody", "f");
    assert_eq!(def.name, "a");
    assert_eq!(def.description, "");
    assert_eq!(def.tools, None);
    assert_eq!(def.model.as_deref(), Some("m"));
    assert_eq!(def.system_prompt, "body");
    let windows = parse_agent_md("---\r\nname: a\r\n---\r\nbody\r\n", "f");
    assert_eq!(windows.name, "a");
    assert_eq!(windows.system_prompt, "body");
    let open = parse_agent_md("---\nname: a\n---- x", "f");
    assert_eq!(open.name, "f");
    assert_eq!(open.system_prompt, "---\nname: a\n---- x");
    let skill = parse_skill_md("---\nname: s\n----\ndescription: d\n---\nb", "f");
    assert_eq!(skill.description, "d");
    assert_eq!(skill.body, "b");
}
