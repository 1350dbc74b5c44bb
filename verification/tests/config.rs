use cordy::json::Number;
use cordy::config::{
    init_project, merge_by_name, remove_provider, save_provider, Config, ConfigError, McpServer,
    CONFIG_TEMPLATE,
};

#[test]
fn parses_providers_models_and_cognitive_core() {
    let cfg = Config::parse(
        r#"
        optimize = true

        [[provider]]
        name = "local"
        kind = "openai-compatible"
        base_url = "http://localhost:11434/v1"

        [[model]]
        name = "qwen2.5-coder-3b"
        provider = "local"
        context_window = 8192
        cognitive_core = true

        [[model]]
        name = "gpt-4o"
        provider = "openai"
    "#,
    )
    .unwrap();

    assert_eq!(cfg.providers.len(), 1);
    assert_eq!(cfg.providers[0].kind, "openai-compatible");
    assert!(cfg.model("qwen2.5-coder-3b").unwrap().cognitive_core);
    assert!(!cfg.model("gpt-4o").unwrap().cognitive_core);
    assert!(cfg.optimize_enabled());
}

#[test]
fn project_overrides_user_scalars_and_models() {
    let user = Config::parse(
        r#"
        optimize = false
        theme = "dark"
        [[model]]
        name = "m"
        context_window = 1000
    "#,
    )
    .unwrap();
    let project = Config::parse(
        r#"
        optimize = true
        [[model]]
        name = "m"
        context_window = 2000
        cognitive_core = true
    "#,
    )
    .unwrap();

    let merged = user.merged_with(project);
    assert_eq!(merged.optimize, Some(true)); // project wins
    assert_eq!(merged.theme.as_deref(), Some("dark")); // kept from user
    assert_eq!(merged.models.len(), 1); // merged by name
    assert_eq!(merged.model("m").unwrap().context_window, Some(2000));
    assert!(merged.model("m").unwrap().cognitive_core);
}

#[test]
fn init_scaffolds_cordy_dir() {
    let created = init_project(false, false, false, false);
    assert!(created.iter().any(|c| c.contains("agents")));
    assert!(created.iter().any(|c| c.contains("config.toml")));

    // Idempotent: a second run creates nothing new.
    let again = init_project(true, true, true, true);
    assert!(again.is_empty());
    assert!(Config::parse(CONFIG_TEMPLATE).is_ok());
}

#[test]
fn save_provider_appends_and_dedupes() {
    let file = "optimize = true\n";
    let file = save_provider(file, "nvidia", "openai-compatible", "https://x/v1").unwrap();
    let cfg = Config::load(None, Some(&file));
    assert_eq!(cfg.providers.len(), 1);
    assert_eq!(cfg.providers[0].name, "nvidia");
    assert_eq!(cfg.providers[0].base_url.as_deref(), Some("https://x/v1"));

    // Idempotent by name.
    assert_eq!(
        save_provider(&file, "nvidia", "openai-compatible", "https://x/v1"),
        None
    );

    // Comments/scalars preserved.
    assert!(file.contains("optimize = true"));
}

#[test]
fn remove_provider_drops_block_keeps_rest() {
    let file = "optimize = true\n";
    let file = save_provider(file, "a", "openai-chat", "https://a/v1").unwrap();
    let file = save_provider(&file, "b", "openai-compatible", "https://b/v1").unwrap();
    assert_eq!(Config::load(None, Some(&file)).providers.len(), 2);

    let file = remove_provider(&file, "a");
    let cfg = Config::load(None, Some(&file));
    assert_eq!(cfg.providers.len(), 1);
    assert_eq!(cfg.providers[0].name, "b");
    assert!(file.contains("optimize = true"));
}

#[test]
fn mcp_defaults_enabled() {
    let cfg = Config::parse(
        r#"
        [[mcp]]
        name = "fs"
        transport = "stdio"
        command = "mcp-server-fs"
    "#,
    )
    .unwrap();
    assert!(cfg.mcp_servers[0].enabled);
}

#[test]
fn a_text_that_is_no_configuration_is_refused() {
    assert!(matches!(
        Config::parse("optimize = ").unwrap_err(),
        ConfigError::Toml(_)
    ));
    assert_eq!(
        Config::parse("optimize = \"yes\"").unwrap_err(),
        ConfigError::Shape
    );
}

#[test]
fn what_cannot_be_read_counts_as_nothing() {
    assert_eq!(Config::load(Some("nonsense ="), None), Config::default());
    assert_eq!(Config::load(None, None), Config::default());
}

#[test]
fn permission_lists_are_joined() {
    let user = Config::parse("[permissions]\nmode = \"auto\"\nallow = [\"bash:ls *\"]").unwrap();
    let project =
        Config::parse("[permissions]\nallow = [\"bash:git *\"]\ndeny = [\"bash:rm *\"]").unwrap();
    let merged = user.merged_with(project);
    assert_eq!(merged.permissions.mode.as_deref(), Some("auto"));
    assert_eq!(merged.permissions.allow, ["bash:ls *", "bash:git *"]);
    assert_eq!(merged.permissions.deny, ["bash:rm *"]);
}

#[test]
fn merging_replaces_by_name_and_keeps_the_rest() {
    let server = |name: &str, transport: &str| McpServer {
        name: name.into(),
        transport: transport.into(),
        ..McpServer::default()
    };
    let merged = merge_by_name(
        vec![server("a", "stdio"), server("b", "stdio")],
        vec![server("b", "http"), server("c", "sse")],
    );
    let shown: Vec<(&str, &str)> = merged
        .iter()
        .map(|s| (s.name.as_str(), s.transport.as_str()))
        .collect();
    assert_eq!(shown, [("a", "stdio"), ("b", "http"), ("c", "sse")]);
}

#[test]
fn removing_a_saved_provider_gives_the_file_back() {
    let file = "# mine\noptimize = true\n\n[[provider]]\nname = \"a\"\nkind = \"openai-chat\"\n";
    let saved = save_provider(file, "b", "anthropic", "https://b.test").unwrap();
    assert!(saved.starts_with(file));
    assert_eq!(remove_provider(&saved, "b"), file);
    let bare = save_provider("optimize = true", "b", "anthropic", "https://b.test").unwrap();
    assert_eq!(remove_provider(&bare, "b"), "optimize = true\n");
}

#[test]
fn comments_around_a_removed_provider_survive() {
    let file = "[[provider]]\nname = \"a\"\nkind = \"k\"\n\n# keep me\n[permissions]\nmode = \"ask\"\n";
    let left = remove_provider(file, "a");
    assert_eq!(left, "\n# keep me\n[permissions]\nmode = \"ask\"\n");
    // A comment among an entry's own lines goes with it; those before and behind it stay.
    let file = "# head\n[[provider]]\n# inner\nname = \"a\"\n# tail\n";
    assert_eq!(remove_provider(file, "a"), "# head\n# tail\n");
}

#[test]
fn goal_defaults_are_read_and_merged() {
    let user = Config::parse(
        "[goal]\nenabled = true\ntoken_budget = 200000\ncost_cap_usd = 5.0\nmax_turns = 20",
    )
    .unwrap();
    assert!(user.goals_enabled());
    assert_eq!(user.goal.token_budget, Some(200_000));
    assert_eq!(user.goal.cost_cap_usd, Some(Number::Float("5.0".into())));
    assert_eq!(user.goal.max_turns, Some(20));
    let limits = user.goal.limits(None);
    assert_eq!(limits.token_budget, Some(200_000));
    assert_eq!(limits.cost_cap_usd, None);
    assert_eq!(limits.max_iterations, Some(20));
    let project = Config::parse("[goal]\nenabled = false\nmax_turns = 3").unwrap();
    let merged = user.merged_with(project);
    assert!(!merged.goals_enabled());
    assert_eq!(merged.goal.token_budget, Some(200_000));
    assert_eq!(merged.goal.max_turns, Some(3));
    assert!(Config::default().goals_enabled());
    assert_eq!(
        Config::parse("[goal]\nmax_turns = -1").unwrap_err(),
        ConfigError::Shape
    );
}

#[test]
fn a_price_that_is_not_finite_does_not_spoil_the_file() {
    let text = "theme = \"nord\"\n[[model]]\nname = \"m\"\nprice_in = nan\nprice_out = 1.5\n\
                [[model]]\nname = \"dear\"\nprice_in = inf\nprice_out = -inf\n\
                [[model]]\nname = \"whole\"\nprice_in = 2.0\nprice_out = 3\n";
    let cfg = Config::parse(text).unwrap();
    assert_eq!(cfg.theme.as_deref(), Some("nord"));
    let model = cfg.model("m").unwrap();
    assert_eq!(model.price_in, Some(Number::Float("NaN".into())));
    assert_eq!(model.price_out, Some(Number::Float("1.5".into())));
    let dear = cfg.model("dear").unwrap();
    assert_eq!(dear.price_in, Some(Number::Float("inf".into())));
    assert_eq!(dear.price_out, Some(Number::Float("-inf".into())));
    let whole = cfg.model("whole").unwrap();
    assert_eq!(whole.price_in, Some(Number::Float("2.0".into())));
    assert_eq!(whole.price_out, Some(Number::PosInt(3)));
}

#[test]
fn a_date_is_no_price() {
    assert_eq!(
        Config::parse("[[model]]\nname = \"m\"\nprice_in = 1979-05-27").unwrap_err(),
        ConfigError::Shape
    );
    assert!(Config::parse("since = 1979-05-27").is_ok());
}

#[test]
fn refusals_are_put_in_words() {
    assert_eq!(
        ConfigError::Shape.to_text(),
        "a setting has a value of the wrong type"
    );
    assert_eq!(ConfigError::Toml("bad".into()).to_text(), "bad");
}

#[test]
fn merging_onto_nothing_gives_the_same() {
    let text = "[[model]]\nname = \"a\"\n[[model]]\nname = \"b\"\n[permissions]\nallow = [\"x\"]";
    let cfg = Config::parse(text).unwrap();
    assert_eq!(Config::default().merged_with(Config::parse(text).unwrap()), cfg);
}
