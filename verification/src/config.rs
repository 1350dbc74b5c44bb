//! Configuration: TOML of a project's `.cordy/config.toml` merged over the user-level
//! `~/.cordy/config.toml`.
//!
//! Scalars: the project file wins when it sets a value. Lists (`provider`, `model`, `mcp`): user and
//! project entries are concatenated, and a project entry with the same `name` replaces the user's.
//! Carries the model catalog (context window, pricing, and the `cognitive_core` flag that switches
//! the environment into small-orchestrator mode).

use crate::engine::goal::{GoalLimits, Usd};
use crate::json;
use crate::json::{Json, JsonSpec, Number, NumberSpec};
use crate::text;
use toml::Value;
use vstd::prelude::*;
use vstd::string::*;

verus! {

broadcast use crate::text::views_push;

#[derive(Debug, PartialEq)]
pub struct Config {
    /// Native token optimizer on/off (default on when absent).
    pub optimize: Option<bool>,
    /// Show the animated mascot (default on).
    pub mascot: Option<bool>,
    pub theme: Option<String>,
    /// Custom status-line template. Placeholders: `{cwd}` `{model}` `{provider}` `{mode}`
    /// `{tokens}` `{cost}` `{ctx}` `{saved}` `{status}` `{spinner}` `{version}`. `None` = default.
    pub statusline: Option<String>,
    pub compact_model: Option<String>,
    pub compact_threshold: Option<u64>,
    /// `manual` | `auto`.
    pub compact_mode: Option<String>,
    pub providers: Vec<ProviderProfile>,
    pub models: Vec<ModelProfile>,
    pub mcp_servers: Vec<McpServer>,
    /// Up-front permission rules so the agent doesn't prompt for pre-approved commands.
    pub permissions: PermissionConfig,
    /// Per-role color overrides (`#rrggbb`) applied on top of the selected theme.
    pub colors: ColorConfig,
    /// Defaults for autonomous goals.
    pub goal: GoalConfig,
}

/// Defaults for autonomous goals: whichever cap is hit first ends the run. A cap that is not set does
/// not limit.
#[derive(Debug, PartialEq)]
pub struct GoalConfig {
    /// Whether goals are kept at all (default on).
    pub enabled: Option<bool>,
    pub token_budget: Option<i64>,
    pub cost_cap_usd: Option<Number>,
    pub max_turns: Option<u32>,
}

/// Hex color overrides for the UI theme. Any unset field keeps the theme's default.
#[derive(Debug, Clone, PartialEq)]
pub struct ColorConfig {
    pub user: Option<String>,
    pub assistant: Option<String>,
    pub tool: Option<String>,
    pub system: Option<String>,
    pub dim: Option<String>,
    pub accent: Option<String>,
    pub border: Option<String>,
    pub surface: Option<String>,
    pub base: Option<String>,
}

/// Pre-configured permission rules. Entries are `tool:glob` (e.g. `bash:ls *`, `bash:git *`);
/// a bare glob applies to any tool. `mode = "auto"` approves everything not explicitly denied
/// (writes outside the working directory still prompt).
#[derive(Debug, Clone, PartialEq)]
pub struct PermissionConfig {
    /// `ask` (default) or `auto`.
    pub mode: Option<String>,
    pub allow: Vec<String>,
    pub deny: Vec<String>,
}

#[derive(Debug, Clone, PartialEq)]
pub struct ProviderProfile {
    pub name: String,
    /// `openai-chat` | `openai-compatible` | `anthropic` | `openai-responses`.
    pub kind: String,
    pub base_url: Option<String>,
    /// Env var holding the API key.
    pub api_key_env: Option<String>,
}

#[derive(Debug, PartialEq)]
pub struct ModelProfile {
    pub name: String,
    pub provider: Option<String>,
    pub context_window: Option<u64>,
    pub price_in: Option<Number>,
    pub price_out: Option<Number>,
    /// Small (2-4B) always-on orchestrator: lean prompt, retrieval-first, max optimize,
    /// small-context compaction, constrained tool output, escalate hard steps.
    pub cognitive_core: bool,
}

#[derive(Debug, Clone, PartialEq)]
pub struct McpServer {
    pub name: String,
    /// `stdio` | `http` | `sse`.
    pub transport: String,
    pub command: Option<String>,
    pub url: Option<String>,
    pub enabled: bool,
}

/// Why a configuration file was refused.
#[derive(Debug, Clone, PartialEq)]
pub enum ConfigError {
    /// The text is no TOML; the reader's message.
    Toml(String),
    /// A setting has a value of the wrong type.
    Shape,
}

// ---- mathematical values --------------------------------------------------------------------

/// The mathematical value of a [`Config`].
pub struct ConfigView {
    pub optimize: Option<bool>,
    pub mascot: Option<bool>,
    pub theme: Option<Seq<char>>,
    pub statusline: Option<Seq<char>>,
    pub compact_model: Option<Seq<char>>,
    pub compact_threshold: Option<u64>,
    pub compact_mode: Option<Seq<char>>,
    pub providers: Seq<ProviderView>,
    pub models: Seq<ModelView>,
    pub mcp_servers: Seq<McpView>,
    pub permissions: PermissionView,
    pub colors: ColorView,
    pub goal: GoalDefaults,
}

/// The mathematical value of a [`GoalConfig`].
pub struct GoalDefaults {
    pub enabled: Option<bool>,
    pub token_budget: Option<i64>,
    pub cost_cap_usd: Option<NumberSpec>,
    pub max_turns: Option<u32>,
}

/// The mathematical value of a [`ColorConfig`].
pub struct ColorView {
    pub user: Option<Seq<char>>,
    pub assistant: Option<Seq<char>>,
    pub tool: Option<Seq<char>>,
    pub system: Option<Seq<char>>,
    pub dim: Option<Seq<char>>,
    pub accent: Option<Seq<char>>,
    pub border: Option<Seq<char>>,
    pub surface: Option<Seq<char>>,
    pub base: Option<Seq<char>>,
}

/// The mathematical value of a [`PermissionConfig`].
pub struct PermissionView {
    pub mode: Option<Seq<char>>,
    pub allow: Seq<Seq<char>>,
    pub deny: Seq<Seq<char>>,
}

/// The mathematical value of a [`ProviderProfile`].
pub struct ProviderView {
    pub name: Seq<char>,
    pub kind: Seq<char>,
    pub base_url: Option<Seq<char>>,
    pub api_key_env: Option<Seq<char>>,
}

/// The mathematical value of a [`ModelProfile`].
pub struct ModelView {
    pub name: Seq<char>,
    pub provider: Option<Seq<char>>,
    pub context_window: Option<u64>,
    pub price_in: Option<NumberSpec>,
    pub price_out: Option<NumberSpec>,
    pub cognitive_core: bool,
}

/// The mathematical value of a [`McpServer`].
pub struct McpView {
    pub name: Seq<char>,
    pub transport: Seq<char>,
    pub command: Option<Seq<char>>,
    pub url: Option<Seq<char>>,
    pub enabled: bool,
}

/// The mathematical value of a [`ConfigError`].
pub enum ConfigErrorView {
    Toml(Seq<char>),
    Shape,
}

/// The value of an optional number.
pub open spec fn number_view(n: Option<Number>) -> Option<NumberSpec> {
    match n {
        Some(n) => Some(n@),
        None => None,
    }
}

impl View for Config {
    type V = ConfigView;

    open spec fn view(&self) -> ConfigView {
        ConfigView {
            optimize: self.optimize,
            mascot: self.mascot,
            theme: text::opt_view(self.theme),
            statusline: text::opt_view(self.statusline),
            compact_model: text::opt_view(self.compact_model),
            compact_threshold: self.compact_threshold,
            compact_mode: text::opt_view(self.compact_mode),
            providers: text::views(self.providers@),
            models: text::views(self.models@),
            mcp_servers: text::views(self.mcp_servers@),
            permissions: self.permissions@,
            colors: self.colors@,
            goal: self.goal@,
        }
    }
}

impl View for GoalConfig {
    type V = GoalDefaults;

    open spec fn view(&self) -> GoalDefaults {
        GoalDefaults {
            enabled: self.enabled,
            token_budget: self.token_budget,
            cost_cap_usd: number_view(self.cost_cap_usd),
            max_turns: self.max_turns,
        }
    }
}

impl View for ColorConfig {
    type V = ColorView;

    open spec fn view(&self) -> ColorView {
        ColorView {
            user: text::opt_view(self.user),
            assistant: text::opt_view(self.assistant),
            tool: text::opt_view(self.tool),
            system: text::opt_view(self.system),
            dim: text::opt_view(self.dim),
            accent: text::opt_view(self.accent),
            border: text::opt_view(self.border),
            surface: text::opt_view(self.surface),
            base: text::opt_view(self.base),
        }
    }
}

impl View for PermissionConfig {
    type V = PermissionView;

    open spec fn view(&self) -> PermissionView {
        PermissionView {
            mode: text::opt_view(self.mode),
            allow: text::views(self.allow@),
            deny: text::views(self.deny@),
        }
    }
}

impl View for ProviderProfile {
    type V = ProviderView;

    open spec fn view(&self) -> ProviderView {
        ProviderView {
            name: self.name@,
            kind: self.kind@,
            base_url: text::opt_view(self.base_url),
            api_key_env: text::opt_view(self.api_key_env),
        }
    }
}

impl View for ModelProfile {
    type V = ModelView;

    open spec fn view(&self) -> ModelView {
        ModelView {
            name: self.name@,
            provider: text::opt_view(self.provider),
            context_window: self.context_window,
            price_in: number_view(self.price_in),
            price_out: number_view(self.price_out),
            cognitive_core: self.cognitive_core,
        }
    }
}

impl View for McpServer {
    type V = McpView;

    open spec fn view(&self) -> McpView {
        McpView {
            name: self.name@,
            transport: self.transport@,
            command: text::opt_view(self.command),
            url: text::opt_view(self.url),
            enabled: self.enabled,
        }
    }
}

impl View for ConfigError {
    type V = ConfigErrorView;

    open spec fn view(&self) -> ConfigErrorView {
        match self {
            ConfigError::Toml(e) => ConfigErrorView::Toml(e@),
            ConfigError::Shape => ConfigErrorView::Shape,
        }
    }
}

// ---- defaults -------------------------------------------------------------------------------

pub open spec fn no_colors() -> ColorView {
    ColorView {
        user: None,
        assistant: None,
        tool: None,
        system: None,
        dim: None,
        accent: None,
        border: None,
        surface: None,
        base: None,
    }
}

pub open spec fn no_goal_defaults() -> GoalDefaults {
    GoalDefaults { enabled: None, token_budget: None, cost_cap_usd: None, max_turns: None }
}

pub open spec fn no_permissions() -> PermissionView {
    PermissionView { mode: None, allow: seq![], deny: seq![] }
}

/// A configuration that sets nothing.
pub open spec fn no_config() -> ConfigView {
    ConfigView {
        optimize: None,
        mascot: None,
        theme: None,
        statusline: None,
        compact_model: None,
        compact_threshold: None,
        compact_mode: None,
        providers: seq![],
        models: seq![],
        mcp_servers: seq![],
        permissions: no_permissions(),
        colors: no_colors(),
        goal: no_goal_defaults(),
    }
}

impl Default for ColorConfig {
    fn default() -> (r: ColorConfig)
        ensures
            r@ == no_colors(),
    {
        ColorConfig {
            user: None,
            assistant: None,
            tool: None,
            system: None,
            dim: None,
            accent: None,
            border: None,
            surface: None,
            base: None,
        }
    }
}

impl Default for GoalConfig {
    fn default() -> (r: GoalConfig)
        ensures
            r@ == no_goal_defaults(),
    {
        GoalConfig { enabled: None, token_budget: None, cost_cap_usd: None, max_turns: None }
    }
}

impl Default for PermissionConfig {
    fn default() -> (r: PermissionConfig)
        ensures
            r@ == no_permissions(),
    {
        let r = PermissionConfig { mode: None, allow: Vec::new(), deny: Vec::new() };
        assert(text::views(r.allow@) =~= seq![]);
        assert(text::views(r.deny@) =~= seq![]);
        r
    }
}

impl Default for McpServer {
    fn default() -> (r: McpServer)
        ensures
            r@ == (McpView {
                name: seq![],
                transport: "stdio"@,
                command: None,
                url: None,
                enabled: true,
            }),
    {
        let name = String::new();
        assert(name@ =~= seq![]);
        McpServer { name, transport: "stdio".to_string(), command: None, url: None, enabled: true }
    }
}

impl Default for Config {
    fn default() -> (r: Config)
        ensures
            r@ == no_config(),
    {
        let r = Config {
            optimize: None,
            mascot: None,
            theme: None,
            statusline: None,
            compact_model: None,
            compact_threshold: None,
            compact_mode: None,
            providers: Vec::new(),
            models: Vec::new(),
            mcp_servers: Vec::new(),
            permissions: PermissionConfig::default(),
            colors: ColorConfig::default(),
            goal: GoalConfig::default(),
        };
        assert(text::views(r.providers@) =~= seq![]);
        assert(text::views(r.models@) =~= seq![]);
        assert(text::views(r.mcp_servers@) =~= seq![]);
        r
    }
}

// ---- reading --------------------------------------------------------------------------------

/// What the `toml` crate reads in a text: the document, or its error message.
pub uninterp spec fn toml_parsed(text: Seq<char>) -> Result<JsonSpec, Seq<char>>;

/// A TOML value as the `toml` crate holds it.
#[verifier::external_type_specification]
#[verifier::external_body]
pub struct ExTomlValue(toml::Value);

/// A `toml::Value` as plain values, one variant for each: a float as the text that Rust prints for it
/// (`inf` and `NaN` among them), a date as the one-member table that the crate hands to readers.
#[verifier::external_body]
fn from_toml(value: Value) -> Json {
    match value {
        Value::String(s) => Json::Str(s),
        Value::Integer(i) => Json::Number(
            u64::try_from(i).map_or(Number::NegInt(i), Number::PosInt)),
        Value::Float(f) => Json::Number(Number::Float(format!("{f:?}"))),
        Value::Boolean(b) => Json::Bool(b),
        Value::Datetime(d) => Json::Object(
            vec![("$__toml_private_datetime".to_string(), Json::Str(d.to_string()))]),
        Value::Array(v) => Json::Array(v.into_iter().map(from_toml).collect()),
        Value::Table(t) => Json::Object(t.into_iter().map(|(k, v)| (k, from_toml(v))).collect()),
    }
}

/// `toml::from_str` into a `toml::Value`, whose contents become plain values. Whether a text is TOML,
/// what it holds, and the error's message depend on the text alone.
#[verifier::external_body]
fn parse_toml(text: &str) -> (r: Result<Json, String>)
    ensures
        match r {
            Ok(value) => toml_parsed(text@) == Ok::<JsonSpec, Seq<char>>(value.model()),
            Err(e) => toml_parsed(text@) == Err::<JsonSpec, Seq<char>>(e@),
        },
{
    match toml::from_str::<toml::Value>(text) {
        Ok(value) => Ok(from_toml(value)),
        Err(e) => Err(e.to_string()),
    }
}

// A setting that is absent has its default; one of the wrong type makes the whole file unfit. Each of
// these is none where the value does not fit.

pub open spec fn opt_bool(v: Option<JsonSpec>) -> Option<Option<bool>> {
    match v {
        None => Some(None),
        Some(JsonSpec::Bool(b)) => Some(Some(b)),
        _ => None,
    }
}

pub open spec fn opt_text(v: Option<JsonSpec>) -> Option<Option<Seq<char>>> {
    match v {
        None => Some(None),
        Some(JsonSpec::Str(s)) => Some(Some(s)),
        _ => None,
    }
}

pub open spec fn opt_u64(v: Option<JsonSpec>) -> Option<Option<u64>> {
    match v {
        None => Some(None),
        Some(JsonSpec::Number(NumberSpec::PosInt(n))) => Some(Some(n)),
        _ => None,
    }
}

pub open spec fn opt_i64(v: Option<JsonSpec>) -> Option<Option<i64>> {
    match v {
        None => Some(None),
        Some(JsonSpec::Number(NumberSpec::PosInt(n))) if n <= i64::MAX => Some(Some(n as i64)),
        Some(JsonSpec::Number(NumberSpec::NegInt(n))) => Some(Some(n)),
        _ => None,
    }
}

pub open spec fn opt_u32(v: Option<JsonSpec>) -> Option<Option<u32>> {
    match v {
        None => Some(None),
        Some(JsonSpec::Number(NumberSpec::PosInt(n))) if n <= u32::MAX => Some(Some(n as u32)),
        _ => None,
    }
}

pub open spec fn opt_number(v: Option<JsonSpec>) -> Option<Option<NumberSpec>> {
    match v {
        None => Some(None),
        Some(JsonSpec::Number(n)) => Some(Some(n)),
        _ => None,
    }
}

pub open spec fn bool_or(v: Option<JsonSpec>, default: bool) -> Option<bool> {
    match v {
        None => Some(default),
        Some(JsonSpec::Bool(b)) => Some(b),
        _ => None,
    }
}

pub open spec fn text_or(v: Option<JsonSpec>, default: Seq<char>) -> Option<Seq<char>> {
    match v {
        None => Some(default),
        Some(JsonSpec::Str(s)) => Some(s),
        _ => None,
    }
}

/// The first `n` items as texts.
pub open spec fn texts_to(items: Seq<JsonSpec>, n: int) -> Option<Seq<Seq<char>>>
    decreases n,
{
    if n <= 0 {
        Some(seq![])
    } else {
        match (texts_to(items, n - 1), items[n - 1]) {
            (Some(before), JsonSpec::Str(s)) => Some(before.push(s)),
            _ => None,
        }
    }
}

pub open spec fn texts_in(v: Option<JsonSpec>) -> Option<Seq<Seq<char>>> {
    match v {
        None => Some(seq![]),
        Some(JsonSpec::Array(items)) => texts_to(items, items.len() as int),
        _ => None,
    }
}

/// A value that can hold settings: a table, or an array that lists them in order.
pub open spec fn is_table(j: JsonSpec) -> bool {
    j is Object || j is Array
}

pub open spec fn provider_in(j: JsonSpec) -> Option<ProviderView> {
    match (
        json::slot(j, "name"@, 0),
        json::slot(j, "kind"@, 1),
        opt_text(json::slot(j, "base_url"@, 2)),
        opt_text(json::slot(j, "api_key_env"@, 3)),
    ) {
        (
            Some(JsonSpec::Str(name)),
            Some(JsonSpec::Str(kind)),
            Some(base_url),
            Some(api_key_env),
        ) if is_table(j) => Some(ProviderView { name, kind, base_url, api_key_env }),
        _ => None,
    }
}

pub open spec fn model_in(j: JsonSpec) -> Option<ModelView> {
    match (
        text_or(json::slot(j, "name"@, 0), seq![]),
        opt_text(json::slot(j, "provider"@, 1)),
        opt_u64(json::slot(j, "context_window"@, 2)),
        opt_number(json::slot(j, "price_in"@, 3)),
        opt_number(json::slot(j, "price_out"@, 4)),
        bool_or(json::slot(j, "cognitive_core"@, 5), false),
    ) {
        (
            Some(name),
            Some(provider),
            Some(context_window),
            Some(price_in),
            Some(price_out),
            Some(cognitive_core),
        ) if is_table(j) => Some(
            ModelView { name, provider, context_window, price_in, price_out, cognitive_core },
        ),
        _ => None,
    }
}

pub open spec fn mcp_in(j: JsonSpec) -> Option<McpView> {
    match (
        text_or(json::slot(j, "name"@, 0), seq![]),
        text_or(json::slot(j, "transport"@, 1), "stdio"@),
        opt_text(json::slot(j, "command"@, 2)),
        opt_text(json::slot(j, "url"@, 3)),
        bool_or(json::slot(j, "enabled"@, 4), true),
    ) {
        (Some(name), Some(transport), Some(command), Some(url), Some(enabled)) if is_table(
            j,
        ) => Some(McpView { name, transport, command, url, enabled }),
        _ => None,
    }
}

pub open spec fn permissions_in(v: Option<JsonSpec>) -> Option<PermissionView> {
    match v {
        None => Some(no_permissions()),
        Some(j) => match (
            opt_text(json::slot(j, "mode"@, 0)),
            texts_in(json::slot(j, "allow"@, 1)),
            texts_in(json::slot(j, "deny"@, 2)),
        ) {
            (Some(mode), Some(allow), Some(deny)) if is_table(j) => Some(
                PermissionView { mode, allow, deny },
            ),
            _ => None,
        },
    }
}

pub open spec fn goal_defaults_in(v: Option<JsonSpec>) -> Option<GoalDefaults> {
    match v {
        None => Some(no_goal_defaults()),
        Some(j) => match (
            opt_bool(json::slot(j, "enabled"@, 0)),
            opt_i64(json::slot(j, "token_budget"@, 1)),
            opt_number(json::slot(j, "cost_cap_usd"@, 2)),
            opt_u32(json::slot(j, "max_turns"@, 3)),
        ) {
            (Some(enabled), Some(token_budget), Some(cost_cap_usd), Some(max_turns)) if is_table(
                j,
            ) => Some(GoalDefaults { enabled, token_budget, cost_cap_usd, max_turns }),
            _ => None,
        },
    }
}

pub open spec fn colors_in(v: Option<JsonSpec>) -> Option<ColorView> {
    match v {
        None => Some(no_colors()),
        Some(j) => match (
            opt_text(json::slot(j, "user"@, 0)),
            opt_text(json::slot(j, "assistant"@, 1)),
            opt_text(json::slot(j, "tool"@, 2)),
            opt_text(json::slot(j, "system"@, 3)),
            opt_text(json::slot(j, "dim"@, 4)),
            opt_text(json::slot(j, "accent"@, 5)),
            opt_text(json::slot(j, "border"@, 6)),
            opt_text(json::slot(j, "surface"@, 7)),
            opt_text(json::slot(j, "base"@, 8)),
        ) {
            (
                Some(user),
                Some(assistant),
                Some(tool),
                Some(system),
                Some(dim),
                Some(accent),
                Some(border),
                Some(surface),
                Some(base),
            ) if is_table(j) => Some(
                ColorView { user, assistant, tool, system, dim, accent, border, surface, base },
            ),
            _ => None,
        },
    }
}

/// The first `n` items as entries.
pub open spec fn providers_to(items: Seq<JsonSpec>, n: int) -> Option<Seq<ProviderView>>
    decreases n,
{
    if n <= 0 {
        Some(seq![])
    } else {
        match (providers_to(items, n - 1), provider_in(items[n - 1])) {
            (Some(before), Some(entry)) => Some(before.push(entry)),
            _ => None,
        }
    }
}

pub open spec fn providers_in(v: Option<JsonSpec>) -> Option<Seq<ProviderView>> {
    match v {
        None => Some(seq![]),
        Some(JsonSpec::Array(items)) => providers_to(items, items.len() as int),
        _ => None,
    }
}

/// The first `n` items as entries.
pub open spec fn models_to(items: Seq<JsonSpec>, n: int) -> Option<Seq<ModelView>>
    decreases n,
{
    if n <= 0 {
        Some(seq![])
    } else {
        match (models_to(items, n - 1), model_in(items[n - 1])) {
            (Some(before), Some(entry)) => Some(before.push(entry)),
            _ => None,
        }
    }
}

pub open spec fn models_in(v: Option<JsonSpec>) -> Option<Seq<ModelView>> {
    match v {
        None => Some(seq![]),
        Some(JsonSpec::Array(items)) => models_to(items, items.len() as int),
        _ => None,
    }
}

/// The first `n` items as entries.
pub open spec fn mcps_to(items: Seq<JsonSpec>, n: int) -> Option<Seq<McpView>>
    decreases n,
{
    if n <= 0 {
        Some(seq![])
    } else {
        match (mcps_to(items, n - 1), mcp_in(items[n - 1])) {
            (Some(before), Some(entry)) => Some(before.push(entry)),
            _ => None,
        }
    }
}

pub open spec fn mcps_in(v: Option<JsonSpec>) -> Option<Seq<McpView>> {
    match v {
        None => Some(seq![]),
        Some(JsonSpec::Array(items)) => mcps_to(items, items.len() as int),
        _ => None,
    }
}


/// The configuration that a document holds.
pub open spec fn config_in(j: JsonSpec) -> Option<ConfigView> {
    match (
        (
            opt_bool(json::slot(j, "optimize"@, 0)),
            opt_bool(json::slot(j, "mascot"@, 1)),
            opt_text(json::slot(j, "theme"@, 2)),
            opt_text(json::slot(j, "statusline"@, 3)),
            opt_text(json::slot(j, "compact_model"@, 4)),
            opt_u64(json::slot(j, "compact_threshold"@, 5)),
        ),
        (
            opt_text(json::slot(j, "compact_mode"@, 6)),
            providers_in(json::slot(j, "provider"@, 7)),
            models_in(json::slot(j, "model"@, 8)),
            mcps_in(json::slot(j, "mcp"@, 9)),
            permissions_in(json::slot(j, "permissions"@, 10)),
            colors_in(json::slot(j, "colors"@, 11)),
            goal_defaults_in(json::slot(j, "goal"@, 12)),
        ),
    ) {
        (
            (
                Some(optimize),
                Some(mascot),
                Some(theme),
                Some(statusline),
                Some(compact_model),
                Some(compact_threshold),
            ),
            (
                Some(compact_mode),
                Some(providers),
                Some(models),
                Some(mcp_servers),
                Some(permissions),
                Some(colors),
                Some(goal),
            ),
        ) if is_table(j) => Some(
            ConfigView {
                optimize,
                mascot,
                theme,
                statusline,
                compact_model,
                compact_threshold,
                compact_mode,
                providers,
                models,
                mcp_servers,
                permissions,
                colors,
                goal,
            },
        ),
        _ => None,
    }
}

/// The configuration that a text holds.
pub open spec fn parsed(toml: Seq<char>) -> Result<ConfigView, ConfigErrorView> {
    match toml_parsed(toml) {
        Err(e) => Err(ConfigErrorView::Toml(e)),
        Ok(j) => match config_in(j) {
            Some(c) => Ok(c),
            None => Err(ConfigErrorView::Shape),
        },
    }
}

fn read_bool(v: Option<&Json>) -> (r: Option<Option<bool>>)
    ensures
        r == opt_bool(opt_model(v)),
{
    match v {
        None => Some(None),
        Some(Json::Bool(b)) => Some(Some(*b)),
        _ => None,
    }
}

fn read_flag(v: Option<&Json>, default: bool) -> (r: Option<bool>)
    ensures
        r == bool_or(opt_model(v), default),
{
    match v {
        None => Some(default),
        Some(Json::Bool(b)) => Some(*b),
        _ => None,
    }
}

fn read_u64(v: Option<&Json>) -> (r: Option<Option<u64>>)
    ensures
        r == opt_u64(opt_model(v)),
{
    match v {
        None => Some(None),
        Some(Json::Number(Number::PosInt(n))) => Some(Some(*n)),
        _ => None,
    }
}

fn read_number(v: Option<&Json>) -> (r: Option<Option<Number>>)
    ensures
        match r {
            Some(n) => opt_number(opt_model(v)) == Some(number_view(n)),
            None => opt_number(opt_model(v)) is None,
        },
{
    match v {
        None => Some(None),
        Some(Json::Number(n)) => Some(Some(n.copy())),
        _ => None,
    }
}

fn read_i64(v: Option<&Json>) -> (r: Option<Option<i64>>)
    ensures
        r == opt_i64(opt_model(v)),
{
    match v {
        None => Some(None),
        Some(Json::Number(Number::PosInt(n))) => {
            if *n <= 0x7fff_ffff_ffff_ffffu64 {
                Some(Some(*n as i64))
            } else {
                None
            }
        },
        Some(Json::Number(Number::NegInt(n))) => Some(Some(*n)),
        _ => None,
    }
}

fn read_u32(v: Option<&Json>) -> (r: Option<Option<u32>>)
    ensures
        r == opt_u32(opt_model(v)),
{
    match v {
        None => Some(None),
        Some(Json::Number(Number::PosInt(n))) => {
            if *n <= 0xffff_ffffu64 {
                Some(Some(*n as u32))
            } else {
                None
            }
        },
        _ => None,
    }
}

fn read_text(v: Option<&Json>) -> (r: Option<Option<String>>)
    ensures
        match r {
            Some(s) => opt_text(opt_model(v)) == Some(text::opt_view(s)),
            None => opt_text(opt_model(v)) is None,
        },
{
    match v {
        None => Some(None),
        Some(Json::Str(s)) => Some(Some(s.clone())),
        _ => None,
    }
}

fn read_text_or(v: Option<&Json>, default: &str) -> (r: Option<String>)
    ensures
        text::opt_view(r) == text_or(opt_model(v), default@),
{
    match v {
        None => Some(default.to_string()),
        Some(Json::Str(s)) => Some(s.clone()),
        _ => None,
    }
}

/// The value of an optional value.
pub open spec fn opt_model(v: Option<&Json>) -> Option<JsonSpec> {
    match v {
        Some(j) => Some(j.model()),
        None => None,
    }
}

proof fn lemma_bad_text(items: Seq<JsonSpec>, bad: int, n: int)
    requires
        0 <= bad < n <= items.len(),
        !(items[bad] is Str),
    ensures
        texts_to(items, n) is None,
    decreases n,
{
    if bad < n - 1 {
        lemma_bad_text(items, bad, n - 1);
    }
}

fn read_texts(v: Option<&Json>) -> (r: Option<Vec<String>>)
    ensures
        match r {
            Some(t) => texts_in(opt_model(v)) == Some(text::views(t@)),
            None => texts_in(opt_model(v)) is None,
        },
{
    let mut out: Vec<String> = Vec::new();
    assert(text::views(out@) =~= seq![]);
    let j = match v {
        None => return Some(out),
        Some(j) => j,
    };
    let items = j.as_array()?;
    let ghost all = json::items_model(items@);
    let mut i: usize = 0;
    while i < items.len()
        invariant
            0 <= i <= items@.len(),
            all == json::items_model(items@),
            texts_to(all, i as int) == Some(text::views(out@)),
            texts_in(opt_model(v)) == texts_to(all, all.len() as int),
        decreases items@.len() - i,
    {
        assert(all[i as int] == items@[i as int].model());
        match items[i].as_str() {
            Some(s) => out.push(s.to_string()),
            None => {
                proof {
                    lemma_bad_text(all, i as int, all.len() as int);
                }
                return None;
            },
        }
        i += 1;
    }
    Some(out)
}

fn is_settings(j: &Json) -> (r: bool)
    ensures
        r == is_table(j.model()),
{
    match j {
        Json::Object(_) => true,
        Json::Array(_) => true,
        _ => false,
    }
}

fn read_provider(j: &Json) -> (r: Option<ProviderProfile>)
    ensures
        match r {
            Some(p) => provider_in(j.model()) == Some(p@),
            None => provider_in(j.model()) is None,
        },
{
    if !is_settings(j) {
        return None;
    }
    let name = j.slot("name", 0)?.as_str()?.to_string();
    let kind = j.slot("kind", 1)?.as_str()?.to_string();
    let base_url = read_text(j.slot("base_url", 2))?;
    let api_key_env = read_text(j.slot("api_key_env", 3))?;
    Some(ProviderProfile { name, kind, base_url, api_key_env })
}

fn read_model(j: &Json) -> (r: Option<ModelProfile>)
    ensures
        match r {
            Some(m) => model_in(j.model()) == Some(m@),
            None => model_in(j.model()) is None,
        },
{
    if !is_settings(j) {
        return None;
    }
    proof {
        lemma_no_text();
    }
    let name = read_text_or(j.slot("name", 0), "")?;
    let provider = read_text(j.slot("provider", 1))?;
    let context_window = read_u64(j.slot("context_window", 2))?;
    let price_in = read_number(j.slot("price_in", 3))?;
    let price_out = read_number(j.slot("price_out", 4))?;
    let cognitive_core = read_flag(j.slot("cognitive_core", 5), false)?;
    Some(ModelProfile { name, provider, context_window, price_in, price_out, cognitive_core })
}

fn read_mcp(j: &Json) -> (r: Option<McpServer>)
    ensures
        match r {
            Some(m) => mcp_in(j.model()) == Some(m@),
            None => mcp_in(j.model()) is None,
        },
{
    if !is_settings(j) {
        return None;
    }
    proof {
        lemma_no_text();
    }
    let name = read_text_or(j.slot("name", 0), "")?;
    let transport = read_text_or(j.slot("transport", 1), "stdio")?;
    let command = read_text(j.slot("command", 2))?;
    let url = read_text(j.slot("url", 3))?;
    let enabled = read_flag(j.slot("enabled", 4), true)?;
    Some(McpServer { name, transport, command, url, enabled })
}

fn read_permissions(v: Option<&Json>) -> (r: Option<PermissionConfig>)
    ensures
        match r {
            Some(p) => permissions_in(opt_model(v)) == Some(p@),
            None => permissions_in(opt_model(v)) is None,
        },
{
    let j = match v {
        None => return Some(PermissionConfig::default()),
        Some(j) => j,
    };
    if !is_settings(j) {
        return None;
    }
    let mode = read_text(j.slot("mode", 0))?;
    let allow = read_texts(j.slot("allow", 1))?;
    let deny = read_texts(j.slot("deny", 2))?;
    Some(PermissionConfig { mode, allow, deny })
}

fn read_goal_defaults(v: Option<&Json>) -> (r: Option<GoalConfig>)
    ensures
        match r {
            Some(g) => goal_defaults_in(opt_model(v)) == Some(g@),
            None => goal_defaults_in(opt_model(v)) is None,
        },
{
    let j = match v {
        None => return Some(GoalConfig::default()),
        Some(j) => j,
    };
    if !is_settings(j) {
        return None;
    }
    let enabled = read_bool(j.slot("enabled", 0))?;
    let token_budget = read_i64(j.slot("token_budget", 1))?;
    let cost_cap_usd = read_number(j.slot("cost_cap_usd", 2))?;
    let max_turns = read_u32(j.slot("max_turns", 3))?;
    Some(GoalConfig { enabled, token_budget, cost_cap_usd, max_turns })
}

fn read_colors(v: Option<&Json>) -> (r: Option<ColorConfig>)
    ensures
        match r {
            Some(c) => colors_in(opt_model(v)) == Some(c@),
            None => colors_in(opt_model(v)) is None,
        },
{
    let j = match v {
        None => return Some(ColorConfig::default()),
        Some(j) => j,
    };
    if !is_settings(j) {
        return None;
    }
    let user = read_text(j.slot("user", 0))?;
    let assistant = read_text(j.slot("assistant", 1))?;
    let tool = read_text(j.slot("tool", 2))?;
    let system = read_text(j.slot("system", 3))?;
    let dim = read_text(j.slot("dim", 4))?;
    let accent = read_text(j.slot("accent", 5))?;
    let border = read_text(j.slot("border", 6))?;
    let surface = read_text(j.slot("surface", 7))?;
    let base = read_text(j.slot("base", 8))?;
    Some(ColorConfig { user, assistant, tool, system, dim, accent, border, surface, base })
}

proof fn lemma_bad_provider(items: Seq<JsonSpec>, bad: int, n: int)
    requires
        0 <= bad < n <= items.len(),
        provider_in(items[bad]) is None,
    ensures
        providers_to(items, n) is None,
    decreases n,
{
    if bad < n - 1 {
        lemma_bad_provider(items, bad, n - 1);
    }
}

fn read_providers(v: Option<&Json>) -> (r: Option<Vec<ProviderProfile>>)
    ensures
        match r {
            Some(t) => providers_in(opt_model(v)) == Some(text::views(t@)),
            None => providers_in(opt_model(v)) is None,
        },
{
    let mut out: Vec<ProviderProfile> = Vec::new();
    assert(text::views(out@) =~= seq![]);
    let j = match v {
        None => return Some(out),
        Some(j) => j,
    };
    let items = j.as_array()?;
    let ghost all = json::items_model(items@);
    let mut i: usize = 0;
    while i < items.len()
        invariant
            0 <= i <= items@.len(),
            all == json::items_model(items@),
            providers_to(all, i as int) == Some(text::views(out@)),
            providers_in(opt_model(v)) == providers_to(all, all.len() as int),
        decreases items@.len() - i,
    {
        assert(all[i as int] == items@[i as int].model());
        match read_provider(&items[i]) {
            Some(entry) => out.push(entry),
            None => {
                proof {
                    lemma_bad_provider(all, i as int, all.len() as int);
                }
                return None;
            },
        }
        i += 1;
    }
    Some(out)
}

proof fn lemma_bad_model(items: Seq<JsonSpec>, bad: int, n: int)
    requires
        0 <= bad < n <= items.len(),
        model_in(items[bad]) is None,
    ensures
        models_to(items, n) is None,
    decreases n,
{
    if bad < n - 1 {
        lemma_bad_model(items, bad, n - 1);
    }
}

fn read_models(v: Option<&Json>) -> (r: Option<Vec<ModelProfile>>)
    ensures
        match r {
            Some(t) => models_in(opt_model(v)) == Some(text::views(t@)),
            None => models_in(opt_model(v)) is None,
        },
{
    let mut out: Vec<ModelProfile> = Vec::new();
    assert(text::views(out@) =~= seq![]);
    let j = match v {
        None => return Some(out),
        Some(j) => j,
    };
    let items = j.as_array()?;
    let ghost all = json::items_model(items@);
    let mut i: usize = 0;
    while i < items.len()
        invariant
            0 <= i <= items@.len(),
            all == json::items_model(items@),
            models_to(all, i as int) == Some(text::views(out@)),
            models_in(opt_model(v)) == models_to(all, all.len() as int),
        decreases items@.len() - i,
    {
        assert(all[i as int] == items@[i as int].model());
        match read_model(&items[i]) {
            Some(entry) => out.push(entry),
            None => {
                proof {
                    lemma_bad_model(all, i as int, all.len() as int);
                }
                return None;
            },
        }
        i += 1;
    }
    Some(out)
}

proof fn lemma_bad_mcp(items: Seq<JsonSpec>, bad: int, n: int)
    requires
        0 <= bad < n <= items.len(),
        mcp_in(items[bad]) is None,
    ensures
        mcps_to(items, n) is None,
    decreases n,
{
    if bad < n - 1 {
        lemma_bad_mcp(items, bad, n - 1);
    }
}

fn read_mcps(v: Option<&Json>) -> (r: Option<Vec<McpServer>>)
    ensures
        match r {
            Some(t) => mcps_in(opt_model(v)) == Some(text::views(t@)),
            None => mcps_in(opt_model(v)) is None,
        },
{
    let mut out: Vec<McpServer> = Vec::new();
    assert(text::views(out@) =~= seq![]);
    let j = match v {
        None => return Some(out),
        Some(j) => j,
    };
    let items = j.as_array()?;
    let ghost all = json::items_model(items@);
    let mut i: usize = 0;
    while i < items.len()
        invariant
            0 <= i <= items@.len(),
            all == json::items_model(items@),
            mcps_to(all, i as int) == Some(text::views(out@)),
            mcps_in(opt_model(v)) == mcps_to(all, all.len() as int),
        decreases items@.len() - i,
    {
        assert(all[i as int] == items@[i as int].model());
        match read_mcp(&items[i]) {
            Some(entry) => out.push(entry),
            None => {
                proof {
                    lemma_bad_mcp(all, i as int, all.len() as int);
                }
                return None;
            },
        }
        i += 1;
    }
    Some(out)
}


impl Config {
    /// The configuration that a TOML text holds.
    pub fn parse(toml_str: &str) -> (r: Result<Config, ConfigError>)
        ensures
            match r {
                Ok(c) => parsed(toml_str@) == Ok::<ConfigView, ConfigErrorView>(c@),
                Err(e) => parsed(toml_str@) == Err::<ConfigView, ConfigErrorView>(e@),
            },
    {
        match parse_toml(toml_str) {
            Err(e) => Err(ConfigError::Toml(e)),
            Ok(j) => match Self::from_json(&j) {
                Some(c) => Ok(c),
                None => Err(ConfigError::Shape),
            },
        }
    }

    /// The configuration that a document holds.
    #[verifier::rlimit(60)]
    #[verifier::spinoff_prover]
    pub fn from_json(j: &Json) -> (r: Option<Config>)
        ensures
            match r {
                Some(c) => config_in(j.model()) == Some(c@),
                None => config_in(j.model()) is None,
            },
    {
        if !is_settings(j) {
            return None;
        }
        let optimize = read_bool(j.slot("optimize", 0))?;
        let mascot = read_bool(j.slot("mascot", 1))?;
        let theme = read_text(j.slot("theme", 2))?;
        let statusline = read_text(j.slot("statusline", 3))?;
        let compact_model = read_text(j.slot("compact_model", 4))?;
        let compact_threshold = read_u64(j.slot("compact_threshold", 5))?;
        let compact_mode = read_text(j.slot("compact_mode", 6))?;
        let providers = read_providers(j.slot("provider", 7))?;
        let models = read_models(j.slot("model", 8))?;
        let mcp_servers = read_mcps(j.slot("mcp", 9))?;
        let permissions = read_permissions(j.slot("permissions", 10))?;
        let colors = read_colors(j.slot("colors", 11))?;
        let goal = read_goal_defaults(j.slot("goal", 12))?;
        Some(
            Config {
                optimize,
                mascot,
                theme,
                statusline,
                compact_model,
                compact_threshold,
                compact_mode,
                providers,
                models,
                mcp_servers,
                permissions,
                colors,
                goal,
            },
        )
    }
}

impl GoalConfig {
    /// The caps of a goal that asks for none. The cost cap is the configured one as an amount.
    pub fn limits(&self, cost_cap_usd: Option<Usd>) -> (r: GoalLimits)
        ensures
            r == (GoalLimits {
                token_budget: self@.token_budget,
                cost_cap_usd,
                max_iterations: self@.max_turns,
            }),
    {
        GoalLimits { token_budget: self.token_budget, cost_cap_usd, max_iterations: self.max_turns }
    }
}

impl ConfigError {
    /// What went wrong, in words.
    pub fn to_text(&self) -> (r: String)
        ensures
            r@ == (match self@ {
                ConfigErrorView::Toml(e) => e,
                ConfigErrorView::Shape => "a setting has a value of the wrong type"@,
            }),
    {
        match self {
            ConfigError::Toml(e) => e.clone(),
            ConfigError::Shape => "a setting has a value of the wrong type".to_string(),
        }
    }
}

proof fn lemma_no_text()
    ensures
        ""@ == Seq::<char>::empty(),
{
    reveal_strlit("");
    assert(""@ =~= Seq::<char>::empty());
}

// ---- merging --------------------------------------------------------------------------------

/// What is known by a name.
pub trait Named: View + Sized {
    /// The name in the thing's mathematical value.
    spec fn named(v: Self::V) -> Seq<char>;

    fn name_of(&self) -> (r: &str)
        ensures
            r@ == Self::named(self@),
    ;
}

impl Named for ProviderProfile {
    open spec fn named(v: ProviderView) -> Seq<char> {
        v.name
    }

    fn name_of(&self) -> (r: &str) {
        self.name.as_str()
    }
}

impl Named for ModelProfile {
    open spec fn named(v: ModelView) -> Seq<char> {
        v.name
    }

    fn name_of(&self) -> (r: &str) {
        self.name.as_str()
    }
}

impl Named for McpServer {
    open spec fn named(v: McpView) -> Seq<char> {
        v.name
    }

    fn name_of(&self) -> (r: &str) {
        self.name.as_str()
    }
}

/// The first position at or after `i` of an entry called `name`, or the number of entries.
pub open spec fn name_index<T: Named>(list: Seq<T::V>, name: Seq<char>, i: int) -> int
    decreases list.len() - i,
{
    if i < 0 || i >= list.len() {
        list.len() as int
    } else if T::named(list[i]) == name {
        i
    } else {
        name_index::<T>(list, name, i + 1)
    }
}

/// The list with an entry in place of the first one of its name, or at the end.
pub open spec fn with_entry<T: Named>(list: Seq<T::V>, entry: T::V) -> Seq<T::V> {
    let at = name_index::<T>(list, T::named(entry), 0);
    if at < list.len() {
        list.update(at, entry)
    } else {
        list.push(entry)
    }
}

/// The list with the first `n` entries of `over` put into it, one after the other.
pub open spec fn with_entries<T: Named>(list: Seq<T::V>, over: Seq<T::V>, n: int) -> Seq<T::V>
    decreases n,
{
    if n <= 0 {
        list
    } else {
        with_entry::<T>(with_entries::<T>(list, over, n - 1), over[n - 1])
    }
}

/// The first entry called `name`.
pub open spec fn entry_named<T: Named>(list: Seq<T::V>, name: Seq<char>) -> Option<T::V> {
    let at = name_index::<T>(list, name, 0);
    if at < list.len() {
        Some(list[at])
    } else {
        None
    }
}

/// The last of the first `n` entries called `name`.
pub open spec fn last_named<T: Named>(list: Seq<T::V>, name: Seq<char>, n: int) -> Option<T::V>
    decreases n,
{
    if n <= 0 {
        None
    } else if T::named(list[n - 1]) == name {
        Some(list[n - 1])
    } else {
        last_named::<T>(list, name, n - 1)
    }
}

proof fn lemma_name_index<T: Named>(list: Seq<T::V>, name: Seq<char>, i: int)
    requires
        0 <= i <= list.len(),
    ensures
        i <= name_index::<T>(list, name, i) <= list.len(),
        name_index::<T>(list, name, i) < list.len() ==> T::named(
            list[name_index::<T>(list, name, i)],
        ) == name,
        forall|k: int|
            i <= k < name_index::<T>(list, name, i) ==> T::named(#[trigger] list[k]) != name,
    decreases list.len() - i,
{
    if i < list.len() && T::named(list[i]) != name {
        lemma_name_index::<T>(list, name, i + 1);
    }
}

proof fn lemma_name_index_is<T: Named>(list: Seq<T::V>, name: Seq<char>, at: int)
    requires
        0 <= at <= list.len(),
        at < list.len() ==> T::named(list[at]) == name,
        forall|k: int| 0 <= k < at ==> T::named(#[trigger] list[k]) != name,
    ensures
        name_index::<T>(list, name, 0) == at,
{
    lemma_name_index::<T>(list, name, 0);
    let p = name_index::<T>(list, name, 0);
    if p < at {
        assert(T::named(list[p]) != name);
    }
    if at < p {
        assert(T::named(list[at]) != name);
    }
}

/// What the project says of a name wins: looking a name up in the merged list gives the last entry of
/// that name in the project's list, and the user's entry where the project has none.
pub proof fn project_entries_win<T: Named>(user: Seq<T::V>, project: Seq<T::V>, name: Seq<char>)
    ensures
        entry_named::<T>(
            with_entries::<T>(user, project, project.len() as int),
            name,
        ) == (match last_named::<T>(project, name, project.len() as int) {
            Some(entry) => Some(entry),
            None => entry_named::<T>(user, name),
        }),
{
    lemma_entries_win::<T>(user, project, name, project.len() as int);
}

proof fn lemma_entries_win<T: Named>(user: Seq<T::V>, project: Seq<T::V>, name: Seq<char>, n: int)
    requires
        0 <= n <= project.len(),
    ensures
        entry_named::<T>(with_entries::<T>(user, project, n), name) == (match last_named::<T>(
            project,
            name,
            n,
        ) {
            Some(entry) => Some(entry),
            None => entry_named::<T>(user, name),
        }),
    decreases n,
{
    if n > 0 {
        lemma_entries_win::<T>(user, project, name, n - 1);
        let before = with_entries::<T>(user, project, n - 1);
        let entry = project[n - 1];
        let after = with_entry::<T>(before, entry);
        let at = name_index::<T>(before, T::named(entry), 0);
        lemma_name_index::<T>(before, T::named(entry), 0);
        lemma_name_index::<T>(before, name, 0);
        if T::named(entry) == name {
            assert(after[at] == entry);
            assert forall|k: int| 0 <= k < at implies T::named(#[trigger] after[k]) != name by {
                assert(after[k] == before[k]);
            }
            lemma_name_index_is::<T>(after, name, at);
        } else {
            let p = name_index::<T>(before, name, 0);
            let q = if p < before.len() {
                p
            } else {
                after.len() as int
            };
            assert forall|k: int| 0 <= k < q implies T::named(#[trigger] after[k]) != name by {
                if k != at {
                    assert(after[k] == before[k]);
                }
            }
            lemma_name_index_is::<T>(after, name, q);
        }
    }
}

/// The names among the first `n` entries of `over` that `list` lacks, each once, in the order in which
/// they first come.
pub open spec fn new_names<T: Named>(list: Seq<T::V>, over: Seq<T::V>, n: int) -> Seq<Seq<char>>
    decreases n,
{
    if n <= 0 {
        seq![]
    } else {
        let before = new_names::<T>(list, over, n - 1);
        let name = T::named(over[n - 1]);
        if name_index::<T>(list, name, 0) < list.len() || before.contains(name) {
            before
        } else {
            before.push(name)
        }
    }
}

/// What stands at `i`, within the user's entries, after the first `n` entries of `over` were put in:
/// the last of them with the name of the entry there, if it is the first of its name.
pub open spec fn entry_after<T: Named>(list: Seq<T::V>, over: Seq<T::V>, n: int, i: int) -> T::V {
    let name = T::named(list[i]);
    match last_named::<T>(over, name, n) {
        Some(entry) if name_index::<T>(list, name, 0) == i => entry,
        _ => list[i],
    }
}

/// The user's entries stay in their places, each replaced by the project's last entry of its name
/// where there is one; the project's other entries follow, each name once, in the project's order.
pub proof fn merging_replaces_in_place_and_appends<T: Named>(user: Seq<T::V>, project: Seq<T::V>)
    ensures
        ({
            let n = project.len() as int;
            let all = with_entries::<T>(user, project, n);
            let names = new_names::<T>(user, project, n);
            &&& all.len() == user.len() + names.len()
            &&& forall|i: int|
                0 <= i < user.len() ==> #[trigger] all[i] == entry_after::<T>(user, project, n, i)
            &&& forall|j: int|
                0 <= j < names.len() ==> Some(#[trigger] all[user.len() + j]) == last_named::<T>(
                    project,
                    names[j],
                    n,
                )
        }),
{
    lemma_merge_shape::<T>(user, project, project.len() as int);
}

proof fn lemma_last_named<T: Named>(list: Seq<T::V>, name: Seq<char>, n: int)
    requires
        0 <= n <= list.len(),
    ensures
        last_named::<T>(list, name, n) matches Some(entry) ==> T::named(entry) == name,
    decreases n,
{
    if n > 0 {
        lemma_last_named::<T>(list, name, n - 1);
    }
}

proof fn lemma_merge_shape<T: Named>(user: Seq<T::V>, project: Seq<T::V>, n: int)
    requires
        0 <= n <= project.len(),
    ensures
        ({
            let all = with_entries::<T>(user, project, n);
            let names = new_names::<T>(user, project, n);
            &&& all.len() == user.len() + names.len()
            &&& forall|i: int|
                0 <= i < user.len() ==> #[trigger] all[i] == entry_after::<T>(user, project, n, i)
            &&& forall|j: int|
                0 <= j < names.len() ==> Some(#[trigger] all[user.len() + j]) == last_named::<T>(
                    project,
                    names[j],
                    n,
                )
            &&& forall|i: int, j: int| 0 <= i < j < names.len() ==> names[i] != names[j]
            &&& forall|j: int|
                0 <= j < names.len() ==> name_index::<T>(user, #[trigger] names[j], 0)
                    == user.len()
        }),
    decreases n,
{
    if n > 0 {
        lemma_merge_shape::<T>(user, project, n - 1);
        let entry = project[n - 1];
        let m = T::named(entry);
        let len = user.len() as int;
        let was = with_entries::<T>(user, project, n - 1);
        let all = with_entry::<T>(was, entry);
        let old_names = new_names::<T>(user, project, n - 1);
        let names = new_names::<T>(user, project, n);
        lemma_name_index::<T>(user, m, 0);
        let p = name_index::<T>(user, m, 0);
        // The names in place.
        assert forall|i: int| 0 <= i < len implies T::named(#[trigger] was[i]) == T::named(
            user[i],
        ) by {
            lemma_last_named::<T>(project, T::named(user[i]), n - 1);
        }
        assert forall|j: int| 0 <= j < old_names.len() implies T::named(#[trigger] was[len + j])
            == old_names[j] by {
            lemma_last_named::<T>(project, old_names[j], n - 1);
        }
        let at = if p < len {
            p
        } else if old_names.contains(m) {
            len + old_names.index_of(m)
        } else {
            was.len() as int
        };
        assert forall|k: int| 0 <= k < at implies T::named(#[trigger] was[k]) != m by {
            if k < len {
                assert(T::named(user[k]) == T::named(was[k]));
            } else {
                let j = k - len;
                assert(was[len + j] == was[k]);
                if old_names[j] == m {
                    assert(old_names.contains(m));
                    assert(old_names[old_names.index_of(m)] == m);
                }
            }
        }
        if p >= len && old_names.contains(m) {
            let j = old_names.index_of(m);
            assert(old_names[j] == m);
            assert(T::named(was[len + j]) == m);
        }
        lemma_name_index_is::<T>(was, m, at);
        assert forall|i: int| 0 <= i < len implies #[trigger] all[i] == entry_after::<T>(
            user,
            project,
            n,
            i,
        ) by {
            assert(was[i] == entry_after::<T>(user, project, n - 1, i));
            lemma_name_index::<T>(user, T::named(user[i]), 0);
        }
        assert forall|j: int| 0 <= j < names.len() implies Some(#[trigger] all[len + j])
            == last_named::<T>(project, names[j], n) by {
            if j < old_names.len() {
                assert(names[j] == old_names[j]);
                assert(Some(was[len + j]) == last_named::<T>(project, old_names[j], n - 1));
                if old_names[j] == m {
                    assert(name_index::<T>(user, old_names[j], 0) == user.len());
                    assert(old_names[old_names.index_of(m)] == m);
                }
            }
        }
    }
}

fn find_named<T: Named>(list: &Vec<T>, name: &str) -> (r: usize)
    ensures
        r == name_index::<T>(text::views(list@), name@, 0),
        r <= list@.len(),
{
    let ghost all = text::views(list@);
    let mut i: usize = 0;
    while i < list.len() && !text::same(list[i].name_of(), name)
        invariant
            0 <= i <= list@.len(),
            all == text::views(list@),
            name_index::<T>(all, name@, 0) == name_index::<T>(all, name@, i as int),
        decreases list@.len() - i,
    {
        assert(all[i as int] == list@[i as int]@);
        i += 1;
    }
    proof {
        if i < list@.len() {
            assert(all[i as int] == list@[i as int]@);
        }
    }
    i
}

/// Puts the entries of `over` into the list: each in place of the first one of its name, or at the
/// end.
pub fn merge_by_name<T: Named>(base: Vec<T>, over: Vec<T>) -> (r: Vec<T>)
    ensures
        text::views(r@) == with_entries::<T>(
            text::views(base@),
            text::views(over@),
            over@.len() as int,
        ),
{
    let ghost user = text::views(base@);
    let ghost all = text::views(over@);
    let ghost whole = over@;
    let mut list = base;
    let mut rest = over;
    let n = rest.len();
    let mut i: usize = 0;
    assert(whole.skip(0) =~= whole);
    while i < n
        invariant
            0 <= i <= n == whole.len(),
            all == text::views(whole),
            rest@ == whole.skip(i as int),
            text::views(list@) == with_entries::<T>(user, all, i as int),
        decreases n - i,
    {
        let ghost before = text::views(list@);
        let item = rest.remove(0);
        assert(item == whole[i as int]);
        assert(rest@ =~= whole.skip(i + 1));
        assert(all[i as int] == item@);
        let at = find_named(&list, item.name_of());
        if at < list.len() {
            list.set(at, item);
            assert(text::views(list@) =~= before.update(at as int, item@));
        } else {
            list.push(item);
        }
        i += 1;
    }
    list
}

/// The setting on top where it is set, else the one below.
pub open spec fn over_or<A>(over: Option<A>, under: Option<A>) -> Option<A> {
    match over {
        Some(v) => Some(v),
        None => under,
    }
}

pub open spec fn merged_colors(c: ColorView, o: ColorView) -> ColorView {
    ColorView {
        user: over_or(o.user, c.user),
        assistant: over_or(o.assistant, c.assistant),
        tool: over_or(o.tool, c.tool),
        system: over_or(o.system, c.system),
        dim: over_or(o.dim, c.dim),
        accent: over_or(o.accent, c.accent),
        border: over_or(o.border, c.border),
        surface: over_or(o.surface, c.surface),
        base: over_or(o.base, c.base),
    }
}

/// One configuration on top of another.
pub open spec fn merged(c: ConfigView, over: ConfigView) -> ConfigView {
    ConfigView {
        optimize: over_or(over.optimize, c.optimize),
        mascot: over_or(over.mascot, c.mascot),
        theme: over_or(over.theme, c.theme),
        statusline: over_or(over.statusline, c.statusline),
        compact_model: over_or(over.compact_model, c.compact_model),
        compact_threshold: over_or(over.compact_threshold, c.compact_threshold),
        compact_mode: over_or(over.compact_mode, c.compact_mode),
        providers: with_entries::<ProviderProfile>(
            c.providers,
            over.providers,
            over.providers.len() as int,
        ),
        models: with_entries::<ModelProfile>(c.models, over.models, over.models.len() as int),
        mcp_servers: with_entries::<McpServer>(
            c.mcp_servers,
            over.mcp_servers,
            over.mcp_servers.len() as int,
        ),
        permissions: PermissionView {
            mode: over_or(over.permissions.mode, c.permissions.mode),
            allow: c.permissions.allow + over.permissions.allow,
            deny: c.permissions.deny + over.permissions.deny,
        },
        colors: merged_colors(c.colors, over.colors),
        goal: GoalDefaults {
            enabled: over_or(over.goal.enabled, c.goal.enabled),
            token_budget: over_or(over.goal.token_budget, c.goal.token_budget),
            cost_cap_usd: over_or(over.goal.cost_cap_usd, c.goal.cost_cap_usd),
            max_turns: over_or(over.goal.max_turns, c.goal.max_turns),
        },
    }
}

/// No two entries of the list have the same name.
pub open spec fn names_differ<T: Named>(list: Seq<T::V>) -> bool {
    forall|i: int, j: int|
        0 <= i < j < list.len() ==> T::named(#[trigger] list[i]) != T::named(#[trigger] list[j])
}

proof fn lemma_entries_onto_nothing<T: Named>(list: Seq<T::V>, n: int)
    requires
        names_differ::<T>(list),
        0 <= n <= list.len(),
    ensures
        with_entries::<T>(seq![], list, n) == list.take(n),
    decreases n,
{
    if n > 0 {
        lemma_entries_onto_nothing::<T>(list, n - 1);
        let before = list.take(n - 1);
        assert forall|k: int| 0 <= k < n - 1 implies T::named(#[trigger] before[k]) != T::named(
            list[n - 1],
        ) by {
            assert(before[k] == list[k]);
        }
        lemma_name_index_is::<T>(before, T::named(list[n - 1]), n - 1);
        assert(before.push(list[n - 1]) =~= list.take(n));
    } else {
        assert(list.take(0) =~= seq![]);
    }
}

/// A configuration on top of one that sets nothing is itself, as long as none of its lists names an
/// entry twice.
pub proof fn merging_onto_nothing_changes_nothing(c: ConfigView)
    requires
        names_differ::<ProviderProfile>(c.providers),
        names_differ::<ModelProfile>(c.models),
        names_differ::<McpServer>(c.mcp_servers),
    ensures
        merged(no_config(), c) == c,
{
    lemma_entries_onto_nothing::<ProviderProfile>(c.providers, c.providers.len() as int);
    lemma_entries_onto_nothing::<ModelProfile>(c.models, c.models.len() as int);
    lemma_entries_onto_nothing::<McpServer>(c.mcp_servers, c.mcp_servers.len() as int);
    assert(c.providers.take(c.providers.len() as int) =~= c.providers);
    assert(c.models.take(c.models.len() as int) =~= c.models);
    assert(c.mcp_servers.take(c.mcp_servers.len() as int) =~= c.mcp_servers);
    assert(no_config().permissions.allow + c.permissions.allow =~= c.permissions.allow);
    assert(no_config().permissions.deny + c.permissions.deny =~= c.permissions.deny);
}

/// A configuration that sets nothing changes nothing when it is put on top.
pub proof fn merging_nothing_changes_nothing(c: ConfigView)
    ensures
        merged(c, no_config()) == c,
{
    assert(c.permissions.allow + no_config().permissions.allow =~= c.permissions.allow);
    assert(c.permissions.deny + no_config().permissions.deny =~= c.permissions.deny);
}

fn or_text(over: Option<String>, under: Option<String>) -> (r: Option<String>)
    ensures
        text::opt_view(r) == over_or(text::opt_view(over), text::opt_view(under)),
{
    match over {
        Some(v) => Some(v),
        None => under,
    }
}

fn joined_lists(a: Vec<String>, b: Vec<String>) -> (r: Vec<String>)
    ensures
        text::views(r@) == text::views(a@) + text::views(b@),
{
    let mut out = a;
    let ghost head = text::views(a@);
    let ghost all = text::views(b@);
    let mut i: usize = 0;
    assert(head + all.take(0) =~= head);
    while i < b.len()
        invariant
            0 <= i <= b@.len(),
            all == text::views(b@),
            text::views(out@) == head + all.take(i as int),
        decreases b@.len() - i,
    {
        let ghost before = text::views(out@);
        out.push(b[i].clone());
        i += 1;
        assert(head + all.take(i as int) =~= before.push(all[i - 1]));
    }
    assert(all.take(i as int) =~= all);
    out
}

impl Config {
    /// True unless explicitly disabled.
    pub fn optimize_enabled(&self) -> (r: bool)
        ensures
            r == (self.optimize != Some(false)),
    {
        match self.optimize {
            Some(b) => b,
            None => true,
        }
    }

    /// Whether to show the mascot (default true).
    pub fn mascot_enabled(&self) -> (r: bool)
        ensures
            r == (self.mascot != Some(false)),
    {
        match self.mascot {
            Some(b) => b,
            None => true,
        }
    }

    /// Whether autonomous goals are on (default true).
    pub fn goals_enabled(&self) -> (r: bool)
        ensures
            r == (self@.goal.enabled != Some(false)),
    {
        match self.goal.enabled {
            Some(b) => b,
            None => true,
        }
    }

    /// The first model of the given name.
    pub fn model(&self, name: &str) -> (r: Option<&ModelProfile>)
        ensures
            match r {
                Some(m) => entry_named::<ModelProfile>(self@.models, name@) == Some(m@),
                None => entry_named::<ModelProfile>(self@.models, name@) is None,
            },
    {
        let at = find_named(&self.models, name);
        if at < self.models.len() {
            assert(text::views(self.models@)[at as int] == self.models@[at as int]@);
            Some(&self.models[at])
        } else {
            None
        }
    }

    /// Merge `over` on top of `self`: scalars from `over` win when set; list entries are merged by
    /// `name` (an `over` entry replaces a same-named one, otherwise appends).
    pub fn merged_with(self, over: Config) -> (r: Config)
        ensures
            r@ == merged(self@, over@),
    {
        let c = self.colors;
        let o = over.colors;
        let p = self.permissions;
        let q = over.permissions;
        Config {
            optimize: match over.optimize {
                Some(b) => Some(b),
                None => self.optimize,
            },
            mascot: match over.mascot {
                Some(b) => Some(b),
                None => self.mascot,
            },
            theme: or_text(over.theme, self.theme),
            statusline: or_text(over.statusline, self.statusline),
            compact_model: or_text(over.compact_model, self.compact_model),
            compact_threshold: match over.compact_threshold {
                Some(n) => Some(n),
                None => self.compact_threshold,
            },
            compact_mode: or_text(over.compact_mode, self.compact_mode),
            providers: merge_by_name(self.providers, over.providers),
            models: merge_by_name(self.models, over.models),
            mcp_servers: merge_by_name(self.mcp_servers, over.mcp_servers),
            permissions: PermissionConfig {
                mode: or_text(q.mode, p.mode),
                allow: joined_lists(p.allow, q.allow),
                deny: joined_lists(p.deny, q.deny),
            },
            colors: ColorConfig {
                user: or_text(o.user, c.user),
                assistant: or_text(o.assistant, c.assistant),
                tool: or_text(o.tool, c.tool),
                system: or_text(o.system, c.system),
                dim: or_text(o.dim, c.dim),
                accent: or_text(o.accent, c.accent),
                border: or_text(o.border, c.border),
                surface: or_text(o.surface, c.surface),
                base: or_text(o.base, c.base),
            },
            goal: GoalConfig {
                enabled: match over.goal.enabled {
                    Some(b) => Some(b),
                    None => self.goal.enabled,
                },
                token_budget: match over.goal.token_budget {
                    Some(n) => Some(n),
                    None => self.goal.token_budget,
                },
                cost_cap_usd: match over.goal.cost_cap_usd {
                    Some(n) => Some(n),
                    None => self.goal.cost_cap_usd,
                },
                max_turns: match over.goal.max_turns {
                    Some(n) => Some(n),
                    None => self.goal.max_turns,
                },
            },
        }
    }

    /// Merge the user config, then the project config, over the defaults. A file that is absent or
    /// refused is skipped.
    pub fn load(user: Option<&str>, project: Option<&str>) -> (r: Config)
        ensures
            r@ == layered(layered(no_config(), user), project),
    {
        let mut cfg = Config::default();
        if let Some(text) = user {
            if let Ok(c) = Config::parse(text) {
                cfg = cfg.merged_with(c);
            }
        }
        if let Some(text) = project {
            if let Ok(c) = Config::parse(text) {
                cfg = cfg.merged_with(c);
            }
        }
        cfg
    }
}

/// A configuration with a file on top, where there is one that holds a configuration.
pub open spec fn layered(c: ConfigView, file: Option<&str>) -> ConfigView {
    match file {
        Some(f) => match parsed(f@) {
            Ok(over) => merged(c, over),
            Err(_) => c,
        },
        None => c,
    }
}

// ---- the config file ------------------------------------------------------------------------

/// What a fresh project's config file holds.
pub const CONFIG_TEMPLATE: &'static str = r##"# Cordy configuration. Secrets stay in env (api_key_env), never here.
optimize = true

# Theme: mono (default) · dark · tokyonight · catppuccin · gruvbox · nord · rosepine · light
# theme = "tokyonight"
#
# Fine-tune any role color (hex) on top of the theme:
# [colors]
# accent  = "#7aa2f7"
# user    = "#c0caf5"
# surface = "#24283b"

# Custom status line. Placeholders:
#   {cwd} {model} {provider} {mode} {tokens} {cost} {ctx} {saved} {status} {spinner}
#   {bg} (background jobs) {agents} (active sub-agents) {version}
# statusline = "{spinner}{status}  ·  {model}  ·  {ctx}  ·  {bg}bg  ·  {cost}"

# Permissions — pre-approve commands so the agent doesn't ask every time.
# Entries are `tool:glob` (bare glob = any tool). mode = "auto" approves everything not denied.
# [permissions]
# mode = "ask"                       # or "auto"
# allow = ["bash:ls *", "bash:git *", "bash:cargo *", "bash:cat *"]
# deny  = ["bash:rm -rf *", "bash:git push *"]

# [[provider]]
# name = "openai"
# kind = "openai-chat"
# api_key_env = "OPENAI_API_KEY"

# [[model]]
# name = "gpt-4o-mini"
# provider = "openai"
# context_window = 128000
# cognitive_core = false
"##;

/// What is created in a fresh `.cordy` directory, given what is there already.
pub fn init_project(agents: bool, skills: bool, commands: bool, config: bool) -> (r: Vec<String>)
    ensures
        text::views(r@) == when_missing(agents, ".cordy/agents/"@) + when_missing(
            skills,
            ".cordy/skills/"@,
        ) + when_missing(commands, ".cordy/commands/"@) + when_missing(
            config,
            ".cordy/config.toml"@,
        ),
{
    let mut created: Vec<String> = Vec::new();
    if !agents {
        created.push(".cordy/agents/".to_string());
    }
    assert(text::views(created@) =~= when_missing(agents, ".cordy/agents/"@));
    if !skills {
        created.push(".cordy/skills/".to_string());
    }
    if !commands {
        created.push(".cordy/commands/".to_string());
    }
    if !config {
        created.push(".cordy/config.toml".to_string());
    }
    assert(text::views(created@) =~= when_missing(agents, ".cordy/agents/"@) + when_missing(
        skills,
        ".cordy/skills/"@,
    ) + when_missing(commands, ".cordy/commands/"@) + when_missing(config, ".cordy/config.toml"@));
    created
}

/// A path that is to be created unless it is there.
pub open spec fn when_missing(there: bool, path: Seq<char>) -> Seq<Seq<char>> {
    if there {
        seq![]
    } else {
        seq![path]
    }
}

/// A provider of this name is configured in the text.
pub open spec fn has_provider(file: Seq<char>, name: Seq<char>) -> bool {
    parsed(file) matches Ok(c) && entry_named::<ProviderProfile>(c.providers, name) is Some
}

/// The text with its last line ended.
pub open spec fn whole_lines(file: Seq<char>) -> Seq<char> {
    if file.len() > 0 && file.last() != '\n' {
        file + "\n"@
    } else {
        file
    }
}

/// The text with a provider's entry at the end.
pub open spec fn provider_added(
    file: Seq<char>,
    name: Seq<char>,
    kind: Seq<char>,
    base_url: Seq<char>,
) -> Seq<char> {
    whole_lines(file) + "\n[[provider]]\nname = \""@ + name + "\"\nkind = \""@ + kind
        + "\"\nbase_url = \""@ + base_url + "\"\n"@
}

/// Saving a provider leaves all that the file holds in place: comments and formatting survive.
pub proof fn saving_keeps_the_file(
    file: Seq<char>,
    name: Seq<char>,
    kind: Seq<char>,
    base_url: Seq<char>,
)
    ensures
        file.is_prefix_of(provider_added(file, name, kind, base_url)),
{
    let all = provider_added(file, name, kind, base_url);
    assert(all.subrange(0, file.len() as int) =~= file);
}

/// The config file's text with a `[[provider]]` entry appended, unless a provider with the same `name`
/// is already present. Text is appended rather than re-serialized so user comments and formatting
/// survive. Secrets are never written here — only name/kind/base_url. None where the file stays as it
/// is.
pub fn save_provider(existing: &str, name: &str, kind: &str, base_url: &str) -> (r: Option<String>)
    ensures
        text::opt_view(r) == (if has_provider(existing@, name@) {
            None
        } else {
            Some(provider_added(existing@, name@, kind@, base_url@))
        }),
{
    if let Ok(cfg) = Config::parse(existing) {
        if find_named(&cfg.providers, name) < cfg.providers.len() {
            return None;
        }
    }
    let mut out = existing.to_string();
    let n = existing.unicode_len();
    if n > 0 && existing.get_char(n - 1) != '\n' {
        out.append("\n");
    }
    out.append("\n[[provider]]\nname = \"");
    out.append(name);
    out.append("\"\nkind = \"");
    out.append(kind);
    out.append("\"\nbase_url = \"");
    out.append(base_url);
    out.append("\"\n");
    Some(out)
}

/// The line opens a table.
pub open spec fn opens_table(line: Seq<char>) -> bool {
    text::begins(text::trimmed_start(line), "["@)
}

/// The position at or after `j` of the next line that opens a table, or the number of lines.
pub open spec fn block_end(lines: Seq<Seq<char>>, j: int) -> int
    decreases lines.len() - j,
{
    if j < 0 || j >= lines.len() {
        lines.len() as int
    } else if opens_table(lines[j]) {
        j
    } else {
        block_end(lines, j + 1)
    }
}

/// The line names the entry `name`.
pub open spec fn names_it(line: Seq<char>, name: Seq<char>) -> bool {
    text::begins(text::trimmed(line), "name"@) && text::holds(
        text::trimmed(line),
        "\""@ + name + "\""@,
    )
}

/// One of the lines from `from` to `to` names the entry `name`.
pub open spec fn block_names(lines: Seq<Seq<char>>, from: int, to: int, name: Seq<char>) -> bool {
    exists|k: int| from <= k < to && 0 <= k < lines.len() && names_it(#[trigger] lines[k], name)
}

/// At `i` starts a block of the provider `name`.
pub open spec fn is_target(lines: Seq<Seq<char>>, i: int, name: Seq<char>) -> bool {
    text::trimmed(lines[i]) == "[[provider]]"@ && block_names(
        lines,
        i,
        block_end(lines, i + 1),
        name,
    )
}

/// The lines without blank ones at the end.
pub open spec fn without_blank_end(lines: Seq<Seq<char>>) -> Seq<Seq<char>>
    decreases lines.len(),
{
    if lines.len() > 0 && text::trimmed(lines.last()).len() == 0 {
        without_blank_end(lines.drop_last())
    } else {
        lines
    }
}

/// The line is blank or holds a comment alone.
pub open spec fn is_remark(line: Seq<char>) -> bool {
    text::trimmed(line).len() == 0 || text::begins(text::trimmed(line), "#"@)
}

/// `to`, brought back over the remarks that stand right before it, as far as `from`.
pub open spec fn before_remarks(lines: Seq<Seq<char>>, from: int, to: int) -> int
    decreases to - from,
{
    if from < to && is_remark(lines[to - 1]) {
        before_remarks(lines, from, to - 1)
    } else {
        to
    }
}

/// Where the entry that starts at `i` ends. Comments and blank lines right before the next table, or
/// at the end of the file, are no part of it.
pub open spec fn entry_end(lines: Seq<Seq<char>>, i: int) -> int {
    before_remarks(lines, i + 1, block_end(lines, i + 1))
}

/// What is left of the lines from `i` on, after `kept`, without the entries of the provider `name` and
/// the blank lines before them.
pub open spec fn without_provider(
    lines: Seq<Seq<char>>,
    name: Seq<char>,
    kept: Seq<Seq<char>>,
    i: int,
) -> Seq<Seq<char>>
    decreases lines.len() - i,
{
    if i < 0 || i >= lines.len() {
        kept
    } else if is_target(lines, i, name) {
        proof {
            lemma_entry_end(lines, i);
        }
        without_provider(lines, name, without_blank_end(kept), entry_end(lines, i))
    } else {
        without_provider(lines, name, kept.push(lines[i]), i + 1)
    }
}

/// A block ends after it begins, and within the lines.
proof fn lemma_block_end(lines: Seq<Seq<char>>, j: int)
    requires
        0 <= j <= lines.len(),
    ensures
        j <= block_end(lines, j) <= lines.len(),
    decreases lines.len() - j,
{
    if j < lines.len() && !opens_table(lines[j]) {
        lemma_block_end(lines, j + 1);
    }
}

/// An entry ends after it begins, and within the lines.
pub proof fn lemma_entry_end(lines: Seq<Seq<char>>, i: int)
    requires
        0 <= i < lines.len(),
    ensures
        i < entry_end(lines, i) <= block_end(lines, i + 1) <= lines.len(),
{
    lemma_block_end(lines, i + 1);
    lemma_before_remarks(lines, i + 1, block_end(lines, i + 1));
}

proof fn lemma_before_remarks(lines: Seq<Seq<char>>, from: int, to: int)
    requires
        from <= to,
    ensures
        from <= before_remarks(lines, from, to) <= to,
        forall|k: int|
            before_remarks(lines, from, to) <= k < to ==> is_remark(#[trigger] lines[k]),
    decreases to - from,
{
    if from < to && is_remark(lines[to - 1]) {
        lemma_before_remarks(lines, from, to - 1);
    }
}

/// The text with a line ending at its end.
pub open spec fn with_line_end(s: Seq<char>) -> Seq<char> {
    if s.len() > 0 && s.last() == '\n' {
        s
    } else {
        s + "\n"@
    }
}

/// The text without the entries of the provider `name`.
pub open spec fn provider_removed(file: Seq<char>, name: Seq<char>) -> Seq<char> {
    with_line_end(text::joined(without_provider(text::lines_of(file), name, seq![], 0), "\n"@))
}

/// The lines from `i` on that are no part of an entry of the provider `name`.
pub open spec fn outside(lines: Seq<Seq<char>>, name: Seq<char>, i: int) -> Seq<Seq<char>>
    decreases lines.len() - i,
{
    if i < 0 || i >= lines.len() {
        seq![]
    } else if is_target(lines, i, name) {
        proof {
            lemma_entry_end(lines, i);
        }
        outside(lines, name, entry_end(lines, i))
    } else {
        seq![lines[i]] + outside(lines, name, i + 1)
    }
}

/// Whether a line is not blank.
pub open spec fn holds_text() -> spec_fn(Seq<char>) -> bool {
    |line: Seq<char>| text::trimmed(line).len() > 0
}

/// The lines that are not blank.
pub open spec fn written(lines: Seq<Seq<char>>) -> Seq<Seq<char>> {
    lines.filter(holds_text())
}

proof fn lemma_blank_end_unwritten(lines: Seq<Seq<char>>)
    ensures
        written(without_blank_end(lines)) == written(lines),
    decreases lines.len(),
{
    if lines.len() > 0 && text::trimmed(lines.last()).len() == 0 {
        lemma_blank_end_unwritten(lines.drop_last());
        reveal(Seq::filter);
    }
}

proof fn lemma_surroundings(
    lines: Seq<Seq<char>>,
    name: Seq<char>,
    kept: Seq<Seq<char>>,
    i: int,
)
    requires
        0 <= i <= lines.len(),
    ensures
        written(without_provider(lines, name, kept, i)) == written(kept) + written(
            outside(lines, name, i),
        ),
    decreases lines.len() - i,
{
    if i >= lines.len() {
        assert(written(seq![]) =~= seq![]) by {
            reveal(Seq::filter);
        }
        assert(written(kept) + seq![] =~= written(kept));
    } else if is_target(lines, i, name) {
        lemma_entry_end(lines, i);
        lemma_surroundings(lines, name, without_blank_end(kept), entry_end(lines, i));
        lemma_blank_end_unwritten(kept);
    } else {
        let rest = outside(lines, name, i + 1);
        lemma_surroundings(lines, name, kept.push(lines[i]), i + 1);
        Seq::filter_distributes_over_add(kept, seq![lines[i]], holds_text());
        Seq::filter_distributes_over_add(seq![lines[i]], rest, holds_text());
        assert(kept.push(lines[i]) =~= kept + seq![lines[i]]);
        assert(written(kept) + written(seq![lines[i]]) + written(rest) =~= written(kept) + (
        written(seq![lines[i]]) + written(rest)));
    }
}

/// Surrounding comments and other entries survive the removal of a provider: of the lines that are
/// not blank, just those of its entries are gone, and the others keep their order.
pub proof fn surroundings_survive(lines: Seq<Seq<char>>, name: Seq<char>)
    ensures
        written(without_provider(lines, name, seq![], 0)) == written(outside(lines, name, 0)),
{
    lemma_surroundings(lines, name, seq![], 0);
    assert(written(seq![]) =~= seq![]) by {
        reveal(Seq::filter);
    }
    assert(seq![] + written(outside(lines, name, 0)) =~= written(outside(lines, name, 0)));
}

/// A comment between an entry and the next table, or the end of the file, is no part of the entry.
pub proof fn a_comment_behind_an_entry_is_outside(lines: Seq<Seq<char>>, i: int, k: int)
    requires
        0 <= i < k < block_end(lines, i + 1),
        forall|x: int| k <= x < block_end(lines, i + 1) ==> is_remark(#[trigger] lines[x]),
    ensures
        entry_end(lines, i) <= k,
{
    lemma_remarks_passed(lines, i + 1, k, block_end(lines, i + 1));
}

proof fn lemma_remarks_passed(lines: Seq<Seq<char>>, from: int, k: int, to: int)
    requires
        from <= k <= to,
        forall|x: int| k <= x < to ==> is_remark(#[trigger] lines[x]),
    ensures
        before_remarks(lines, from, to) <= k,
    decreases to - from,
{
    if k < to {
        assert(is_remark(lines[to - 1]));
        lemma_remarks_passed(lines, from, k, to - 1);
    } else {
        lemma_before_remarks(lines, from, to);
    }
}

/// Without a block of the provider every line stays, in order.
pub proof fn other_lines_survive(lines: Seq<Seq<char>>, name: Seq<char>)
    requires
        forall|i: int| 0 <= i < lines.len() ==> !#[trigger] is_target(lines, i, name),
    ensures
        without_provider(lines, name, seq![], 0) == lines,
{
    lemma_lines_survive(lines, name, 0);
    assert(lines.take(0) =~= seq![]);
}

proof fn lemma_lines_survive(lines: Seq<Seq<char>>, name: Seq<char>, i: int)
    requires
        0 <= i <= lines.len(),
        forall|k: int| 0 <= k < lines.len() ==> !#[trigger] is_target(lines, k, name),
    ensures
        without_provider(lines, name, lines.take(i), i) == lines,
    decreases lines.len() - i,
{
    if i < lines.len() {
        assert(!is_target(lines, i, name));
        assert(lines.take(i).push(lines[i]) =~= lines.take(i + 1));
        lemma_lines_survive(lines, name, i + 1);
    } else {
        assert(lines.take(i) =~= lines);
    }
}

/// The lines of a provider's entry, with the blank line before it.
pub open spec fn entry_lines(name: Seq<char>, kind: Seq<char>, base_url: Seq<char>) -> Seq<
    Seq<char>,
> {
    Seq::empty().push(Seq::empty()).push("[[provider]]"@).push(
        "name = \""@ + name + "\""@,
    ).push("kind = \""@ + kind + "\""@).push("base_url = \""@ + base_url + "\""@)
}

pub open spec fn no_feed(s: Seq<char>) -> bool {
    forall|k: int| 0 <= k < s.len() ==> s[k] != '\n'
}

proof fn lemma_quoted_line(head: Seq<char>, value: Seq<char>)
    requires
        no_feed(head),
        no_feed(value),
    ensures
        no_feed(head + value + "\""@),
        (head + value + "\""@).len() == head.len() + value.len() + 1,
        (head + value + "\""@).last() == '"',
{
    reveal_strlit("\"");
    let line = head + value + "\""@;
    assert forall|k: int| 0 <= k < line.len() implies line[k] != '\n' by {
        if k < head.len() {
            assert(line[k] == head[k]);
        } else if k < head.len() + value.len() {
            assert(line[k] == value[k - head.len()]);
        }
    }
}

/// An added entry adds its lines.
proof fn lemma_added_lines(
    file: Seq<char>,
    name: Seq<char>,
    kind: Seq<char>,
    base_url: Seq<char>,
)
    requires
        no_feed(name),
        no_feed(kind),
        no_feed(base_url),
    ensures
        text::lines_of(provider_added(file, name, kind, base_url)) == text::lines_of(
            whole_lines(file),
        ) + entry_lines(name, kind, base_url),
{
    reveal_strlit("\n");
    reveal_strlit("[[provider]]");
    reveal_strlit("name = \"");
    reveal_strlit("kind = \"");
    reveal_strlit("base_url = \"");
    reveal_strlit("\"");
    reveal_strlit("\n[[provider]]\nname = \"");
    reveal_strlit("\"\nkind = \"");
    reveal_strlit("\"\nbase_url = \"");
    reveal_strlit("\"\n");
    let feed = seq!['\n'];
    let name_line = "name = \""@ + name + "\""@;
    let kind_line = "kind = \""@ + kind + "\""@;
    let url_line = "base_url = \""@ + base_url + "\""@;
    lemma_quoted_line("name = \""@, name);
    lemma_quoted_line("kind = \""@, kind);
    lemma_quoted_line("base_url = \""@, base_url);
    let blank = Seq::<char>::empty();
    let s0 = whole_lines(file);
    let s1 = s0 + blank + feed;
    let s2 = s1 + "[[provider]]"@ + feed;
    let s3 = s2 + name_line + feed;
    let s4 = s3 + kind_line + feed;
    let s5 = s4 + url_line + feed;
    assert(s0.len() == 0 || s0.last() == '\n');
    text::appended_line_is_last(s0, blank);
    text::appended_line_is_last(s1, "[[provider]]"@);
    text::appended_line_is_last(s2, name_line);
    text::appended_line_is_last(s3, kind_line);
    text::appended_line_is_last(s4, url_line);
    assert("\n[[provider]]\nname = \""@ =~= feed + "[[provider]]"@ + feed + "name = \""@);
    assert("\"\nkind = \""@ =~= "\""@ + feed + "kind = \""@);
    assert("\"\nbase_url = \""@ =~= "\""@ + feed + "base_url = \""@);
    assert("\"\n"@ =~= "\""@ + feed);
    assert(provider_added(file, name, kind, base_url) =~= s5);
    assert(text::lines_of(s5) =~= text::lines_of(s0) + entry_lines(name, kind, base_url));
}

/// A text that neither begins nor ends with white space stays as it is.
proof fn lemma_tight(s: Seq<char>)
    requires
        s.len() > 0,
        !text::is_ws(s[0]),
        !text::is_ws(s.last()),
    ensures
        text::trimmed(s) == s,
        text::trimmed_start(s) == s,
{
}

/// Where a block of the first lines ends once an entry follows them.
proof fn lemma_block_end_before(lines: Seq<Seq<char>>, all: Seq<Seq<char>>, j: int)
    requires
        0 <= j <= lines.len(),
        lines.len() + 1 < all.len(),
        forall|k: int| 0 <= k < lines.len() ==> #[trigger] all[k] == lines[k],
        !opens_table(all[lines.len() as int]),
        opens_table(all[lines.len() as int + 1]),
    ensures
        block_end(all, j) == (if block_end(lines, j) < lines.len() {
            block_end(lines, j)
        } else {
            lines.len() as int + 1
        }),
    decreases lines.len() - j,
{
    if j < lines.len() {
        assert(all[j] == lines[j]);
        if !opens_table(lines[j]) {
            lemma_block_end_before(lines, all, j + 1);
        }
    } else {
        reveal_with_fuel(block_end, 3);
    }
}

/// Lines that start no block of the provider are passed over.
proof fn lemma_passed_over(lines: Seq<Seq<char>>, name: Seq<char>, i: int, n: int)
    requires
        0 <= i <= n <= lines.len(),
        forall|k: int| 0 <= k < n ==> !#[trigger] is_target(lines, k, name),
    ensures
        without_provider(lines, name, lines.take(i), i) == without_provider(
            lines,
            name,
            lines.take(n),
            n,
        ),
    decreases n - i,
{
    if i < n {
        assert(!is_target(lines, i, name));
        assert(lines.take(i).push(lines[i]) =~= lines.take(i + 1));
        lemma_passed_over(lines, name, i + 1, n);
    }
}

/// Removing a provider that was just added leaves the lines that the file had, but for blank ones at
/// the end.
pub proof fn removing_undoes_adding(
    file: Seq<char>,
    name: Seq<char>,
    kind: Seq<char>,
    base_url: Seq<char>,
)
    requires
        no_feed(name),
        no_feed(kind),
        no_feed(base_url),
        ({
            let lines = text::lines_of(whole_lines(file));
            forall|i: int| 0 <= i < lines.len() ==> !#[trigger] is_target(lines, i, name)
        }),
    ensures
        provider_removed(provider_added(file, name, kind, base_url), name) == with_line_end(
            text::joined(without_blank_end(text::lines_of(whole_lines(file))), "\n"@),
        ),
{
    let lines = text::lines_of(whole_lines(file));
    let n = lines.len() as int;
    let all = lines + entry_lines(name, kind, base_url);
    lemma_added_lines(file, name, kind, base_url);
    lemma_entry(name, kind, base_url);
    assert(all[n] =~= Seq::empty());
    assert(all[n + 1] == "[[provider]]"@);
    assert(all[n + 2] == "name = \""@ + name + "\""@);
    assert(all[n + 3] == "kind = \""@ + kind + "\""@);
    assert(all[n + 4] == "base_url = \""@ + base_url + "\""@);
    assert forall|i: int| 0 <= i < n + 1 implies !#[trigger] is_target(all, i, name) by {
        if i < n {
            assert(all[i] == lines[i]);
            lemma_block_end_before(lines, all, i + 1);
            lemma_block_end(lines, i + 1);
            if is_target(all, i, name) {
                let k = choose|k: int|
                    i <= k < block_end(all, i + 1) && 0 <= k < all.len() && names_it(
                        #[trigger] all[k],
                        name,
                    );
                assert(k != n);
                assert(names_it(lines[k], name));
                assert(is_target(lines, i, name));
            }
        }
    }
    lemma_passed_over(all, name, 0, n + 1);
    assert(all.take(0) =~= seq![]);
    assert(all.take(n + 1) =~= lines.push(Seq::empty()));
    assert(is_target(all, n + 1, name)) by {
        lemma_block_end(all, n + 2);
        reveal_with_fuel(block_end, 5);
        assert(names_it(all[n + 2], name));
    }
    assert(block_end(all, n + 2) == n + 5) by {
        reveal_with_fuel(block_end, 5);
    }
    assert(entry_end(all, n + 1) == n + 5);
    assert(lines.push(Seq::empty()).drop_last() =~= lines);
    assert(without_blank_end(lines.push(Seq::empty())) == without_blank_end(lines));
    reveal_with_fuel(without_provider, 2);
    assert(without_provider(all, name, all.take(n + 1), n + 1) == without_blank_end(lines));
}

/// What the lines of an entry are: a blank one, one that opens a table, one that names it, and two
/// that do neither.
proof fn lemma_entry(name: Seq<char>, kind: Seq<char>, base_url: Seq<char>)
    ensures
        text::trimmed(Seq::<char>::empty()).len() == 0,
        text::trimmed(Seq::<char>::empty()) != "[[provider]]"@,
        !opens_table(Seq::<char>::empty()),
        !names_it(Seq::<char>::empty(), name),
        text::trimmed("[[provider]]"@) == "[[provider]]"@,
        opens_table("[[provider]]"@),
        names_it("name = \""@ + name + "\""@, name),
        !opens_table("name = \""@ + name + "\""@),
        !opens_table("kind = \""@ + kind + "\""@),
        !opens_table("base_url = \""@ + base_url + "\""@),
        !is_remark("base_url = \""@ + base_url + "\""@),
{
    reveal_strlit("[[provider]]");
    reveal_strlit("[");
    reveal_strlit("name");
    reveal_strlit("name = \"");
    reveal_strlit("kind = \"");
    reveal_strlit("base_url = \"");
    reveal_strlit("\"");
    let name_line = "name = \""@ + name + "\""@;
    let kind_line = "kind = \""@ + kind + "\""@;
    let url_line = "base_url = \""@ + base_url + "\""@;
    lemma_tight("[[provider]]"@);
    assert("[[provider]]"@.subrange(0, 1) =~= "["@);
    lemma_tight(name_line);
    lemma_tight(kind_line);
    lemma_tight(url_line);
    assert(name_line.subrange(0, 4) =~= "name"@);
    assert(name_line.subrange(0, 1)[0] == 'n');
    assert(kind_line.subrange(0, 1)[0] == 'k');
    assert(url_line.subrange(0, 1)[0] == 'b');
    assert("["@[0] == '[');
    reveal_strlit("#");
    assert("#"@[0] == '#');
    let quoted = "\""@ + name + "\""@;
    assert(name_line.subrange(7, 7 + quoted.len() as int) =~= quoted);
    text::lemma_found_from(name_line, quoted, 0);
    assert(text::occurs_at(name_line, quoted, 7));
}

fn find_block_end(lines: &Vec<&str>, from: usize) -> (r: usize)
    requires
        from <= lines@.len(),
    ensures
        r == block_end(text::views(lines@), from as int),
        from <= r <= lines@.len(),
{
    let ghost all = text::views(lines@);
    let mut j: usize = from;
    while j < lines.len() && !text::starts_with(text::trim_start(lines[j]), "[")
        invariant
            from <= j <= lines@.len(),
            all == text::views(lines@),
            block_end(all, from as int) == block_end(all, j as int),
        decreases lines@.len() - j,
    {
        assert(all[j as int] == lines@[j as int]@);
        j += 1;
    }
    proof {
        if j < lines@.len() {
            assert(all[j as int] == lines@[j as int]@);
        }
    }
    j
}

/// Steps back from `to` over comments and blank lines.
fn find_before_remarks(lines: &Vec<&str>, from: usize, to: usize) -> (r: usize)
    requires
        from <= to <= lines@.len(),
    ensures
        r == before_remarks(text::views(lines@), from as int, to as int),
        from <= r <= to,
{
    let ghost all = text::views(lines@);
    let mut end: usize = to;
    while from < end
        invariant
            from <= end <= to <= lines@.len(),
            all == text::views(lines@),
            before_remarks(all, from as int, to as int) == before_remarks(
                all,
                from as int,
                end as int,
            ),
        decreases end,
    {
        let t = text::trim(lines[end - 1]);
        assert(all[end - 1] == lines@[end - 1]@);
        if t.unicode_len() > 0 && !text::starts_with(t, "#") {
            return end;
        }
        end -= 1;
    }
    end
}

fn names_provider(lines: &Vec<&str>, from: usize, to: usize, name: &str) -> (r: bool)
    requires
        from <= to <= lines@.len(),
    ensures
        r == block_names(text::views(lines@), from as int, to as int, name@),
{
    let quoted = text::concat3("\"", name, "\"");
    let ghost all = text::views(lines@);
    let mut k: usize = from;
    while k < to
        invariant
            from <= k <= to <= lines@.len(),
            all == text::views(lines@),
            quoted@ == "\""@ + name@ + "\""@,
            forall|x: int| from <= x < k ==> !names_it(#[trigger] all[x], name@),
        decreases to - k,
    {
        let t = text::trim(lines[k]);
        assert(all[k as int] == lines@[k as int]@);
        if text::starts_with(t, "name") && text::contains(t, quoted.as_str()) {
            assert(names_it(all[k as int], name@));
            return true;
        }
        k += 1;
    }
    false
}

/// The config file's text without the `[[provider]]` blocks of a name (text-based, so surrounding
/// comments and other entries survive; a comment right before the next table stays with it).
pub fn remove_provider(file: &str, name: &str) -> (r: String)
    ensures
        r@ == provider_removed(file@, name@),
{
    let lines = text::lines(file);
    let ghost all = text::views(lines@);
    let mut out: Vec<&str> = Vec::new();
    assert(text::views(out@) =~= seq![]);
    let mut i: usize = 0;
    while i < lines.len()
        invariant
            0 <= i <= lines@.len(),
            all == text::views(lines@),
            without_provider(all, name@, text::views(out@), i as int) == without_provider(
                all,
                name@,
                seq![],
                0,
            ),
        decreases lines@.len() - i,
    {
        assert(all[i as int] == lines@[i as int]@);
        if text::same(text::trim(lines[i]), "[[provider]]") {
            let j = find_block_end(&lines, i + 1);
            if names_provider(&lines, i, j, name) {
                assert(is_target(all, i as int, name@));
                drop_blank_end(&mut out);
                i = find_before_remarks(&lines, i + 1, j);
                continue;
            }
        }
        assert(!is_target(all, i as int, name@));
        out.push(lines[i]);
        i += 1;
    }
    let mut left = text::join_strs(&out, "\n");
    let n = left.as_str().unicode_len();
    if n == 0 || left.as_str().get_char(n - 1) != '\n' {
        left.append("\n");
    }
    left
}

fn drop_blank_end(lines: &mut Vec<&str>)
    ensures
        text::views(final(lines)@) == without_blank_end(text::views(old(lines)@)),
{
    let ghost all = text::views(lines@);
    let mut n: usize = lines.len();
    while n > 0 && text::trim(lines[n - 1]).unicode_len() == 0
        invariant
            n == lines@.len(),
            without_blank_end(text::views(lines@)) == without_blank_end(all),
        decreases n,
    {
        let ghost before = text::views(lines@);
        assert(before.last() == lines@[n - 1]@);
        let _ = lines.pop();
        assert(text::views(lines@) =~= before.drop_last());
        n -= 1;
    }
    proof {
        if n > 0 {
            assert(text::views(lines@).last() == lines@[n - 1]@);
        }
    }
}

} // verus!
