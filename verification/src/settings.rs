//! What a configuration means, from the names in its tables to what is in force.

use crate::config;
use crate::config::{
    ColorView, ConfigView, GoalDefaults, McpView, ModelView, PermissionView, ProviderView,
};
use crate::json;
use crate::json::{JsonSpec, NumberSpec};
use vstd::prelude::*;
use vstd::string::*;

verus! {

// ---- layers ---------------------------------------------------------------------------------

/// Of two layers the one on top counts: what it sets is in force, and what it leaves open is what the
/// one below says.
pub open spec fn on_top<A>(result: Option<A>, over: Option<A>, under: Option<A>) -> bool {
    &&& over is Some ==> result == over
    &&& over is None ==> result == under
}

/// What the layer on top sets is in force; what it leaves open is what the layer below says.
pub proof fn the_layer_on_top_counts(under: ConfigView, over: ConfigView)
    ensures
        ({
            let c = config::merged(under, over);
            &&& on_top(c.optimize, over.optimize, under.optimize)
            &&& on_top(c.mascot, over.mascot, under.mascot)
            &&& on_top(c.theme, over.theme, under.theme)
            &&& on_top(c.statusline, over.statusline, under.statusline)
            &&& on_top(c.compact_model, over.compact_model, under.compact_model)
            &&& on_top(c.compact_threshold, over.compact_threshold, under.compact_threshold)
            &&& on_top(c.compact_mode, over.compact_mode, under.compact_mode)
            &&& on_top(c.permissions.mode, over.permissions.mode, under.permissions.mode)
            &&& on_top(c.goal.enabled, over.goal.enabled, under.goal.enabled)
            &&& on_top(c.goal.token_budget, over.goal.token_budget, under.goal.token_budget)
            &&& on_top(c.goal.cost_cap_usd, over.goal.cost_cap_usd, under.goal.cost_cap_usd)
            &&& on_top(c.goal.max_turns, over.goal.max_turns, under.goal.max_turns)
        }),
{
}

/// The same of the colours, one by one.
pub proof fn the_colours_on_top_count(under: ColorView, over: ColorView)
    ensures
        ({
            let c = config::merged_colors(under, over);
            &&& on_top(c.user, over.user, under.user)
            &&& on_top(c.assistant, over.assistant, under.assistant)
            &&& on_top(c.tool, over.tool, under.tool)
            &&& on_top(c.system, over.system, under.system)
            &&& on_top(c.dim, over.dim, under.dim)
            &&& on_top(c.accent, over.accent, under.accent)
            &&& on_top(c.border, over.border, under.border)
            &&& on_top(c.surface, over.surface, under.surface)
            &&& on_top(c.base, over.base, under.base)
        }),
{
}

/// No layer takes back what another denies or allows: the entries of both are in force, in order.
pub proof fn every_permission_stays(under: ConfigView, over: ConfigView, i: int, j: int)
    requires
        0 <= i < under.permissions.deny.len(),
        0 <= j < over.permissions.deny.len(),
    ensures
        ({
            let c = config::merged(under, over);
            &&& c.permissions.deny.len() == under.permissions.deny.len()
                + over.permissions.deny.len()
            &&& c.permissions.deny[i] == under.permissions.deny[i]
            &&& c.permissions.deny[under.permissions.deny.len() + j] == over.permissions.deny[j]
            &&& c.permissions.allow == under.permissions.allow + over.permissions.allow
        }),
{
}

// ---- tables ---------------------------------------------------------------------------------

/// A setting is the text under its name, or open where there is none.
pub open spec fn text_named(j: JsonSpec, name: Seq<char>, value: Option<Seq<char>>) -> bool {
    match json::field(j, name) {
        Some(JsonSpec::Str(s)) => value == Some(s),
        None => value is None,
        _ => false,
    }
}

/// A setting is the switch under its name, or open where there is none.
pub open spec fn switch_named(j: JsonSpec, name: Seq<char>, value: Option<bool>) -> bool {
    match json::field(j, name) {
        Some(JsonSpec::Bool(b)) => value == Some(b),
        None => value is None,
        _ => false,
    }
}

/// A setting is the number under its name, or open where there is none.
pub open spec fn number_named(j: JsonSpec, name: Seq<char>, value: Option<NumberSpec>) -> bool {
    match json::field(j, name) {
        Some(JsonSpec::Number(n)) => value == Some(n),
        None => value is None,
        _ => false,
    }
}

/// A setting is the count under its name, or open where there is none.
pub open spec fn count_named(j: JsonSpec, name: Seq<char>, value: Option<int>) -> bool {
    match json::field(j, name) {
        Some(JsonSpec::Number(NumberSpec::PosInt(n))) => value == Some(n as int),
        Some(JsonSpec::Number(NumberSpec::NegInt(n))) => value == Some(n as int),
        None => value is None,
        _ => false,
    }
}

pub open spec fn as_int(n: Option<u64>) -> Option<int> {
    match n {
        Some(n) => Some(n as int),
        None => None,
    }
}

/// The settings of a document are the values under their names, and open where it has none.
pub proof fn settings_are_read_by_name(j: JsonSpec, c: ConfigView)
    requires
        j is Object,
        config::config_in(j) == Some(c),
    ensures
        switch_named(j, "optimize"@, c.optimize),
        switch_named(j, "mascot"@, c.mascot),
        text_named(j, "theme"@, c.theme),
        text_named(j, "statusline"@, c.statusline),
        text_named(j, "compact_model"@, c.compact_model),
        text_named(j, "compact_mode"@, c.compact_mode),
        count_named(j, "compact_threshold"@, as_int(c.compact_threshold)),
        json::field(j, "provider"@) is None ==> c.providers.len() == 0,
        json::field(j, "model"@) is None ==> c.models.len() == 0,
        json::field(j, "mcp"@) is None ==> c.mcp_servers.len() == 0,
{
}

/// A provider's entry says its name and kind, and where it has them its address and the variable that
/// holds its key.
pub proof fn a_provider_entry_is_read(j: JsonSpec, p: ProviderView)
    requires
        j is Object,
        config::provider_in(j) == Some(p),
    ensures
        json::field(j, "name"@) == Some(JsonSpec::Str(p.name)),
        json::field(j, "kind"@) == Some(JsonSpec::Str(p.kind)),
        text_named(j, "base_url"@, p.base_url),
        text_named(j, "api_key_env"@, p.api_key_env),
{
}

/// A provider's entry is taken where it has a name and a kind.
pub proof fn a_named_provider_is_taken(j: JsonSpec, name: Seq<char>, kind: Seq<char>)
    requires
        j is Object,
        json::field(j, "name"@) == Some(JsonSpec::Str(name)),
        json::field(j, "kind"@) == Some(JsonSpec::Str(kind)),
        json::field(j, "base_url"@) is None || json::field(j, "base_url"@)->0 is Str,
        json::field(j, "api_key_env"@) is None || json::field(j, "api_key_env"@)->0 is Str,
    ensures
        config::provider_in(j) is Some,
{
}

/// A model's entry says its name, its provider, its window, its prices and whether it is driven
/// leanly, which it is not unless it says so.
pub proof fn a_model_entry_is_read(j: JsonSpec, m: ModelView)
    requires
        j is Object,
        config::model_in(j) == Some(m),
    ensures
        json::field(j, "name"@) is Some ==> json::field(j, "name"@) == Some(JsonSpec::Str(m.name)),
        text_named(j, "provider"@, m.provider),
        count_named(j, "context_window"@, as_int(m.context_window)),
        number_named(j, "price_in"@, m.price_in),
        number_named(j, "price_out"@, m.price_out),
        json::field(j, "cognitive_core"@) is None ==> !m.cognitive_core,
        json::field(j, "cognitive_core"@) matches Some(v) ==> v == JsonSpec::Bool(m.cognitive_core),
{
}

/// A server's entry says its name and how it is reached; it is started as a program and is on unless
/// it says otherwise.
pub proof fn a_server_entry_is_read(j: JsonSpec, m: McpView)
    requires
        j is Object,
        config::mcp_in(j) == Some(m),
    ensures
        json::field(j, "name"@) is Some ==> json::field(j, "name"@) == Some(JsonSpec::Str(m.name)),
        json::field(j, "transport"@) is None ==> m.transport == "stdio"@,
        json::field(j, "transport"@) matches Some(v) ==> v == JsonSpec::Str(m.transport),
        text_named(j, "command"@, m.command),
        text_named(j, "url"@, m.url),
        json::field(j, "enabled"@) is None ==> m.enabled,
        json::field(j, "enabled"@) matches Some(v) ==> v == JsonSpec::Bool(m.enabled),
{
}

proof fn lemma_texts(items: Seq<JsonSpec>, n: int)
    requires
        0 <= n <= items.len(),
    ensures
        config::texts_to(items, n) matches Some(texts) ==> texts.len() == n && forall|i: int|
            0 <= i < n ==> items[i] == JsonSpec::Str(#[trigger] texts[i]),
        (forall|i: int| 0 <= i < n ==> (#[trigger] items[i]) is Str) ==> config::texts_to(
            items,
            n,
        ) is Some,
    decreases n,
{
    if n > 0 {
        lemma_texts(items, n - 1);
    }
}

/// The permissions of a document are the entries that it lists, one for one and in order, those that
/// allow and those that deny each under their own name.
pub proof fn permissions_are_read_by_name(
    j: JsonSpec,
    p: PermissionView,
    allow: Seq<JsonSpec>,
    deny: Seq<JsonSpec>,
)
    requires
        j is Object,
        config::permissions_in(Some(j)) == Some(p),
        json::field(j, "allow"@) == Some(JsonSpec::Array(allow)),
        json::field(j, "deny"@) == Some(JsonSpec::Array(deny)),
    ensures
        text_named(j, "mode"@, p.mode),
        p.allow.len() == allow.len(),
        p.deny.len() == deny.len(),
        forall|i: int| 0 <= i < allow.len() ==> allow[i] == JsonSpec::Str(#[trigger] p.allow[i]),
        forall|i: int| 0 <= i < deny.len() ==> deny[i] == JsonSpec::Str(#[trigger] p.deny[i]),
{
    lemma_texts(allow, allow.len() as int);
    lemma_texts(deny, deny.len() as int);
}

/// The defaults of goals are the values under their names, and open where there are none.
pub proof fn goal_defaults_are_read_by_name(j: JsonSpec, g: GoalDefaults)
    requires
        j is Object,
        config::goal_defaults_in(Some(j)) == Some(g),
    ensures
        switch_named(j, "enabled"@, g.enabled),
        number_named(j, "cost_cap_usd"@, g.cost_cap_usd),
        count_named(
            j,
            "token_budget"@,
            match g.token_budget {
                Some(n) => Some(n as int),
                None => None,
            },
        ),
        count_named(
            j,
            "max_turns"@,
            match g.max_turns {
                Some(n) => Some(n as int),
                None => None,
            },
        ),
{
}

/// The colours of a document are the values under their names, and open where there are none.
pub proof fn colours_are_read_by_name(j: JsonSpec, c: ColorView)
    requires
        j is Object,
        config::colors_in(Some(j)) == Some(c),
    ensures
        text_named(j, "user"@, c.user),
        text_named(j, "assistant"@, c.assistant),
        text_named(j, "tool"@, c.tool),
        text_named(j, "system"@, c.system),
        text_named(j, "dim"@, c.dim),
        text_named(j, "accent"@, c.accent),
        text_named(j, "border"@, c.border),
        text_named(j, "surface"@, c.surface),
        text_named(j, "base"@, c.base),
{
}

proof fn lemma_providers(items: Seq<JsonSpec>, n: int)
    requires
        0 <= n <= items.len(),
    ensures
        config::providers_to(items, n) matches Some(list) ==> list.len() == n && forall|i: int|
            0 <= i < n ==> config::provider_in(items[i]) == Some(#[trigger] list[i]),
    decreases n,
{
    if n > 0 {
        lemma_providers(items, n - 1);
    }
}

proof fn lemma_models(items: Seq<JsonSpec>, n: int)
    requires
        0 <= n <= items.len(),
    ensures
        config::models_to(items, n) matches Some(list) ==> list.len() == n && forall|i: int|
            0 <= i < n ==> config::model_in(items[i]) == Some(#[trigger] list[i]),
    decreases n,
{
    if n > 0 {
        lemma_models(items, n - 1);
    }
}

proof fn lemma_servers(items: Seq<JsonSpec>, n: int)
    requires
        0 <= n <= items.len(),
    ensures
        config::mcps_to(items, n) matches Some(list) ==> list.len() == n && forall|i: int|
            0 <= i < n ==> config::mcp_in(items[i]) == Some(#[trigger] list[i]),
    decreases n,
{
    if n > 0 {
        lemma_servers(items, n - 1);
    }
}

/// The providers, models and servers of a document are its entries under those names, one for one and
/// in order.
pub proof fn lists_are_read_in_order(
    j: JsonSpec,
    c: ConfigView,
    providers: Seq<JsonSpec>,
    models: Seq<JsonSpec>,
    servers: Seq<JsonSpec>,
)
    requires
        j is Object,
        config::config_in(j) == Some(c),
        json::field(j, "provider"@) == Some(JsonSpec::Array(providers)),
        json::field(j, "model"@) == Some(JsonSpec::Array(models)),
        json::field(j, "mcp"@) == Some(JsonSpec::Array(servers)),
    ensures
        c.providers.len() == providers.len(),
        c.models.len() == models.len(),
        c.mcp_servers.len() == servers.len(),
        forall|i: int|
            0 <= i < providers.len() ==> json::field(providers[i], "name"@) == Some(
                JsonSpec::Str((#[trigger] c.providers[i]).name),
            ) || providers[i] is Array,
        forall|i: int|
            0 <= i < models.len() ==> config::model_in(models[i]) == Some(#[trigger] c.models[i]),
        forall|i: int|
            0 <= i < servers.len() ==> config::mcp_in(servers[i]) == Some(
                #[trigger] c.mcp_servers[i],
            ),
{
    lemma_providers(providers, providers.len() as int);
    lemma_models(models, models.len() as int);
    lemma_servers(servers, servers.len() as int);
    assert forall|i: int| 0 <= i < providers.len() implies json::field(providers[i], "name"@)
        == Some(JsonSpec::Str((#[trigger] c.providers[i]).name)) || providers[i] is Array by {
        assert(config::provider_in(providers[i]) == Some(c.providers[i]));
    }
}

/// An empty document sets nothing.
pub proof fn an_empty_document_sets_nothing()
    ensures
        config::config_in(JsonSpec::Object(seq![])) == Some(config::no_config()),
{
    let j = JsonSpec::Object(seq![]);
    assert forall|name: Seq<char>, pos: int| json::slot(j, name, pos) is None by {}
}

} // verus!
