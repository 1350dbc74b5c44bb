//! Model metadata from the models.dev catalog — context window, pricing, capabilities.
//!
//! The catalog is fetched once and kept on disk (refreshed weekly), so that context sizes and prices
//! can be shown and costs computed. Config `[[model]]` entries override the fetched values.

use crate::json;
use crate::json::{Json, JsonSpec, Number, NumberSpec};
use crate::table::Table;
use crate::text;
use vstd::prelude::*;
use vstd::string::*;

verus! {

broadcast use crate::text::views_push;

pub const API_URL: &'static str = "https://models.dev/api.json";

/// How long a fetched catalog is kept, in seconds.
pub const MAX_AGE_SECS: u64 = 604800;

/// Metadata for a single model.
#[derive(Debug, PartialEq)]
pub struct ModelInfo {
    pub id: String,
    pub name: String,
    pub provider: String,
    /// Context window in tokens.
    pub context: Option<u64>,
    /// USD price per million input / output tokens.
    pub price_in: Option<Number>,
    pub price_out: Option<Number>,
    pub tool_call: bool,
    pub reasoning: bool,
}

/// The mathematical value of a [`ModelInfo`].
pub struct ModelView {
    pub id: Seq<char>,
    pub name: Seq<char>,
    pub provider: Seq<char>,
    pub context: Option<u64>,
    pub price_in: Option<NumberSpec>,
    pub price_out: Option<NumberSpec>,
    pub tool_call: bool,
    pub reasoning: bool,
}

/// The value of an optional price.
pub open spec fn price_view(n: Option<Number>) -> Option<NumberSpec> {
    match n {
        Some(n) => Some(n@),
        None => None,
    }
}

impl View for ModelInfo {
    type V = ModelView;

    open spec fn view(&self) -> ModelView {
        ModelView {
            id: self.id@,
            name: self.name@,
            provider: self.provider@,
            context: self.context,
            price_in: price_view(self.price_in),
            price_out: price_view(self.price_out),
            tool_call: self.tool_call,
            reasoning: self.reasoning,
        }
    }
}

/// The number that a value is, if it is one.
pub open spec fn number_in(j: JsonSpec) -> Option<NumberSpec> {
    match j {
        JsonSpec::Number(n) => Some(n),
        _ => None,
    }
}

/// Whether a flag is set; one that is missing is not.
pub open spec fn flag(j: JsonSpec, key: Seq<char>) -> bool {
    json::bool_in(json::field_or_null(j, key)) == Some(true)
}

/// A text, or the given one where there is none.
pub open spec fn text_or(v: Option<Seq<char>>, default: Seq<char>) -> Seq<char> {
    match v {
        Some(t) => t,
        None => default,
    }
}

/// The entry of one model in the catalog.
pub open spec fn model_in(provider: Seq<char>, id: Seq<char>, m: JsonSpec) -> ModelView {
    let cost = json::field_or_null(m, "cost"@);
    ModelView {
        id,
        name: text_or(json::string_field(m, "name"@), id),
        provider,
        context: json::u64_in(json::field_or_null(json::field_or_null(m, "limit"@), "context"@)),
        price_in: number_in(json::field_or_null(cost, "input"@)),
        price_out: number_in(json::field_or_null(cost, "output"@)),
        tool_call: flag(m, "tool_call"@),
        reasoning: flag(m, "reasoning"@),
    }
}

/// The models among the first `n` entries of a provider.
pub open spec fn provider_models(
    provider: Seq<char>,
    models: Seq<(Seq<char>, JsonSpec)>,
    n: int,
) -> Seq<ModelView>
    decreases n,
{
    if n <= 0 {
        seq![]
    } else {
        provider_models(provider, models, n - 1).push(
            model_in(provider, models[n - 1].0, models[n - 1].1),
        )
    }
}

/// The models of a provider's entry.
pub open spec fn models_of(prov: JsonSpec) -> Seq<ModelView> {
    let provider = text_or(json::string_field(prov, "name"@), seq![]);
    match json::field_or_null(prov, "models"@) {
        JsonSpec::Object(models) => provider_models(provider, models, models.len() as int),
        _ => seq![],
    }
}

/// The models of the first `n` providers.
pub open spec fn catalog_to(providers: Seq<(Seq<char>, JsonSpec)>, n: int) -> Seq<ModelView>
    decreases n,
{
    if n <= 0 {
        seq![]
    } else {
        catalog_to(providers, n - 1) + models_of(providers[n - 1].1)
    }
}

/// The models of a catalog.
pub open spec fn catalog_in(v: JsonSpec) -> Seq<ModelView> {
    match v {
        JsonSpec::Object(providers) => catalog_to(providers, providers.len() as int),
        _ => seq![],
    }
}

fn number_of(j: Option<&Json>) -> (r: Option<Number>)
    ensures
        price_view(r) == (match j {
            Some(v) => number_in(v.model()),
            None => None,
        }),
{
    match j {
        Some(Json::Number(n)) => Some(n.copy()),
        _ => None,
    }
}

fn flag_of(j: &Json, key: &str) -> (r: bool)
    ensures
        r == flag(j.model(), key@),
{
    match j.bool_field(key) {
        Some(b) => b,
        None => false,
    }
}

fn model_of(provider: &str, id: &str, m: &Json) -> (r: ModelInfo)
    ensures
        r@ == model_in(provider@, id@, m.model()),
{
    let name = match m.str_field("name") {
        Some(n) => n.to_string(),
        None => id.to_string(),
    };
    let context = match m.get("limit") {
        Some(limit) => limit.u64_field("context"),
        None => None,
    };
    let (price_in, price_out) = match m.get("cost") {
        Some(cost) => (number_of(cost.get("input")), number_of(cost.get("output"))),
        None => (None, None),
    };
    ModelInfo {
        id: id.to_string(),
        name,
        provider: provider.to_string(),
        context,
        price_in,
        price_out,
        tool_call: flag_of(m, "tool_call"),
        reasoning: flag_of(m, "reasoning"),
    }
}

fn push_models(prov: &Json, out: &mut Vec<ModelInfo>)
    ensures
        text::views(final(out)@) == text::views(old(out)@) + models_of(prov.model()),
{
    let ghost before = text::views(out@);
    let empty = String::new();
    assert(empty@ =~= seq![]);
    let provider = match prov.str_field("name") {
        Some(n) => n,
        None => empty.as_str(),
    };
    match prov.get("models") {
        Some(Json::Object(models)) => {
            let ghost all = json::members_model(models@);
            proof {
                let found = json::field_or_null(prov.model(), "models"@);
                assert(found->Object_0 =~= all);
                assert(before + provider_models(provider@, all, 0) =~= before);
            }
            let mut i: usize = 0;
            while i < models.len()
                invariant
                    0 <= i <= models@.len(),
                    all == json::members_model(models@),
                    text::views(out@) == before + provider_models(provider@, all, i as int),
                decreases models@.len() - i,
            {
                assert(all[i as int] == (models@[i as int].0@, models@[i as int].1.model()));
                let m = model_of(provider, models[i].0.as_str(), &models[i].1);
                let ghost so_far = provider_models(provider@, all, i as int);
                out.push(m);
                assert((before + so_far).push(m@) =~= before + so_far.push(m@));
                i += 1;
            }
        },
        _ => {
            assert(before + Seq::<ModelView>::empty() =~= before);
        },
    }
}

/// Flatten the catalog's `provider -> {models: {id -> model}}` JSON into a flat model list.
pub fn parse_catalog(v: &Json) -> (r: Vec<ModelInfo>)
    ensures
        text::views(r@) == catalog_in(v.model()),
{
    let mut out: Vec<ModelInfo> = Vec::new();
    assert(text::views(out@) =~= seq![]);
    if let Json::Object(providers) = v {
        let ghost all = json::members_model(providers@);
        assert(v.model()->Object_0 =~= all);
        let mut i: usize = 0;
        while i < providers.len()
            invariant
                0 <= i <= providers@.len(),
                all == json::members_model(providers@),
                text::views(out@) == catalog_to(all, i as int),
            decreases providers@.len() - i,
        {
            assert(all[i as int] == (providers@[i as int].0@, providers@[i as int].1.model()));
            push_models(&providers[i].1, &mut out);
            i += 1;
        }
    }
    out
}

/// A lookup of model id -> [`ModelInfo`].
pub struct Catalog {
    by_id: Table<ModelInfo>,
}

impl View for Catalog {
    type V = Map<Seq<char>, ModelInfo>;

    closed spec fn view(&self) -> Map<Seq<char>, ModelInfo> {
        self.by_id@
    }
}

/// The lookup of the first `n` models; a later model of the same id wins.
pub open spec fn by_id(models: Seq<ModelInfo>, n: int) -> Map<Seq<char>, ModelInfo>
    decreases n,
{
    if n <= 0 {
        Map::empty()
    } else {
        by_id(models, n - 1).insert(models[n - 1].id@, models[n - 1])
    }
}

/// What follows the last slash of an id.
pub open spec fn tail_of(id: Seq<char>) -> Seq<char> {
    text::after(id, text::last_char(id, '/', id.len() as int) + 1)
}

impl Catalog {
    pub fn from_models(models: Vec<ModelInfo>) -> (r: Catalog)
        ensures
            r@ == by_id(models@, models@.len() as int),
    {
        let ghost all = models@;
        let mut rest = models;
        let mut table: Table<ModelInfo> = Table::new();
        let mut i: usize = 0;
        let n = rest.len();
        rest = reversed(rest);
        assert(all.skip(0) =~= all);
        while i < n
            invariant
                0 <= i <= n == all.len(),
                rest@ == all.skip(i as int).reverse(),
                table@ == by_id(all, i as int),
            decreases n - i,
        {
            let ghost before = rest@;
            match rest.pop() {
                Some(m) => {
                    proof {
                        assert(m == all[i as int]);
                        assert(before.drop_last() =~= all.skip(i + 1).reverse());
                    }
                    let id = m.id.clone();
                    table.insert(id.as_str(), m);
                },
                None => {},
            }
            i += 1;
        }
        Catalog { by_id: table }
    }

    /// Look up a model by exact id, then by trailing path segment (`meta/llama-x` -> `llama-x`).
    pub fn get(&self, id: &str) -> (r: Option<&ModelInfo>)
        ensures
            match r {
                Some(m) => if self@.dom().contains(id@) {
                    *m == self@[id@]
                } else {
                    self@.dom().contains(tail_of(id@)) && *m == self@[tail_of(id@)]
                },
                None => !self@.dom().contains(id@) && !self@.dom().contains(tail_of(id@)),
            },
    {
        match self.by_id.get(id) {
            Some(m) => Some(m),
            None => {
                let n = id.unicode_len();
                let tail = match text::rfind_char(id, '/') {
                    Some(k) => id.substring_char(k + 1, n),
                    None => id,
                };
                assert(tail@ =~= tail_of(id@));
                self.by_id.get(tail)
            },
        }
    }

    /// The number of models.
    pub fn len(&self) -> (r: usize)
        ensures
            r == self@.dom().len(),
            self@.dom().finite(),
    {
        self.by_id.len()
    }

    pub fn is_empty(&self) -> (r: bool)
        ensures
            r == (self@.dom().len() == 0),
    {
        self.by_id.len() == 0
    }
}

fn reversed(models: Vec<ModelInfo>) -> (r: Vec<ModelInfo>)
    ensures
        r@ == models@.reverse(),
{
    let ghost all = models@;
    let mut rest = models;
    let mut out: Vec<ModelInfo> = Vec::new();
    assert(all.take(all.len() as int) =~= all);
    while rest.len() > 0
        invariant
            rest@ == all.take(rest@.len() as int),
            rest@.len() <= all.len(),
            out@ == all.skip(rest@.len() as int).reverse(),
        decreases rest@.len(),
    {
        let ghost before = rest@;
        if let Some(m) = rest.pop() {
            proof {
                assert(rest@ =~= all.take(rest@.len() as int));
                assert(all.skip(rest@.len() as int).reverse() =~= all.skip(
                    before.len() as int,
                ).reverse().push(m));
            }
            out.push(m);
        }
    }
    assert(all.skip(0) =~= all);
    out
}

/// A catalog fetched at `fetched_at` still counts at `now`. One from the future does.
pub open spec fn fresh(fetched_at: u64, now: u64) -> bool {
    now < fetched_at + MAX_AGE_SECS
}

/// Whether a catalog fetched at `fetched_at` still counts at `now`.
pub fn is_fresh(fetched_at: u64, now: u64) -> (r: bool)
    ensures
        r == fresh(fetched_at, now),
{
    now < fetched_at || now - fetched_at < MAX_AGE_SECS
}

/// Whether the kept catalog is used without asking again: there is one, and it still counts.
pub fn keeps(fetched_at: Option<u64>, now: u64) -> (r: bool)
    ensures
        r == (fetched_at matches Some(t) && fresh(t, now)),
{
    match fetched_at {
        Some(t) => is_fresh(t, now),
        None => false,
    }
}

/// The catalog once it was asked for: what was fetched, or else what was kept, however old, or else
/// an empty one, so that a start never fails for want of it.
pub fn settle(kept: Option<Vec<ModelInfo>>, fetched: Option<Vec<ModelInfo>>) -> (r: Catalog)
    ensures
        r@ == (match (fetched, kept) {
            (Some(models), _) => by_id(models@, models@.len() as int),
            (None, Some(models)) => by_id(models@, models@.len() as int),
            (None, None) => Map::<Seq<char>, ModelInfo>::empty(),
        }),
{
    match (fetched, kept) {
        (Some(models), _) => Catalog::from_models(models),
        (None, Some(models)) => Catalog::from_models(models),
        (None, None) => Catalog::from_models(Vec::new()),
    }
}

/// A context size for people, e.g. `128k`.
pub open spec fn context_text(ctx: u64) -> Seq<char> {
    if ctx >= 1_000_000 {
        text::decimal((ctx / 1_000_000) as nat) + "M"@
    } else if ctx >= 1_000 {
        text::decimal((ctx / 1_000) as nat) + "k"@
    } else {
        text::decimal(ctx as nat)
    }
}

/// Human-friendly context size, e.g. `128k`.
pub fn fmt_context(ctx: u64) -> (r: String)
    ensures
        r@ == context_text(ctx),
{
    if ctx >= 1_000_000 {
        text::concat2(text::decimal_of(ctx / 1_000_000).as_str(), "M")
    } else if ctx >= 1_000 {
        text::concat2(text::decimal_of(ctx / 1_000).as_str(), "k")
    } else {
        text::decimal_of(ctx)
    }
}

// ---- what holds of the catalog --------------------------------------------------------------

proof fn lemma_provider_models(provider: Seq<char>, models: Seq<(Seq<char>, JsonSpec)>, n: int)
    requires
        0 <= n <= models.len(),
    ensures
        provider_models(provider, models, n) == models.take(n).map_values(
            |m: (Seq<char>, JsonSpec)| model_in(provider, m.0, m.1),
        ),
    decreases n,
{
    let read = |m: (Seq<char>, JsonSpec)| model_in(provider, m.0, m.1);
    if n > 0 {
        lemma_provider_models(provider, models, n - 1);
        assert(models.take(n).map_values(read) =~= models.take(n - 1).map_values(read).push(
            read(models[n - 1]),
        ));
    } else {
        assert(models.take(n).map_values(read) =~= Seq::empty());
    }
}

/// A model has the prices that are given: one for what it is sent, one for what it answers.
pub open spec fn priced(m: ModelView, cost: JsonSpec) -> bool {
    &&& json::field_or_null(cost, "input"@) matches JsonSpec::Number(p) ==> m.price_in == Some(p)
    &&& json::field_or_null(cost, "output"@) matches JsonSpec::Number(p) ==> m.price_out == Some(p)
    &&& json::field_or_null(cost, "input"@) is Null ==> m.price_in is None
    &&& json::field_or_null(cost, "output"@) is Null ==> m.price_out is None
}

/// The catalog holds every model of every provider, in order, each with its own id, the name of its
/// provider, and what is said of it.
pub proof fn every_model_is_in_the_catalog(
    providers: Seq<(Seq<char>, JsonSpec)>,
    n: int,
    p: int,
    name: Seq<char>,
    models: Seq<(Seq<char>, JsonSpec)>,
    i: int,
)
    requires
        0 <= p < n <= providers.len(),
        json::string_field(providers[p].1, "name"@) == Some(name),
        json::field_or_null(providers[p].1, "models"@) == JsonSpec::Object(models),
        0 <= i < models.len(),
    ensures
        exists|k: int|
            {
                &&& 0 <= k < catalog_to(providers, n).len()
                &&& (#[trigger] catalog_to(providers, n)[k]).id == models[i].0
                &&& catalog_to(providers, n)[k].provider == name
                &&& catalog_to(providers, n)[k].tool_call == (json::field_or_null(
                    models[i].1,
                    "tool_call"@,
                ) == JsonSpec::Bool(true))
                &&& catalog_to(providers, n)[k].reasoning == (json::field_or_null(
                    models[i].1,
                    "reasoning"@,
                ) == JsonSpec::Bool(true))
                &&& catalog_to(providers, n)[k].context == json::u64_in(
                    json::field_or_null(
                        json::field_or_null(models[i].1, "limit"@),
                        "context"@,
                    ),
                )
                &&& catalog_to(providers, n)[k].name == (if json::string_field(
                    models[i].1,
                    "name"@,
                ) is Some {
                    json::string_field(models[i].1, "name"@)->0
                } else {
                    models[i].0
                })
                &&& priced(catalog_to(providers, n)[k], json::field_or_null(models[i].1, "cost"@))
            },
    decreases n,
{
    let before = catalog_to(providers, n - 1);
    let all = catalog_to(providers, n);
    if p < n - 1 {
        every_model_is_in_the_catalog(providers, n - 1, p, name, models, i);
        let k = choose|k: int|
            {
                &&& 0 <= k < before.len()
                &&& (#[trigger] before[k]).id == models[i].0
                &&& before[k].provider == name
                &&& before[k].tool_call == (json::field_or_null(models[i].1, "tool_call"@)
                    == JsonSpec::Bool(true))
                &&& before[k].reasoning == (json::field_or_null(models[i].1, "reasoning"@)
                    == JsonSpec::Bool(true))
                &&& before[k].context == json::u64_in(
                    json::field_or_null(json::field_or_null(models[i].1, "limit"@), "context"@),
                )
                &&& before[k].name == (if json::string_field(models[i].1, "name"@) is Some {
                    json::string_field(models[i].1, "name"@)->0
                } else {
                    models[i].0
                })
                &&& priced(before[k], json::field_or_null(models[i].1, "cost"@))
            };
        assert(all[k] == before[k]);
    } else {
        lemma_provider_models(name, models, models.len() as int);
        assert(models.take(models.len() as int) =~= models);
        let k = before.len() + i;
        assert(all[k] == model_in(name, models[i].0, models[i].1));
    }
}

/// Of two models with one id the later one is found; one that no model has is not found.
pub proof fn the_last_model_of_an_id_is_found(models: Seq<ModelInfo>, at: int, n: int, id: Seq<char>)
    requires
        0 <= n <= models.len(),
        -1 <= at < n,
        at >= 0 ==> models[at].id@ == id,
        forall|k: int| at < k < n ==> (#[trigger] models[k]).id@ != id,
    ensures
        at >= 0 ==> by_id(models, n).dom().contains(id) && by_id(models, n)[id] == models[at],
        at < 0 ==> !by_id(models, n).dom().contains(id),
    decreases n,
{
    if n > 0 && at < n - 1 {
        assert(models[n - 1].id@ != id);
        the_last_model_of_an_id_is_found(models, at, n - 1, id);
    }
}

proof fn lemma_last_slash(id: Seq<char>, at: int, n: int)
    requires
        0 <= at < n <= id.len(),
        id[at] == '/',
        forall|k: int| at < k < n ==> id[k] != '/',
    ensures
        text::last_char(id, '/', n) == at,
    decreases n - at,
{
    if n - 1 > at {
        lemma_last_slash(id, at, n - 1);
    }
}

/// The tail of an id is the name behind its last slash.
pub proof fn the_name_is_behind_the_last_slash(vendor: Seq<char>, name: Seq<char>)
    requires
        forall|k: int| 0 <= k < name.len() ==> name[k] != '/',
    ensures
        tail_of(vendor + seq!['/'] + name) == name,
{
    let id = vendor + seq!['/'] + name;
    assert forall|k: int| vendor.len() < k < id.len() implies id[k] != '/' by {
        assert(id[k] == name[k - vendor.len() - 1]);
    }
    lemma_last_slash(id, vendor.len() as int, id.len() as int);
    assert(text::after(id, vendor.len() as int + 1) =~= name);
}

/// A window is told in full, in thousands or in millions, and never as more than it is.
pub proof fn a_window_is_told_rounded_down(n: u64, rest: u64)
    requires
        0 < n < 1000,
        rest < 1000,
    ensures
        context_text(n) == text::decimal(n as nat),
        context_text((n * 1000 + rest) as u64) == text::decimal(n as nat) + "k"@,
        context_text((n * 1_000_000 + rest * 1000) as u64) == text::decimal(n as nat) + "M"@,
{
    assert((n * 1000 + rest) / 1000 == n) by (nonlinear_arith)
        requires
            rest < 1000,
    ;
    assert((n * 1_000_000 + rest * 1000) / 1_000_000 == n) by (nonlinear_arith)
        requires
            rest < 1000,
    ;
}

/// A model is read by the names of its fields.
pub proof fn a_model_is_read_by_name(
    provider: Seq<char>,
    id: Seq<char>,
    m: JsonSpec,
    name: Seq<char>,
    window: u64,
    given: NumberSpec,
    made: NumberSpec,
    calls: bool,
    thinks: bool,
)
    requires
        json::field(m, "name"@) == Some(JsonSpec::Str(name)),
        json::field(json::field_or_null(m, "limit"@), "context"@) == Some(
            JsonSpec::Number(NumberSpec::PosInt(window)),
        ),
        json::field(json::field_or_null(m, "cost"@), "input"@) == Some(JsonSpec::Number(given)),
        json::field(json::field_or_null(m, "cost"@), "output"@) == Some(JsonSpec::Number(made)),
        json::field(m, "tool_call"@) == Some(JsonSpec::Bool(calls)),
        json::field(m, "reasoning"@) == Some(JsonSpec::Bool(thinks)),
    ensures
        model_in(provider, id, m) == (ModelView {
            id,
            name,
            provider,
            context: Some(window),
            price_in: Some(given),
            price_out: Some(made),
            tool_call: calls,
            reasoning: thinks,
        }),
{
}

/// A model that says nothing of itself is called by its id, and can do nothing.
pub proof fn a_silent_model_has_its_id(provider: Seq<char>, id: Seq<char>)
    ensures
        model_in(provider, id, JsonSpec::Object(seq![])) == (ModelView {
            id,
            name: id,
            provider,
            context: None,
            price_in: None,
            price_out: None,
            tool_call: false,
            reasoning: false,
        }),
{
}

} // verus!
