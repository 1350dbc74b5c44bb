//! The model list of an OpenAI-compatible `/models` endpoint.

use crate::json;
use crate::json::{Json, JsonSpec};
use crate::text;
use vstd::prelude::*;
use vstd::string::*;

verus! {

broadcast use crate::text::views_push;

/// Where an endpoint lists its models.
pub open spec fn url_of(base_url: Seq<char>) -> Seq<char> {
    text::without_trailing(base_url, '/') + "/models"@
}

/// Where an endpoint lists its models.
pub fn models_url(base_url: &str) -> (r: String)
    ensures
        r@ == url_of(base_url@),
{
    text::concat2(text::trim_end_matches(base_url, '/'), "/models")
}

/// The ids among the entries `items[..n]` of a model list.
pub open spec fn ids_in(items: Seq<JsonSpec>, n: int) -> Seq<Seq<char>>
    decreases n,
{
    if n <= 0 {
        seq![]
    } else {
        match json::string_field(items[n - 1], "id"@) {
            Some(id) => ids_in(items, n - 1).push(id),
            None => ids_in(items, n - 1),
        }
    }
}

/// The ids that a response lists.
pub open spec fn listed(v: JsonSpec) -> Seq<Seq<char>> {
    match json::items_in(json::field_or_null(v, "data"@)) {
        Some(items) => ids_in(items, items.len() as int),
        None => seq![],
    }
}

/// The model ids of a response, sorted, each of them once.
pub fn model_ids(v: &Json) -> (r: Vec<String>)
    ensures
        text::is_increasing(text::views(r@)),
        forall|id: Seq<char>| text::views(r@).contains(id) <==> listed(v.model()).contains(id),
{
    let mut ids: Vec<String> = Vec::new();
    proof {
        text::views_empty(ids@);
    }
    if let Some(items) = v.array_field("data") {
        let ghost all = json::items_model(items@);
        let mut i: usize = 0;
        while i < items.len()
            invariant
                0 <= i <= items@.len(),
                all == json::items_model(items@),
                text::views(ids@) == ids_in(all, i as int),
            decreases items@.len() - i,
        {
            assert(all[i as int] == items@[i as int].model());
            if let Some(id) = items[i].str_field("id") {
                ids.push(id.to_string());
            }
            i += 1;
        }
    }
    text::sort_dedup(&ids)
}

proof fn lemma_ids(items: Seq<JsonSpec>, n: int)
    requires
        0 <= n <= items.len(),
    ensures
        forall|id: Seq<char>|
            ids_in(items, n).contains(id) <==> exists|i: int|
                0 <= i < n && json::string_field(#[trigger] items[i], "id"@) == Some(id),
    decreases n,
{
    if n > 0 {
        lemma_ids(items, n - 1);
        let before = ids_in(items, n - 1);
        assert forall|id: Seq<char>| ids_in(items, n).contains(id) <==> exists|i: int|
            0 <= i < n && json::string_field(#[trigger] items[i], "id"@) == Some(id) by {
            let last = json::string_field(items[n - 1], "id"@);
            if ids_in(items, n).contains(id) {
                let k = choose|k: int| 0 <= k < ids_in(items, n).len() && ids_in(items, n)[k] == id;
                if k < before.len() {
                    assert(before[k] == id);
                    assert(before.contains(id));
                } else {
                    assert(last == Some(id));
                }
            }
            if exists|i: int| 0 <= i < n && json::string_field(#[trigger] items[i], "id"@) == Some(id) {
                let i = choose|i: int|
                    0 <= i < n && json::string_field(#[trigger] items[i], "id"@) == Some(id);
                if i == n - 1 {
                    assert(ids_in(items, n)[before.len() as int] == id);
                } else {
                    assert(before.contains(id));
                    let k = choose|k: int| 0 <= k < before.len() && before[k] == id;
                    assert(ids_in(items, n)[k] == id);
                }
            }
        }
    } else {
        assert(ids_in(items, n).len() == 0);
    }
}

/// A model is listed exactly where an entry of the answer has its id.
pub proof fn every_id_is_listed(v: JsonSpec, items: Seq<JsonSpec>, id: Seq<char>)
    requires
        json::items_in(json::field_or_null(v, "data"@)) == Some(items),
    ensures
        listed(v).contains(id) <==> exists|i: int|
            0 <= i < items.len() && json::string_field(#[trigger] items[i], "id"@) == Some(id),
{
    lemma_ids(items, items.len() as int);
}

/// The models are asked for below the base address, whether or not that ends with a slash.
pub proof fn models_stand_below_the_base(base: Seq<char>)
    requires
        base.len() > 0,
        base.last() != '/',
    ensures
        url_of(base) == base + "/models"@,
        url_of(base.push('/')) == base + "/models"@,
{
    let slashed = base.push('/');
    assert(slashed.subrange(0, slashed.len() - 1) =~= base);
    reveal_with_fuel(text::without_trailing, 2);
}

} // verus!
