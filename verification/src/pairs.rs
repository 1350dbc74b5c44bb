//! Names with their values, in order.

use crate::text;
use vstd::prelude::*;
use vstd::string::*;

verus! {

/// A name with its value.
pub type Pair = (Seq<char>, Seq<char>);

/// The values of pairs.
pub open spec fn pair_views(pairs: Seq<(String, String)>) -> Seq<Pair> {
    Seq::new(pairs.len(), |i: int| (pairs[i].0@, pairs[i].1@))
}

/// The value of the first pair with the given name.
pub open spec fn first_value(pairs: Seq<Pair>, name: Seq<char>, i: int) -> Option<Seq<char>>
    decreases pairs.len() - i,
{
    if i < 0 || i >= pairs.len() {
        None
    } else if pairs[i].0 == name {
        Some(pairs[i].1)
    } else {
        first_value(pairs, name, i + 1)
    }
}

/// The value of the last of the first `n` pairs with the given name.
pub open spec fn last_value(pairs: Seq<Pair>, name: Seq<char>, n: int) -> Option<Seq<char>>
    decreases n,
{
    if n <= 0 {
        None
    } else if pairs[n - 1].0 == name {
        Some(pairs[n - 1].1)
    } else {
        last_value(pairs, name, n - 1)
    }
}

/// The value of the first pair with the given name.
pub fn first_of(pairs: &Vec<(String, String)>, name: &str) -> (r: Option<String>)
    ensures
        text::opt_view(r) == first_value(pair_views(pairs@), name@, 0),
{
    let ghost all = pair_views(pairs@);
    let mut i: usize = 0;
    while i < pairs.len()
        invariant
            0 <= i <= pairs@.len(),
            all == pair_views(pairs@),
            first_value(all, name@, 0) == first_value(all, name@, i as int),
        decreases pairs@.len() - i,
    {
        assert(all[i as int] == (pairs@[i as int].0@, pairs@[i as int].1@));
        if text::same(pairs[i].0.as_str(), name) {
            return Some(pairs[i].1.clone());
        }
        i += 1;
    }
    None
}

/// The value of the last pair with the given name.
pub fn last_of(pairs: &Vec<(String, String)>, name: &str) -> (r: Option<String>)
    ensures
        text::opt_view(r) == last_value(pair_views(pairs@), name@, pairs@.len() as int),
{
    let ghost all = pair_views(pairs@);
    let mut n: usize = pairs.len();
    while n > 0
        invariant
            0 <= n <= pairs@.len(),
            all == pair_views(pairs@),
            last_value(all, name@, all.len() as int) == last_value(all, name@, n as int),
        decreases n,
    {
        n -= 1;
        assert(all[n as int] == (pairs@[n as int].0@, pairs@[n as int].1@));
        if text::same(pairs[n].0.as_str(), name) {
            return Some(pairs[n].1.clone());
        }
    }
    None
}

/// The first value under a name is that of the first pair with it.
pub proof fn the_first_value_is_found(pairs: Seq<Pair>, name: Seq<char>, at: int)
    requires
        0 <= at < pairs.len(),
        pairs[at].0 == name,
        forall|k: int| 0 <= k < at ==> (#[trigger] pairs[k]).0 != name,
    ensures
        first_value(pairs, name, 0) == Some(pairs[at].1),
{
    lemma_first_from(pairs, name, at, 0);
}

proof fn lemma_first_from(pairs: Seq<Pair>, name: Seq<char>, at: int, i: int)
    requires
        0 <= i <= at < pairs.len(),
        pairs[at].0 == name,
        forall|k: int| 0 <= k < at ==> (#[trigger] pairs[k]).0 != name,
    ensures
        first_value(pairs, name, i) == Some(pairs[at].1),
    decreases at - i,
{
    if i < at {
        assert(pairs[i].0 != name);
        lemma_first_from(pairs, name, at, i + 1);
    }
}

/// The last value under a name is that of the last pair with it.
pub proof fn the_last_value_is_found(pairs: Seq<Pair>, name: Seq<char>, at: int, n: int)
    requires
        0 <= at < n <= pairs.len(),
        pairs[at].0 == name,
        forall|k: int| at < k < n ==> (#[trigger] pairs[k]).0 != name,
    ensures
        last_value(pairs, name, n) == Some(pairs[at].1),
    decreases n,
{
    if at < n - 1 {
        assert(pairs[n - 1].0 != name);
        the_last_value_is_found(pairs, name, at, n - 1);
    }
}

/// A name that no pair has gives no value.
pub proof fn an_absent_name_has_no_value(pairs: Seq<Pair>, name: Seq<char>, n: int)
    requires
        0 <= n <= pairs.len(),
        forall|k: int| 0 <= k < pairs.len() ==> (#[trigger] pairs[k]).0 != name,
    ensures
        last_value(pairs, name, n) is None,
        first_value(pairs, name, n) is None,
{
    lemma_none_before(pairs, name, n);
    lemma_none_from(pairs, name, n);
}

proof fn lemma_none_before(pairs: Seq<Pair>, name: Seq<char>, n: int)
    requires
        0 <= n <= pairs.len(),
        forall|k: int| 0 <= k < pairs.len() ==> (#[trigger] pairs[k]).0 != name,
    ensures
        last_value(pairs, name, n) is None,
    decreases n,
{
    if n > 0 {
        assert(pairs[n - 1].0 != name);
        lemma_none_before(pairs, name, n - 1);
    }
}

proof fn lemma_none_from(pairs: Seq<Pair>, name: Seq<char>, i: int)
    requires
        0 <= i <= pairs.len(),
        forall|k: int| 0 <= k < pairs.len() ==> (#[trigger] pairs[k]).0 != name,
    ensures
        first_value(pairs, name, i) is None,
    decreases pairs.len() - i,
{
    if i < pairs.len() {
        assert(pairs[i].0 != name);
        lemma_none_from(pairs, name, i + 1);
    }
}

} // verus!
