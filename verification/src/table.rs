//! A map from texts to values.

use crate::text;
use vstd::prelude::*;
use vstd::string::*;

verus! {

/// A map from texts to values, in the order in which the keys were first set.
pub struct Table<V> {
    entries: Vec<(String, V)>,
}

/// The position of `key` among the entries from `i` on, or their number.
spec fn position<V>(entries: Seq<(String, V)>, key: Seq<char>, i: int) -> int
    decreases entries.len() - i,
{
    if i < 0 || i >= entries.len() {
        entries.len() as int
    } else if entries[i].0@ == key {
        i
    } else {
        position(entries, key, i + 1)
    }
}

proof fn lemma_position<V>(entries: Seq<(String, V)>, key: Seq<char>, i: int)
    requires
        0 <= i <= entries.len(),
    ensures
        i <= position(entries, key, i) <= entries.len(),
        position(entries, key, i) < entries.len() ==> entries[position(entries, key, i)].0@ == key,
        forall|k: int|
            i <= k < position(entries, key, i) ==> (#[trigger] entries[k]).0@ != key,
    decreases entries.len() - i,
{
    if i < entries.len() && entries[i].0@ != key {
        lemma_position(entries, key, i + 1);
    }
}

spec fn map_of<V>(entries: Seq<(String, V)>) -> Map<Seq<char>, V> {
    Map::new(
        |k: Seq<char>| position(entries, k, 0) < entries.len(),
        |k: Seq<char>| entries[position(entries, k, 0)].1,
    )
}

spec fn keys_of<V>(entries: Seq<(String, V)>) -> Seq<Seq<char>> {
    Seq::new(entries.len(), |i: int| entries[i].0@)
}

impl<V> View for Table<V> {
    type V = Map<Seq<char>, V>;

    closed spec fn view(&self) -> Map<Seq<char>, V> {
        map_of(self.entries@)
    }
}

impl<V> Table<V> {
    /// No key occurs twice.
    #[verifier::type_invariant]
    spec fn distinct(self) -> bool {
        forall|i: int, j: int|
            0 <= i < j < self.entries@.len() ==> (#[trigger] self.entries@[i]).0@ != (
            #[trigger] self.entries@[j]).0@
    }

    /// The keys in the order in which they were first set.
    pub closed spec fn keys(&self) -> Seq<Seq<char>> {
        keys_of(self.entries@)
    }

    pub fn new() -> (r: Table<V>)
        ensures
            r@ == Map::<Seq<char>, V>::empty(),
            r.keys() == Seq::<Seq<char>>::empty(),
    {
        let r = Table { entries: Vec::new() };
        assert(r@ =~= Map::empty());
        assert(r.keys() =~= Seq::empty());
        r
    }

    fn find(&self, key: &str) -> (r: Option<usize>)
        ensures
            match r {
                Some(i) => i == position(self.entries@, key@, 0) && i < self.entries@.len(),
                None => position(self.entries@, key@, 0) == self.entries@.len(),
            },
    {
        let mut i: usize = 0;
        while i < self.entries.len()
            invariant
                0 <= i <= self.entries@.len(),
                position(self.entries@, key@, 0) == position(self.entries@, key@, i as int),
            decreases self.entries@.len() - i,
        {
            if text::same(self.entries[i].0.as_str(), key) {
                return Some(i);
            }
            i += 1;
        }
        None
    }

    /// The value of `key`.
    pub fn get(&self, key: &str) -> (r: Option<&V>)
        ensures
            match r {
                Some(v) => self@.dom().contains(key@) && *v == self@[key@],
                None => !self@.dom().contains(key@),
            },
    {
        match self.find(key) {
            Some(i) => Some(&self.entries[i].1),
            None => None,
        }
    }

    pub fn contains(&self, key: &str) -> (r: bool)
        ensures
            r == self@.dom().contains(key@),
    {
        self.find(key).is_some()
    }

    /// How many keys there are: each key of the map once.
    pub fn len(&self) -> (r: usize)
        ensures
            r == self.keys().len(),
            self@.dom().finite(),
            r == self@.dom().len(),
            self.keys().no_duplicates(),
            forall|k: Seq<char>| self.keys().contains(k) <==> self@.dom().contains(k),
    {
        proof {
            use_type_invariant(self);
            let es = self.entries@;
            let ks = self.keys();
            assert forall|k: Seq<char>| ks.contains(k) <==> self@.dom().contains(k) by {
                lemma_position(es, k, 0);
                if ks.contains(k) {
                    let i = choose|i: int| 0 <= i < ks.len() && ks[i] == k;
                    assert(es[i].0@ == k);
                }
                if self@.dom().contains(k) {
                    assert(ks[position(es, k, 0)] == k);
                }
            }
            ks.unique_seq_to_set();
            assert(ks.to_set() =~= self@.dom());
        }
        self.entries.len()
    }

    /// The `i`th entry in the order in which the keys were first set.
    pub fn entry(&self, i: usize) -> (r: (&str, &V))
        requires
            i < self.keys().len(),
        ensures
            r.0@ == self.keys()[i as int],
            self@.dom().contains(r.0@),
            *r.1 == self@[r.0@],
    {
        proof {
            use_type_invariant(self);
            lemma_position(self.entries@, self.entries@[i as int].0@, 0);
        }
        (self.entries[i].0.as_str(), &self.entries[i].1)
    }

    /// Sets the value of `key`.
    pub fn insert(&mut self, key: &str, value: V)
        ensures
            final(self)@ == old(self)@.insert(key@, value),
            final(self).keys() == (if old(self)@.dom().contains(key@) {
                old(self).keys()
            } else {
                old(self).keys().push(key@)
            }),
    {
        proof {
            use_type_invariant(&*self);
        }
        let ghost before = self.entries@;
        let at = self.find(key);
        let mut entries: Vec<(String, V)> = Vec::new();
        std::mem::swap(&mut entries, &mut self.entries);
        proof {
            lemma_position(before, key@, 0);
        }
        match at {
            Some(i) => {
                entries.set(i, (key.to_string(), value));
            },
            None => {
                entries.push((key.to_string(), value));
            },
        }
        let ghost after = entries@;
        proof {
            assert forall|k: Seq<char>| #[trigger] position(after, k, 0) == (if k == key@ {
                position(before, key@, 0)
            } else if at is None && position(before, k, 0) == before.len() {
                after.len() as int
            } else {
                position(before, k, 0)
            }) by {
                lemma_position(before, k, 0);
                lemma_position(after, k, 0);
                let p = position(after, k, 0);
                let q = position(before, k, 0);
                if q < before.len() {
                    assert(after[q].0@ == k);
                }
                if p < before.len() {
                    assert(before[p].0@ == k);
                }
                if k == key@ && at is None {
                    assert(after[before.len() as int].0@ == k);
                }
            }
            let next = map_of(before).insert(key@, value);
            assert forall|k: Seq<char>| map_of(after).dom().contains(k) implies #[trigger] map_of(
                after,
            )[k] == next[k] by {
                lemma_position(before, k, 0);
            }
            assert(map_of(after) =~= next);
            assert(at is Some ==> keys_of(after) =~= keys_of(before));
            assert(at is None ==> keys_of(after) =~= keys_of(before).push(key@));
        }
        self.entries = entries;
    }

    /// Drops `key` and gives its value.
    pub fn remove(&mut self, key: &str) -> (r: Option<V>)
        ensures
            match r {
                Some(v) => old(self)@.dom().contains(key@) && v == old(self)@[key@],
                None => !old(self)@.dom().contains(key@),
            },
            final(self)@ == old(self)@.remove(key@),
            final(self).keys() == (if old(self)@.dom().contains(key@) {
                old(self).keys().remove(old(self).keys().index_of(key@))
            } else {
                old(self).keys()
            }),
    {
        proof {
            use_type_invariant(&*self);
        }
        let ghost before = self.entries@;
        proof {
            lemma_position(before, key@, 0);
        }
        if let Some(i) = self.find(key) {
            let mut entries: Vec<(String, V)> = Vec::new();
            std::mem::swap(&mut entries, &mut self.entries);
            let removed = entries.remove(i);
            let ghost after = entries@;
            proof {
                assert forall|k: Seq<char>| #[trigger] position(after, k, 0) == (if k == key@ {
                    after.len() as int
                } else if position(before, k, 0) > i {
                    position(before, k, 0) - 1
                } else {
                    position(before, k, 0)
                }) by {
                    lemma_position(before, k, 0);
                    lemma_position(after, k, 0);
                    let p = position(after, k, 0);
                    let q = position(before, k, 0);
                    if p < after.len() {
                        let o = if p < i {
                            p
                        } else {
                            p + 1
                        };
                        assert(before[o].0@ == k);
                    }
                    if q < before.len() && q != i {
                        let o = if q < i {
                            q
                        } else {
                            q - 1
                        };
                        assert(after[o].0@ == k);
                    }
                }
                let next = map_of(before).remove(key@);
                assert forall|k: Seq<char>| map_of(after).dom().contains(k) implies
                    #[trigger] map_of(after)[k] == next[k] by {
                    lemma_position(before, k, 0);
                }
                assert forall|k: Seq<char>| #[trigger] map_of(after).dom().contains(k)
                    == next.dom().contains(k) by {
                    lemma_position(before, k, 0);
                }
                assert(map_of(after) =~= next);
                let ks = keys_of(before);
                assert(ks[i as int] == key@);
                assert(ks.contains(key@));
                assert(ks.index_of(key@) == i) by {
                    let j = ks.index_of(key@);
                    assert(0 <= j < ks.len() && ks[j] == key@);
                    assert(before[j].0@ == before[i as int].0@);
                }
                assert(keys_of(after) =~= ks.remove(i as int));
            }
            self.entries = entries;
            Some(removed.1)
        } else {
            assert(map_of(before) =~= map_of(before).remove(key@));
            None
        }
    }
}

} // verus!
