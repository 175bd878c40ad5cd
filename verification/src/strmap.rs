//! A map keyed by strings that keeps its entries in the order of their keys.

use crate::listing::{
    ascending, ascending_keys_differ, ascending_lists_its_map, entries_map, key_at,
    listing_determines_map, listing_insert, listing_length, listing_remove, lists,
};
use crate::text::{lex_lt, lex_lt_irreflexive, lex_lt_total, lex_lt_transitive, rank, Rank};
use vstd::prelude::*;

verus! {

/// A map from strings to values of `V`, walked by ascending key.
#[derive(Debug, PartialEq, Eq)]
pub struct StrMap<V> {
    entries: Vec<(String, V)>,
}

impl<V> View for StrMap<V> {
    type V = Map<Seq<char>, V>;

    closed spec fn view(&self) -> Map<Seq<char>, V> {
        entries_map(self.entries@)
    }
}

impl<V> StrMap<V> {
    #[verifier::type_invariant]
    spec fn ordered(self) -> bool {
        ascending(self.entries@)
    }

    /// The empty map.
    pub fn new() -> (m: Self)
        ensures
            m@ == Map::<Seq<char>, V>::empty(),
    {
        let m = StrMap { entries: Vec::new() };
        assert(m@ =~= Map::<Seq<char>, V>::empty());
        m
    }

    /// The index at which `key` stands or would have to stand.
    fn position(&self, key: &str) -> (r: (usize, bool))
        ensures
            r.0 <= self.entries@.len(),
            forall|j: int| 0 <= j < r.0 ==> lex_lt((#[trigger] self.entries@[j]).0@, key@),
            r.1 ==> key_at(self.entries@, r.0 as int, key@),
            !r.1 ==> forall|j: int|
                r.0 <= j < self.entries@.len() ==> lex_lt(key@, (#[trigger] self.entries@[j]).0@),
    {
        proof {
            use_type_invariant(self);
        }
        let mut low: usize = 0;
        let mut high: usize = self.entries.len();
        while low < high
            invariant
                low <= high <= self.entries@.len(),
                ascending(self.entries@),
                forall|j: int| 0 <= j < low ==> lex_lt((#[trigger] self.entries@[j]).0@, key@),
                forall|j: int|
                    high <= j < self.entries@.len() ==> lex_lt(
                        key@,
                        (#[trigger] self.entries@[j]).0@,
                    ),
            decreases high - low,
        {
            let middle = low + (high - low) / 2;
            let ghost here = self.entries@[middle as int].0@;
            match rank(self.entries[middle].0.as_str(), key) {
                Rank::Same => {
                    return (middle, true);
                },
                Rank::Before => {
                    proof {
                        assert forall|j: int| 0 <= j < middle + 1 implies lex_lt(
                            (#[trigger] self.entries@[j]).0@,
                            key@,
                        ) by {
                            if j < middle {
                                assert(lex_lt(self.entries@[j].0@, here));
                                lex_lt_transitive(self.entries@[j].0@, here, key@);
                            }
                        }
                    }
                    low = middle + 1;
                },
                Rank::After => {
                    proof {
                        lex_lt_total(here, key@);
                        assert forall|j: int| middle <= j < self.entries@.len() implies lex_lt(
                            key@,
                            (#[trigger] self.entries@[j]).0@,
                        ) by {
                            if middle < j {
                                assert(lex_lt(here, self.entries@[j].0@));
                                lex_lt_transitive(key@, here, self.entries@[j].0@);
                            }
                        }
                    }
                    high = middle;
                },
            }
        }
        (low, false)
    }

    /// The number of entries.
    pub fn len(&self) -> (n: usize)
        ensures
            n == self@.len(),
            self@.dom().finite(),
    {
        proof {
            use_type_invariant(self);
            self.view_is_listed();
            listing_length(self.entries@, self@);
        }
        self.entries.len()
    }

    /// Whether the map holds nothing.
    pub fn is_empty(&self) -> (b: bool)
        ensures
            b == (self@.len() == 0),
            self@.dom().finite(),
    {
        self.len() == 0
    }

    /// Whether `key` is bound.
    pub fn contains_key(&self, key: &str) -> (b: bool)
        ensures
            b == self@.contains_key(key@),
    {
        let (i, found) = self.position(key);
        proof {
            use_type_invariant(self);
            self.view_is_listed();
            if !found && self@.contains_key(key@) {
                let j = choose|j: int| #[trigger] key_at(self.entries@, j, key@);
                lex_lt_irreflexive(key@);
                assert(lex_lt(self.entries@[j].0@, key@) || lex_lt(key@, self.entries@[j].0@));
            }
            if found {
                assert(self@.contains_pair(self.entries@[i as int].0@, self.entries@[i as int].1));
            }
        }
        found
    }

    /// The value bound to `key`, if any.
    pub fn get(&self, key: &str) -> (r: Option<&V>)
        ensures
            match r {
                Some(v) => self@.contains_pair(key@, *v),
                None => !self@.contains_key(key@),
            },
    {
        let (i, found) = self.position(key);
        proof {
            use_type_invariant(self);
            self.view_is_listed();
            if !found && self@.contains_key(key@) {
                let j = choose|j: int| #[trigger] key_at(self.entries@, j, key@);
                lex_lt_irreflexive(key@);
                assert(lex_lt(self.entries@[j].0@, key@) || lex_lt(key@, self.entries@[j].0@));
            }
            if found {
                assert(self@.contains_pair(self.entries@[i as int].0@, self.entries@[i as int].1));
            }
        }
        if found {
            Some(&self.entries[i].1)
        } else {
            None
        }
    }

    /// The entries by ascending key.
    pub closed spec fn listing(&self) -> Seq<(String, V)> {
        self.entries@
    }

    /// The entries by ascending key.
    pub fn entries(&self) -> (r: &Vec<(String, V)>)
        ensures
            r@ == self.listing(),
            lists(r@, self@),
    {
        proof {
            use_type_invariant(self);
            self.view_is_listed();
        }
        &self.entries
    }

    /// Gives up the entries, by ascending key.
    pub fn into_entries(self) -> (r: Vec<(String, V)>)
        ensures
            r@ == self.listing(),
            lists(r@, self@),
    {
        proof {
            use_type_invariant(&self);
            self.view_is_listed();
        }
        self.entries
    }

    /// Binds `key` to `value` and hands back what it was bound to before.
    pub fn insert(&mut self, key: String, value: V) -> (prev: Option<V>)
        ensures
            final(self)@ == old(self)@.insert(key@, value),
            match prev {
                Some(v) => old(self)@.contains_pair(key@, v),
                None => !old(self)@.contains_key(key@),
            },
    {
        let (i, found) = self.position(key.as_str());
        let ghost before = self.entries@;
        let ghost m = self@;
        proof {
            use_type_invariant(&*self);
            ascending_lists_its_map(before);
        }
        let mut items: Vec<(String, V)> = Vec::new();
        core::mem::swap(&mut self.entries, &mut items);
        let mut prev: Option<V> = None;
        if found {
            proof {
                listing_remove(before, m, i as int);
                assert(m.contains_pair(before[i as int].0@, before[i as int].1));
            }
            let (_, old_value) = items.remove(i);
            prev = Some(old_value);
        } else {
            proof {
                if m.contains_key(key@) {
                    let j = choose|j: int| #[trigger] key_at(before, j, key@);
                    lex_lt_irreflexive(key@);
                    assert(lex_lt(before[j].0@, key@) || lex_lt(key@, before[j].0@));
                }
                assert(m.remove(key@) =~= m);
            }
        }
        let ghost middle = items@;
        proof {
            assert(lists(middle, m.remove(key@)));
            assert forall|j: int| 0 <= j < i implies lex_lt((#[trigger] middle[j]).0@, key@) by {
                assert(middle[j] == before[j]);
            }
            assert forall|j: int| i <= j < middle.len() implies lex_lt(
                key@,
                (#[trigger] middle[j]).0@,
            ) by {
                if found {
                    assert(middle[j] == before[j + 1]);
                    assert(lex_lt(before[i as int].0@, before[j + 1].0@));
                } else {
                    assert(middle[j] == before[j]);
                }
            }
            listing_insert(middle, m.remove(key@), i as int, key, value);
            assert(m.remove(key@).insert(key@, value) =~= m.insert(key@, value));
            ascending_lists_its_map(middle.insert(i as int, (key, value)));
            listing_determines_map(
                middle.insert(i as int, (key, value)),
                m.insert(key@, value),
                entries_map(middle.insert(i as int, (key, value))),
            );
        }
        items.insert(i, (key, value));
        self.entries = items;
        prev
    }

    /// Unbinds `key` and hands back what it was bound to.
    pub fn remove(&mut self, key: &str) -> (prev: Option<V>)
        ensures
            final(self)@ == old(self)@.remove(key@),
            match prev {
                Some(v) => old(self)@.contains_pair(key@, v),
                None => !old(self)@.contains_key(key@),
            },
    {
        let (i, found) = self.position(key);
        let ghost before = self.entries@;
        let ghost m = self@;
        proof {
            use_type_invariant(&*self);
            ascending_lists_its_map(before);
        }
        if found {
            proof {
                listing_remove(before, m, i as int);
                assert(m.contains_pair(before[i as int].0@, before[i as int].1));
                ascending_lists_its_map(before.remove(i as int));
                listing_determines_map(
                    before.remove(i as int),
                    m.remove(key@),
                    entries_map(before.remove(i as int)),
                );
            }
            let mut items: Vec<(String, V)> = Vec::new();
            core::mem::swap(&mut self.entries, &mut items);
            let (_, old_value) = items.remove(i);
            self.entries = items;
            Some(old_value)
        } else {
            proof {
                if m.contains_key(key@) {
                    let j = choose|j: int| #[trigger] key_at(before, j, key@);
                    lex_lt_irreflexive(key@);
                    assert(lex_lt(before[j].0@, key@) || lex_lt(key@, before[j].0@));
                }
                assert(m.remove(key@) =~= m);
            }
            None
        }
    }

    /// Takes over every binding of `other`; where both bind a key, the
    /// binding of `other` stands.
    pub fn extend(&mut self, other: StrMap<V>)
        ensures
            final(self)@ == old(self)@.union_prefer_right(other@),
    {
        let mut rest = other.into_entries();
        let ghost all = rest@;
        let ghost start = self@;
        while rest.len() > 0
            invariant
                lists(all, other@),
                rest@.len() <= all.len(),
                rest@ == all.subrange(0, rest@.len() as int),
                forall|k: Seq<char>|
                    self@.contains_key(k) <==> start.contains_key(k) || exists|j: int|
                        rest@.len() <= j && #[trigger] key_at(all, j, k),
                forall|k: Seq<char>, j: int|
                    rest@.len() <= j && #[trigger] key_at(all, j, k) ==> self@[k] == all[j].1,
                forall|k: Seq<char>|
                    #![trigger self@[k]]
                    start.contains_key(k) && !(exists|j: int|
                        rest@.len() <= j && #[trigger] key_at(all, j, k)) ==> self@[k] == start[k],
            decreases rest.len(),
        {
            let ghost n = rest@.len() as int;
            let ghost prior = self@;
            let Some((key, value)) = rest.pop() else {
                return ;
            };
            self.insert(key, value);
            proof {
                assert(all[n - 1] == (key, value));
                assert(rest@ =~= all.subrange(0, n - 1));
                assert forall|k: Seq<char>|
                    self@.contains_key(k) <==> start.contains_key(k) || exists|j: int|
                        n - 1 <= j && #[trigger] key_at(all, j, k) by {
                    if k == key@ {
                        assert(key_at(all, n - 1, k));
                    } else if prior.contains_key(k) && !start.contains_key(k) {
                        let j = choose|j: int| n <= j && #[trigger] key_at(all, j, k);
                        assert(n - 1 <= j && key_at(all, j, k));
                    } else if exists|j: int| n - 1 <= j && #[trigger] key_at(all, j, k) {
                        let j = choose|j: int| n - 1 <= j && #[trigger] key_at(all, j, k);
                        assert(n <= j && key_at(all, j, k));
                    }
                }
                assert forall|k: Seq<char>, j: int|
                    n - 1 <= j && #[trigger] key_at(all, j, k) implies self@[k] == all[j].1 by {
                    if k == key@ {
                        ascending_keys_differ(all, j, n - 1);
                    } else {
                        assert(n <= j && key_at(all, j, k));
                    }
                }
                assert forall|k: Seq<char>|
                    #![trigger self@[k]]
                    start.contains_key(k) && !(exists|j: int|
                        n - 1 <= j && #[trigger] key_at(all, j, k)) implies self@[k] == start[k] by {
                    if k == key@ {
                        assert(key_at(all, n - 1, k));
                    } else {
                        if exists|j: int| n <= j && #[trigger] key_at(all, j, k) {
                            let j = choose|j: int| n <= j && #[trigger] key_at(all, j, k);
                            assert(n - 1 <= j && key_at(all, j, k));
                        }
                    }
                }
            }
        }
        proof {
            let goal = start.union_prefer_right(other@);
            assert forall|k: Seq<char>| self@.contains_key(k) == goal.contains_key(k) by {
                if other@.contains_key(k) {
                    let j = choose|j: int| #[trigger] key_at(all, j, k);
                    assert(0 <= j && key_at(all, j, k));
                }
                if exists|j: int| 0 <= j && #[trigger] key_at(all, j, k) {
                    let j = choose|j: int| 0 <= j && #[trigger] key_at(all, j, k);
                    assert(other@.contains_pair(all[j].0@, all[j].1));
                }
            }
            assert forall|k: Seq<char>| self@.contains_key(k) implies self@[k] == goal[k] by {
                if other@.contains_key(k) {
                    let j = choose|j: int| #[trigger] key_at(all, j, k);
                    assert(0 <= j && key_at(all, j, k));
                    assert(other@.contains_pair(all[j].0@, all[j].1));
                } else {
                    if exists|j: int| 0 <= j && #[trigger] key_at(all, j, k) {
                        let j = choose|j: int| 0 <= j && #[trigger] key_at(all, j, k);
                        assert(other@.contains_pair(all[j].0@, all[j].1));
                    }
                }
            }
            assert(self@ =~= goal);
        }
    }

    proof fn view_is_listed(self)
        requires
            ascending(self.entries@),
        ensures
            lists(self.entries@, self@),
    {
        ascending_lists_its_map(self.entries@);
    }
}

impl<V: Clone> Clone for StrMap<V> {
    /// A map with the same keys, each bound to a clone of its value.
    fn clone(&self) -> (out: Self)
        ensures
            out@.dom() == self@.dom(),
            forall|k: Seq<char>| #[trigger]
                out@.contains_key(k) ==> cloned::<V>(self@[k], out@[k]),
    {
        proof {
            use_type_invariant(self);
            ascending_lists_its_map(self.entries@);
        }
        let n = self.entries.len();
        let mut copy: Vec<(String, V)> = Vec::new();
        let mut i: usize = 0;
        while i < n
            invariant
                i <= n,
                n == self.entries@.len(),
                copy@.len() == i,
                forall|j: int|
                    0 <= j < i ==> (#[trigger] copy@[j]).0@ == self.entries@[j].0@ && cloned::<V>(
                        self.entries@[j].1,
                        copy@[j].1,
                    ),
            decreases n - i,
        {
            let key = self.entries[i].0.clone();
            let value = self.entries[i].1.clone();
            copy.push((key, value));
            i += 1;
        }
        proof {
            assert forall|a: int, b: int|
                #![trigger copy@[a], copy@[b]]
                0 <= a < b < copy@.len() implies lex_lt(copy@[a].0@, copy@[b].0@) by {
                assert(lex_lt(self.entries@[a].0@, self.entries@[b].0@));
            }
            ascending_lists_its_map(copy@);
        }
        let out = StrMap { entries: copy };
        proof {
            assert forall|k: Seq<char>| out@.contains_key(k) == self@.contains_key(k) by {
                if out@.contains_key(k) {
                    let j = choose|j: int| #[trigger] key_at(out.entries@, j, k);
                    assert(self@.contains_pair(self.entries@[j].0@, self.entries@[j].1));
                }
                if self@.contains_key(k) {
                    let j = choose|j: int| #[trigger] key_at(self.entries@, j, k);
                    assert(out@.contains_pair(out.entries@[j].0@, out.entries@[j].1));
                }
            }
            assert(out@.dom() =~= self@.dom());
            assert forall|k: Seq<char>| #[trigger] out@.contains_key(k) implies cloned::<V>(
                self@[k],
                out@[k],
            ) by {
                let j = choose|j: int| #[trigger] key_at(out.entries@, j, k);
                assert(self@.contains_pair(self.entries@[j].0@, self.entries@[j].1));
                assert(out@.contains_pair(out.entries@[j].0@, out.entries@[j].1));
            }
        }
        out
    }
}

} // verus!
