//! Listings: the entries of a map in the order of their keys.

use crate::layers::{inhabited, is_least, shared_keys};
use crate::text::{lex_lt, lex_lt_irreflexive, lex_lt_total};
use vstd::prelude::*;

verus! {

/// Whether the keys of `entries` strictly ascend.
pub open spec fn ascending<V>(entries: Seq<(String, V)>) -> bool {
    forall|i: int, j: int|
        #![trigger entries[i], entries[j]]
        0 <= i < j < entries.len() ==> lex_lt(entries[i].0@, entries[j].0@)
}

/// Whether `entries` holds the key `k` at index `i`.
pub open spec fn key_at<V>(entries: Seq<(String, V)>, i: int, k: Seq<char>) -> bool {
    0 <= i < entries.len() && entries[i].0@ == k
}

/// Whether `entries` is the listing of `m`: every pair of `m` once, and
/// nothing else, by ascending key.
pub open spec fn lists<V>(entries: Seq<(String, V)>, m: Map<Seq<char>, V>) -> bool {
    &&& ascending(entries)
    &&& forall|i: int|
        0 <= i < entries.len() ==> m.contains_pair((#[trigger] entries[i]).0@, entries[i].1)
    &&& forall|k: Seq<char>|
        m.contains_key(k) ==> exists|i: int| #[trigger] key_at(entries, i, k)
}

/// The map that a sequence of entries with distinct keys stands for.
pub open spec fn entries_map<V>(entries: Seq<(String, V)>) -> Map<Seq<char>, V> {
    Map::new(
        |k: Seq<char>| exists|i: int| #[trigger] key_at(entries, i, k),
        |k: Seq<char>| entries[choose|i: int| #[trigger] key_at(entries, i, k)].1,
    )
}

/// In an ascending sequence a key stands at one index only.
pub proof fn ascending_keys_differ<V>(entries: Seq<(String, V)>, i: int, j: int)
    requires
        ascending(entries),
        0 <= i < entries.len(),
        0 <= j < entries.len(),
        entries[i].0@ == entries[j].0@,
    ensures
        i == j,
{
    lex_lt_irreflexive(entries[i].0@);
    if i < j {
        assert(lex_lt(entries[i].0@, entries[j].0@));
    } else if j < i {
        assert(lex_lt(entries[j].0@, entries[i].0@));
    }
}

/// An ascending sequence lists the map it stands for.
pub proof fn ascending_lists_its_map<V>(entries: Seq<(String, V)>)
    requires
        ascending(entries),
    ensures
        lists(entries, entries_map(entries)),
{
    let m = entries_map(entries);
    assert forall|i: int| 0 <= i < entries.len() implies m.contains_pair(
        (#[trigger] entries[i]).0@,
        entries[i].1,
    ) by {
        let k = entries[i].0@;
        assert(key_at(entries, i, k));
        let c = choose|c: int| #[trigger] key_at(entries, c, k);
        ascending_keys_differ(entries, i, c);
    }
}

/// A sequence lists one map only.
pub proof fn listing_determines_map<V>(
    entries: Seq<(String, V)>,
    m1: Map<Seq<char>, V>,
    m2: Map<Seq<char>, V>,
)
    requires
        lists(entries, m1),
        lists(entries, m2),
    ensures
        m1 == m2,
{
    assert forall|k: Seq<char>| m1.contains_key(k) == m2.contains_key(k) by {
        if m1.contains_key(k) {
            let i = choose|i: int| #[trigger] key_at(entries, i, k);
            assert(m2.contains_pair(entries[i].0@, entries[i].1));
        }
        if m2.contains_key(k) {
            let i = choose|i: int| #[trigger] key_at(entries, i, k);
            assert(m1.contains_pair(entries[i].0@, entries[i].1));
        }
    }
    assert forall|k: Seq<char>| m1.contains_key(k) implies m1[k] == m2[k] by {
        let i = choose|i: int| #[trigger] key_at(entries, i, k);
        assert(m1.contains_pair(entries[i].0@, entries[i].1));
        assert(m2.contains_pair(entries[i].0@, entries[i].1));
    }
    assert(m1 =~= m2);
}

/// Putting a new key at its place in a listing binds it in the map.
pub proof fn listing_insert<V>(
    entries: Seq<(String, V)>,
    m: Map<Seq<char>, V>,
    i: int,
    key: String,
    value: V,
)
    requires
        lists(entries, m),
        0 <= i <= entries.len(),
        forall|j: int| 0 <= j < i ==> lex_lt((#[trigger] entries[j]).0@, key@),
        forall|j: int| i <= j < entries.len() ==> lex_lt(key@, (#[trigger] entries[j]).0@),
    ensures
        lists(entries.insert(i, (key, value)), m.insert(key@, value)),
{
    let after = entries.insert(i, (key, value));
    let m2 = m.insert(key@, value);
    assert forall|a: int, b: int|
        #![trigger after[a], after[b]]
        0 <= a < b < after.len() implies lex_lt(after[a].0@, after[b].0@) by {
        if a < i && b > i {
            assert(after[a] == entries[a] && after[b] == entries[b - 1]);
        } else if a < i && b < i {
            assert(after[a] == entries[a] && after[b] == entries[b]);
        } else if a > i {
            assert(after[a] == entries[a - 1] && after[b] == entries[b - 1]);
        } else if a == i {
            assert(after[b] == entries[b - 1]);
        } else {
            assert(after[a] == entries[a]);
        }
    }
    assert forall|a: int| 0 <= a < after.len() implies m2.contains_pair(
        (#[trigger] after[a]).0@,
        after[a].1,
    ) by {
        lex_lt_irreflexive(key@);
        if a < i {
            assert(after[a] == entries[a]);
        } else if a > i {
            assert(after[a] == entries[a - 1]);
        }
    }
    assert forall|k: Seq<char>| m2.contains_key(k) implies exists|a: int| #[trigger]
        key_at(after, a, k) by {
        if k == key@ {
            assert(key_at(after, i, k));
        } else {
            let j = choose|j: int| #[trigger] key_at(entries, j, k);
            if j < i {
                assert(key_at(after, j, k));
            } else {
                assert(key_at(after, j + 1, k));
            }
        }
    }
}

/// Taking an entry out of a listing unbinds its key in the map.
pub proof fn listing_remove<V>(entries: Seq<(String, V)>, m: Map<Seq<char>, V>, i: int)
    requires
        lists(entries, m),
        0 <= i < entries.len(),
    ensures
        lists(entries.remove(i), m.remove(entries[i].0@)),
{
    let after = entries.remove(i);
    let gone = entries[i].0@;
    let m2 = m.remove(gone);
    assert forall|a: int, b: int|
        #![trigger after[a], after[b]]
        0 <= a < b < after.len() implies lex_lt(after[a].0@, after[b].0@) by {
        let a0 = if a < i { a } else { a + 1 };
        let b0 = if b < i { b } else { b + 1 };
        assert(after[a] == entries[a0] && after[b] == entries[b0]);
    }
    assert forall|a: int| 0 <= a < after.len() implies m2.contains_pair(
        (#[trigger] after[a]).0@,
        after[a].1,
    ) by {
        let a0 = if a < i { a } else { a + 1 };
        assert(after[a] == entries[a0]);
        if entries[a0].0@ == gone {
            ascending_keys_differ(entries, a0, i);
        }
    }
    assert forall|k: Seq<char>| m2.contains_key(k) implies exists|a: int| #[trigger]
        key_at(after, a, k) by {
        let j = choose|j: int| #[trigger] key_at(entries, j, k);
        if j < i {
            assert(key_at(after, j, k));
        } else {
            assert(key_at(after, j - 1, k));
        }
    }
}

/// A listing is as long as its map is large.
pub proof fn listing_length<V>(entries: Seq<(String, V)>, m: Map<Seq<char>, V>)
    requires
        lists(entries, m),
    ensures
        m.dom().finite(),
        m.len() == entries.len(),
    decreases entries.len(),
{
    if entries.len() == 0 {
        assert forall|k: Seq<char>| !m.contains_key(k) by {
            if m.contains_key(k) {
                let i = choose|i: int| #[trigger] key_at(entries, i, k);
            }
        }
        assert(m.dom() =~= Set::<Seq<char>>::empty());
    } else {
        let last = entries.last();
        let rest = entries.drop_last();
        let m0 = m.remove(last.0@);
        assert forall|i: int| 0 <= i < rest.len() implies m0.contains_pair(
            (#[trigger] rest[i]).0@,
            rest[i].1,
        ) by {
            assert(rest[i] == entries[i]);
            if entries[i].0@ == last.0@ {
                ascending_keys_differ(entries, i, entries.len() - 1);
            }
        }
        assert(lists(rest, m0)) by {
            assert forall|k: Seq<char>| m0.contains_key(k) implies exists|i: int| #[trigger]
                key_at(rest, i, k) by {
                let i = choose|i: int| #[trigger] key_at(entries, i, k);
                assert(key_at(rest, i, k));
            }
            assert forall|i: int, j: int|
                #![trigger rest[i], rest[j]]
                0 <= i < j < rest.len() implies lex_lt(rest[i].0@, rest[j].0@) by {
                assert(rest[i] == entries[i] && rest[j] == entries[j]);
            }
        }
        listing_length(rest, m0);
        assert(m.contains_pair(entries[entries.len() - 1].0@, entries[entries.len() - 1].1));
        assert(m.dom() =~= m0.dom().insert(last.0@));
    }
}

/// A map has one listing only: two listings of it have the same keys with
/// the same values at the same places.
pub proof fn map_determines_listing<V>(
    a: Seq<(String, V)>,
    b: Seq<(String, V)>,
    m: Map<Seq<char>, V>,
)
    requires
        lists(a, m),
        lists(b, m),
    ensures
        a.len() == b.len(),
        forall|i: int| 0 <= i < a.len() ==> (#[trigger] a[i]).0@ == b[i].0@ && a[i].1 == b[i].1,
    decreases a.len(),
{
    listing_length(a, m);
    listing_length(b, m);
    if a.len() > 0 {
        let n = a.len() - 1;
        let ka = a[n].0@;
        let kb = b[n].0@;
        assert(m.contains_pair(a[n].0@, a[n].1));
        assert(m.contains_pair(b[n].0@, b[n].1));
        let ja = choose|j: int| #[trigger] key_at(a, j, kb);
        let jb = choose|j: int| #[trigger] key_at(b, j, ka);
        lex_lt_total(ka, kb);
        if ja < n {
            assert(lex_lt(a[ja].0@, a[n].0@));
        }
        if jb < n {
            assert(lex_lt(b[jb].0@, b[n].0@));
        }
        assert(ka == kb);
        listing_remove(a, m, n);
        listing_remove(b, m, n);
        assert(a.remove(n) =~= a.drop_last());
        assert(b.remove(n) =~= b.drop_last());
        map_determines_listing(a.drop_last(), b.drop_last(), m.remove(ka));
        assert forall|i: int| 0 <= i < a.len() implies (#[trigger] a[i]).0@ == b[i].0@ && a[i].1
            == b[i].1 by {
            if i < n {
                assert(a.drop_last()[i] == a[i]);
                assert(b.drop_last()[i] == b[i]);
            }
        }
    }
}

/// The map `base` after the first `n` entries of `all` were bound in it.
pub open spec fn taken<V>(base: Map<Seq<char>, V>, all: Seq<(String, V)>, n: int) -> Map<
    Seq<char>,
    V,
> {
    Map::new(
        |k: Seq<char>| base.contains_key(k) || exists|j: int| j < n && #[trigger] key_at(all, j, k),
        |k: Seq<char>|
            if exists|j: int| j < n && #[trigger] key_at(all, j, k) {
                all[choose|j: int| j < n && #[trigger] key_at(all, j, k)].1
            } else {
                base[k]
            },
    )
}

/// Before anything is bound the map is `base`.
pub proof fn taken_none<V>(base: Map<Seq<char>, V>, all: Seq<(String, V)>)
    ensures
        taken(base, all, 0) == base,
{
    assert(taken(base, all, 0) =~= base);
}

/// Binding the next entry is one insertion.
pub proof fn taken_next<V>(base: Map<Seq<char>, V>, all: Seq<(String, V)>, n: int)
    requires
        ascending(all),
        0 <= n < all.len(),
    ensures
        taken(base, all, n + 1) == taken(base, all, n).insert(all[n].0@, all[n].1),
        !(exists|j: int| j < n && #[trigger] key_at(all, j, all[n].0@)),
{
    let before = taken(base, all, n);
    let after = taken(base, all, n + 1);
    let key = all[n].0@;
    if exists|j: int| j < n && #[trigger] key_at(all, j, key) {
        let j = choose|j: int| j < n && #[trigger] key_at(all, j, key);
        ascending_keys_differ(all, j, n);
    }
    assert forall|k: Seq<char>| after.contains_key(k) == before.insert(key, all[n].1).contains_key(
        k,
    ) by {
        if k == key {
            assert(n < n + 1 && key_at(all, n, k));
        } else if exists|j: int| j < n + 1 && #[trigger] key_at(all, j, k) {
            let j = choose|j: int| j < n + 1 && #[trigger] key_at(all, j, k);
            assert(j < n && key_at(all, j, k));
        } else if exists|j: int| j < n && #[trigger] key_at(all, j, k) {
            let j = choose|j: int| j < n && #[trigger] key_at(all, j, k);
            assert(j < n + 1 && key_at(all, j, k));
        }
    }
    assert forall|k: Seq<char>| after.contains_key(k) implies after[k] == before.insert(
        key,
        all[n].1,
    )[k] by {
        if exists|j: int| j < n + 1 && #[trigger] key_at(all, j, k) {
            let j = choose|j: int| j < n + 1 && #[trigger] key_at(all, j, k);
            if k == key {
                ascending_keys_differ(all, j, n);
            } else {
                assert(j < n && key_at(all, j, k));
                let j0 = choose|j: int| j < n && #[trigger] key_at(all, j, k);
                ascending_keys_differ(all, j, j0);
            }
        } else {
            assert(k != key) by {
                if k == key {
                    assert(n < n + 1 && key_at(all, n, k));
                }
            }
            if exists|j: int| j < n && #[trigger] key_at(all, j, k) {
                let j = choose|j: int| j < n && #[trigger] key_at(all, j, k);
                assert(j < n + 1 && key_at(all, j, k));
            }
        }
    }
    assert(after =~= before.insert(key, all[n].1));
}

/// Once every entry of a listing is bound, its map has been laid over
/// `base`.
pub proof fn taken_all<V>(base: Map<Seq<char>, V>, all: Seq<(String, V)>, more: Map<Seq<char>, V>)
    requires
        lists(all, more),
    ensures
        taken(base, all, all.len() as int) == base.union_prefer_right(more),
{
    let n = all.len() as int;
    let got = taken(base, all, n);
    let goal = base.union_prefer_right(more);
    assert forall|k: Seq<char>| got.contains_key(k) == goal.contains_key(k) by {
        if more.contains_key(k) {
            let j = choose|j: int| #[trigger] key_at(all, j, k);
            assert(j < n && key_at(all, j, k));
        }
        if exists|j: int| j < n && #[trigger] key_at(all, j, k) {
            let j = choose|j: int| j < n && #[trigger] key_at(all, j, k);
            assert(more.contains_pair(all[j].0@, all[j].1));
        }
    }
    assert forall|k: Seq<char>| got.contains_key(k) implies got[k] == goal[k] by {
        if exists|j: int| j < n && #[trigger] key_at(all, j, k) {
            let j = choose|j: int| j < n && #[trigger] key_at(all, j, k);
            assert(more.contains_pair(all[j].0@, all[j].1));
        } else if more.contains_key(k) {
            let j = choose|j: int| #[trigger] key_at(all, j, k);
            assert(j < n && key_at(all, j, k));
        }
    }
    assert(got =~= goal);
}

/// The first entry of a listing whose key `base` binds holds the least key
/// that both bind.
pub proof fn first_shared_is_least<A, V>(
    base: Map<Seq<char>, A>,
    all: Seq<(String, V)>,
    more: Map<Seq<char>, V>,
    i: int,
)
    requires
        lists(all, more),
        0 <= i < all.len(),
        forall|j: int| 0 <= j < i ==> !base.contains_key((#[trigger] all[j]).0@),
        base.contains_key(all[i].0@),
    ensures
        is_least(shared_keys(base, more), all[i].0@),
{
    let key = all[i].0@;
    assert(more.contains_pair(all[i].0@, all[i].1));
    assert forall|o: Seq<char>| shared_keys(base, more).contains(o) implies !lex_lt(o, key) by {
        let j = choose|j: int| #[trigger] key_at(all, j, o);
        assert(!base.contains_key(all[j].0@) || j >= i);
        if j > i {
            assert(lex_lt(all[i].0@, all[j].0@));
            lex_lt_total(o, key);
        } else {
            lex_lt_irreflexive(o);
        }
    }
}

/// Where `base` binds no key of a listing, the two maps share none.
pub proof fn none_shared<A, V>(
    base: Map<Seq<char>, A>,
    all: Seq<(String, V)>,
    more: Map<Seq<char>, V>,
)
    requires
        lists(all, more),
        forall|j: int| 0 <= j < all.len() ==> !base.contains_key((#[trigger] all[j]).0@),
    ensures
        !inhabited(shared_keys(base, more)),
{
    assert forall|k: Seq<char>| !shared_keys(base, more).contains(k) by {
        if shared_keys(base, more).contains(k) {
            let j = choose|j: int| #[trigger] key_at(all, j, k);
            assert(!base.contains_key(all[j].0@));
        }
    }
}

/// The bindings among the first `n` entries of `all` whose key is in
/// `keep`.
pub open spec fn kept<V>(all: Seq<(String, V)>, n: int, keep: Set<Seq<char>>) -> Map<Seq<char>, V> {
    Map::new(
        |k: Seq<char>| keep.contains(k) && exists|j: int| j < n && #[trigger] key_at(all, j, k),
        |k: Seq<char>| all[choose|j: int| j < n && #[trigger] key_at(all, j, k)].1,
    )
}

/// Of no entries nothing is kept.
pub proof fn kept_none<V>(all: Seq<(String, V)>, keep: Set<Seq<char>>)
    ensures
        kept(all, 0, keep) == Map::<Seq<char>, V>::empty(),
{
    assert(kept(all, 0, keep) =~= Map::<Seq<char>, V>::empty());
}

/// The next entry is bound if its key is in `keep`, and left out if not.
pub proof fn kept_next<V>(all: Seq<(String, V)>, n: int, keep: Set<Seq<char>>)
    requires
        ascending(all),
        0 <= n < all.len(),
    ensures
        keep.contains(all[n].0@) ==> kept(all, n + 1, keep) == kept(all, n, keep).insert(
            all[n].0@,
            all[n].1,
        ),
        !keep.contains(all[n].0@) ==> kept(all, n + 1, keep) == kept(all, n, keep),
{
    let next = n + 1;
    let before = kept(all, n, keep);
    let after = kept(all, next, keep);
    let key = all[n].0@;
    let goal = if keep.contains(key) {
        before.insert(key, all[n].1)
    } else {
        before
    };
    assert forall|k: Seq<char>| after.contains_key(k) == goal.contains_key(k) by {
        if k == key {
            assert(n < next && key_at(all, n, k));
        }
        if exists|j: int| j < next && #[trigger] key_at(all, j, k) {
            let j = choose|j: int| j < next && #[trigger] key_at(all, j, k);
            if k != key {
                assert(j < n && key_at(all, j, k));
            }
        }
        if exists|j: int| j < n && #[trigger] key_at(all, j, k) {
            let j = choose|j: int| j < n && #[trigger] key_at(all, j, k);
            assert(j < next && key_at(all, j, k));
        }
    }
    assert forall|k: Seq<char>| after.contains_key(k) implies after[k] == goal[k] by {
        let j = choose|j: int| j < next && #[trigger] key_at(all, j, k);
        if k == key {
            ascending_keys_differ(all, j, n);
        } else {
            assert(j < n && key_at(all, j, k));
            let j0 = choose|j: int| j < n && #[trigger] key_at(all, j, k);
            ascending_keys_differ(all, j, j0);
        }
    }
    assert(after =~= goal);
}

/// Of all the entries of a listing, the map restricted to `keep` is kept.
pub proof fn kept_all<V>(all: Seq<(String, V)>, m: Map<Seq<char>, V>, keep: Set<Seq<char>>)
    requires
        lists(all, m),
    ensures
        kept(all, all.len() as int, keep) == m.restrict(keep),
{
    let n = all.len() as int;
    let got = kept(all, n, keep);
    let goal = m.restrict(keep);
    assert forall|k: Seq<char>| got.contains_key(k) == goal.contains_key(k) by {
        if m.contains_key(k) {
            let j = choose|j: int| #[trigger] key_at(all, j, k);
            assert(j < n && key_at(all, j, k));
        }
        if exists|j: int| j < n && #[trigger] key_at(all, j, k) {
            let j = choose|j: int| j < n && #[trigger] key_at(all, j, k);
            assert(m.contains_pair(all[j].0@, all[j].1));
        }
    }
    assert forall|k: Seq<char>| got.contains_key(k) implies got[k] == goal[k] by {
        let j = choose|j: int| j < n && #[trigger] key_at(all, j, k);
        assert(m.contains_pair(all[j].0@, all[j].1));
    }
    assert(got =~= goal);
}

} // verus!
