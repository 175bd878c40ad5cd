//! Layers: maps under names, laid one over another by ascending name.

use crate::text::{lex_lt, lex_lt_irreflexive, lex_lt_total};
use vstd::prelude::*;

verus! {

/// Whether `k` is in `s` and nothing in `s` comes before it.
pub open spec fn is_least(s: Set<Seq<char>>, k: Seq<char>) -> bool {
    s.contains(k) && forall|o: Seq<char>| s.contains(o) ==> !lex_lt(o, k)
}

/// The text of `s` that comes first.
pub open spec fn least_of(s: Set<Seq<char>>) -> Seq<char> {
    choose|k: Seq<char>| is_least(s, k)
}

/// Whether `s` holds anything.
pub open spec fn inhabited(s: Set<Seq<char>>) -> bool {
    exists|k: Seq<char>| s.contains(k)
}

/// A set has one least text at most.
pub proof fn least_is_unique(s: Set<Seq<char>>, k: Seq<char>)
    requires
        is_least(s, k),
    ensures
        least_of(s) == k,
{
    let c = least_of(s);
    assert(is_least(s, c));
    lex_lt_total(c, k);
}

/// The keys that two maps both bind.
pub open spec fn shared_keys<A, B>(a: Map<Seq<char>, A>, b: Map<Seq<char>, B>) -> Set<Seq<char>> {
    a.dom().intersect(b.dom())
}

/// Whether the layer named `n` binds `k`.
pub open spec fn holds<V>(layers: Map<Seq<char>, Map<Seq<char>, V>>, n: Seq<char>, k: Seq<char>) -> bool {
    layers.contains_key(n) && layers[n].contains_key(k)
}

/// The keys of the layer named `n` that a layer of an earlier name binds
/// too.
pub open spec fn clash<V>(layers: Map<Seq<char>, Map<Seq<char>, V>>, n: Seq<char>) -> Set<
    Seq<char>,
> {
    Set::new(
        |k: Seq<char>|
            holds(layers, n, k) && exists|o: Seq<char>| lex_lt(o, n) && #[trigger] holds(layers, o, k),
    )
}

/// Every binding of every layer. Where no two layers bind the same key,
/// this is their union.
pub open spec fn union_all<V>(layers: Map<Seq<char>, Map<Seq<char>, V>>) -> Map<Seq<char>, V> {
    Map::new(
        |k: Seq<char>| exists|n: Seq<char>| holds(layers, n, k),
        |k: Seq<char>| layers[choose|n: Seq<char>| holds(layers, n, k)][k],
    )
}

/// Whether `names` holds the names of `layers`, each once, ascending.
pub open spec fn names_of<V>(names: Seq<Seq<char>>, layers: Map<Seq<char>, Map<Seq<char>, V>>) -> bool {
    &&& forall|i: int, j: int| 0 <= i < j < names.len() ==> lex_lt(names[i], names[j])
    &&& forall|i: int| 0 <= i < names.len() ==> layers.contains_key(#[trigger] names[i])
    &&& forall|n: Seq<char>|
        layers.contains_key(n) ==> exists|i: int| 0 <= i < names.len() && #[trigger] names[i] == n
}

/// Whether one of the first `i` layers binds `k`, the layer at `j` for one.
pub open spec fn held_before<V>(
    layers: Map<Seq<char>, Map<Seq<char>, V>>,
    names: Seq<Seq<char>>,
    i: int,
    j: int,
    k: Seq<char>,
) -> bool {
    0 <= j < i && j < names.len() && holds(layers, names[j], k)
}

/// Every binding of the first `i` layers.
pub open spec fn union_before<V>(
    layers: Map<Seq<char>, Map<Seq<char>, V>>,
    names: Seq<Seq<char>>,
    i: int,
) -> Map<Seq<char>, V> {
    Map::new(
        |k: Seq<char>| exists|j: int| held_before(layers, names, i, j, k),
        |k: Seq<char>| layers[names[choose|j: int| held_before(layers, names, i, j, k)]][k],
    )
}

/// Names that ascend stand in the order of their indices.
pub proof fn earlier_name_earlier_index(names: Seq<Seq<char>>, j: int, i: int)
    requires
        forall|a: int, b: int| 0 <= a < b < names.len() ==> lex_lt(names[a], names[b]),
        0 <= j < names.len(),
        0 <= i < names.len(),
        lex_lt(names[j], names[i]),
    ensures
        j < i,
{
    if j == i {
        lex_lt_irreflexive(names[i]);
    } else if j > i {
        assert(lex_lt(names[i], names[j]));
        lex_lt_total(names[i], names[j]);
    }
}

/// What the layer at `i` shares with the layers before it is what clashes
/// in it.
pub proof fn clash_is_shared<V>(
    layers: Map<Seq<char>, Map<Seq<char>, V>>,
    names: Seq<Seq<char>>,
    i: int,
)
    requires
        names_of(names, layers),
        0 <= i < names.len(),
    ensures
        clash(layers, names[i]) == shared_keys(union_before(layers, names, i), layers[names[i]]),
{
    let n = names[i];
    let left = clash(layers, n);
    let right = shared_keys(union_before(layers, names, i), layers[n]);
    assert forall|k: Seq<char>| left.contains(k) == right.contains(k) by {
        if left.contains(k) {
            let o = choose|o: Seq<char>| lex_lt(o, n) && #[trigger] holds(layers, o, k);
            let j = choose|j: int| 0 <= j < names.len() && #[trigger] names[j] == o;
            earlier_name_earlier_index(names, j, i);
            assert(held_before(layers, names, i, j, k));
        }
        if right.contains(k) {
            let j = choose|j: int| held_before(layers, names, i, j, k);
            assert(lex_lt(names[j], n) && holds(layers, names[j], k));
        }
    }
    assert(left =~= right);
}

/// Among layers without a clash a key is bound by one layer only.
pub proof fn one_holder<V>(
    layers: Map<Seq<char>, Map<Seq<char>, V>>,
    names: Seq<Seq<char>>,
    i: int,
    a: int,
    b: int,
    k: Seq<char>,
)
    requires
        names_of(names, layers),
        0 <= i <= names.len(),
        forall|j: int| 0 <= j < i ==> !inhabited(#[trigger] clash(layers, names[j])),
        held_before(layers, names, i, a, k),
        held_before(layers, names, i, b, k),
    ensures
        a == b,
{
    if a < b {
        assert(lex_lt(names[a], names[b]) && holds(layers, names[a], k));
        assert(clash(layers, names[b]).contains(k));
    } else if b < a {
        assert(lex_lt(names[b], names[a]) && holds(layers, names[b], k));
        assert(clash(layers, names[a]).contains(k));
    }
}

/// Laying a layer that clashes with none before it over the layers before
/// it gives the union with it.
pub proof fn union_before_next<V>(
    layers: Map<Seq<char>, Map<Seq<char>, V>>,
    names: Seq<Seq<char>>,
    i: int,
)
    requires
        names_of(names, layers),
        0 <= i < names.len(),
        forall|j: int| 0 <= j <= i ==> !inhabited(#[trigger] clash(layers, names[j])),
    ensures
        union_before(layers, names, i + 1) == union_before(layers, names, i).union_prefer_right(
            layers[names[i]],
        ),
{
    let next = i + 1;
    let before = union_before(layers, names, i);
    let after = union_before(layers, names, next);
    let goal = before.union_prefer_right(layers[names[i]]);
    assert forall|k: Seq<char>| after.contains_key(k) == goal.contains_key(k) by {
        if after.contains_key(k) {
            let j = choose|j: int| held_before(layers, names, next, j, k);
            if j < i {
                assert(held_before(layers, names, i, j, k));
            }
        }
        if before.contains_key(k) {
            let j = choose|j: int| held_before(layers, names, i, j, k);
            assert(held_before(layers, names, next, j, k));
        }
        if layers[names[i]].contains_key(k) {
            assert(held_before(layers, names, next, i, k));
        }
    }
    assert forall|k: Seq<char>| after.contains_key(k) implies after[k] == goal[k] by {
        let j = choose|j: int| held_before(layers, names, next, j, k);
        if layers[names[i]].contains_key(k) {
            assert(held_before(layers, names, next, i, k));
            one_holder(layers, names, next, j, i, k);
        } else {
            assert(held_before(layers, names, i, j, k));
            let j0 = choose|j: int| held_before(layers, names, i, j, k);
            one_holder(layers, names, i, j, j0, k);
        }
    }
    assert(after =~= goal);
}

/// Before any layer there is nothing.
pub proof fn union_before_none<V>(layers: Map<Seq<char>, Map<Seq<char>, V>>, names: Seq<Seq<char>>)
    ensures
        union_before(layers, names, 0) == Map::<Seq<char>, V>::empty(),
{
    assert(union_before(layers, names, 0) =~= Map::<Seq<char>, V>::empty());
}

/// Where no layer clashes, the layers laid over one another are their
/// union.
pub proof fn union_before_all<V>(layers: Map<Seq<char>, Map<Seq<char>, V>>, names: Seq<Seq<char>>)
    requires
        names_of(names, layers),
        forall|j: int| 0 <= j < names.len() ==> !inhabited(#[trigger] clash(layers, names[j])),
    ensures
        union_before(layers, names, names.len() as int) == union_all(layers),
{
    let n = names.len() as int;
    let got = union_before(layers, names, n);
    let goal = union_all(layers);
    assert forall|k: Seq<char>| got.contains_key(k) == goal.contains_key(k) by {
        if got.contains_key(k) {
            let j = choose|j: int| held_before(layers, names, n, j, k);
            assert(holds(layers, names[j], k));
        }
        if goal.contains_key(k) {
            let o = choose|o: Seq<char>| holds(layers, o, k);
            let j = choose|j: int| 0 <= j < names.len() && #[trigger] names[j] == o;
            assert(held_before(layers, names, n, j, k));
        }
    }
    assert forall|k: Seq<char>| got.contains_key(k) implies got[k] == goal[k] by {
        let j = choose|j: int| held_before(layers, names, n, j, k);
        let o = choose|o: Seq<char>| holds(layers, o, k);
        let j2 = choose|j: int| 0 <= j < names.len() && #[trigger] names[j] == o;
        assert(held_before(layers, names, n, j2, k));
        one_holder(layers, names, n, j, j2, k);
    }
    assert(got =~= goal);
}

} // verus!
