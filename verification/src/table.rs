//! Variables: a table of structured values, kept as `toml` holds them.

use crate::listing::lists;
use vstd::prelude::*;

verus! {

/// A structured value of a variable. The library carries such values and
/// never looks inside them.
#[verifier::external_type_specification]
#[verifier::external_body]
pub struct ExValue(toml::Value);

/// The table type of `toml`.
#[verifier::external_type_specification]
#[verifier::external_body]
#[verifier::reject_recursive_types(K)]
#[verifier::reject_recursive_types(V)]
pub struct ExTable<K, V>(toml::map::Map<K, V>);

/// The variables of a package or of a configuration, by name.
pub type Variables = toml::map::Map<String, toml::Value>;

/// What a table holds: the value bound to each name.
pub uninterp spec fn table_pairs(t: toml::map::Map<String, toml::Value>) -> Map<
    Seq<char>,
    toml::Value,
>;

/// The content of a table that holds nothing.
pub open spec fn no_pairs() -> Map<Seq<char>, toml::Value> {
    Map::empty()
}

/// `toml::map::Map::new`: a table that holds nothing.
#[verifier::external_body]
pub(crate) fn table_new() -> (t: Variables)
    ensures
        table_pairs(t) == no_pairs(),
{
    toml::map::Map::new()
}

/// `Clone::clone` of `toml::map::Map`: a table with the same bindings.
pub assume_specification[ <toml::map::Map<String, toml::Value> as Clone>::clone ](
    t: &toml::map::Map<String, toml::Value>,
) -> (out: toml::map::Map<String, toml::Value>)
    ensures
        table_pairs(out) == table_pairs(*t),
;

/// `toml::map::Map::contains_key`: whether the table binds `name`.
#[verifier::external_body]
pub(crate) fn table_contains_key(t: &Variables, name: &str) -> (b: bool)
    ensures
        b == table_pairs(*t).contains_key(name@),
{
    t.contains_key(name)
}

/// `toml::map::Map::insert`: binds `name` to `value`, replacing what the
/// name was bound to, and hands the replaced value back.
#[verifier::external_body]
pub(crate) fn table_insert(t: &mut Variables, name: String, value: toml::Value) -> (prev: Option<
    toml::Value,
>)
    ensures
        table_pairs(*final(t)) == table_pairs(*old(t)).insert(name@, value),
        match prev {
            Some(v) => table_pairs(*old(t)).contains_pair(name@, v),
            None => !table_pairs(*old(t)).contains_key(name@),
        },
{
    t.insert(name, value)
}

/// `Extend::extend` of `toml::map::Map`: every binding of `other` is
/// inserted, so that where both tables bind a name the value of `other`
/// stands.
#[verifier::external_body]
pub(crate) fn table_extend(t: &mut Variables, other: Variables)
    ensures
        table_pairs(*final(t)) == table_pairs(*old(t)).union_prefer_right(table_pairs(other)),
{
    t.extend(other)
}

/// `IntoIterator::into_iter` of `toml::map::Map`: the bindings of the table,
/// each once, by ascending name (the table is a `BTreeMap` keyed by
/// `String`, whose order is the lexicographic order by code point).
#[verifier::external_body]
pub(crate) fn table_into_entries(t: Variables) -> (entries: Vec<(String, toml::Value)>)
    ensures
        lists(entries@, table_pairs(t)),
{
    t.into_iter().collect()
}

} // verus!
