//! Persistent maps from names to numbers: the compile-time environment (name to stack slot)
//! and the function table (name to index), both held in `im::HashMap`.
use vstd::prelude::*;

verus! {

#[verifier::external_type_specification]
#[verifier::external_body]
#[verifier::reject_recursive_types(K)]
#[verifier::reject_recursive_types(V)]
#[verifier::reject_recursive_types(S)]
pub struct ExImHashMap<K, V, S>(im::HashMap<K, V, S>);

/// A persistent map from names to numbers.
pub type NameMap = im::HashMap<String, i64>;

/// What a [`NameMap`] holds, by the characters of each name.
pub uninterp spec fn entries(m: NameMap) -> Map<Seq<char>, i64>;

/// Relies on `im::HashMap::new`: the map is empty.
#[verifier::external_body]
pub(crate) fn map_new() -> (r: NameMap)
    ensures
        entries(r).dom().is_empty(),
{
    im::HashMap::new()
}

/// Relies on `im::HashMap::get`: the value stored under a key equal to `k`, if any. `String`'s
/// `Hash` and `Eq` go by its characters.
#[verifier::external_body]
pub(crate) fn map_get(m: &NameMap, k: &String) -> (r: Option<i64>)
    ensures
        r == (if entries(*m).contains_key(k@) {
            Some(entries(*m)[k@])
        } else {
            None
        }),
{
    m.get(k).copied()
}

/// Relies on `im::HashMap::update`: a new map, `m` with `k` bound to `v`; `m` is unchanged.
#[verifier::external_body]
pub(crate) fn map_update(m: &NameMap, k: String, v: i64) -> (r: NameMap)
    ensures
        entries(r) == entries(*m).insert(k@, v),
{
    m.update(k, v)
}

} // verus!
