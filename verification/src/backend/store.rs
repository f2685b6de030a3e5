//! The three key spaces as they are held: concurrent maps of the `dashmap` crate.
//!
//! What each map holds is named here, and the few operations that the store
//! needs are stated over those names. None of them is proved: they are
//! taken from the source of `dashmap`, for a map that one caller has to itself.

use vstd::prelude::*;
use dashmap::DashMap;
use crate::resp::frame::{items_value, RespFrame};
use crate::resp::model::Value;

verus! {

/// `dashmap::DashMap`, taken as it is: nothing inside it is seen.
#[verifier::external_type_specification]
#[verifier::external_body]
#[verifier::reject_recursive_types(K)]
#[verifier::reject_recursive_types(V)]
#[verifier::reject_recursive_types(S)]
pub struct ExDashMap<K, V, S>(DashMap<K, V, S>);

/// The map of plain keys.
pub type Scalars = DashMap<String, RespFrame>;

/// The map of hashes.
pub type Hashes = DashMap<String, DashMap<String, RespFrame>>;

/// The map of sets.
pub type Sets = DashMap<String, Vec<RespFrame>>;

/// The value that the map holds for each key.
pub uninterp spec fn scalars_held(m: DashMap<String, RespFrame>) -> Map<Seq<char>, Value>;

/// The fields and values that the map holds for each key.
pub uninterp spec fn hashes_held(m: DashMap<String, DashMap<String, RespFrame>>) -> Map<
    Seq<char>,
    Map<Seq<char>, Value>,
>;

/// The list of members that the map holds for each key, in the order in
/// which they were added.
pub uninterp spec fn sets_held(m: DashMap<String, Vec<RespFrame>>) -> Map<Seq<char>, Seq<Value>>;

/// The map that holds nothing for any key.
pub open spec fn nothing_held<V>() -> Map<Seq<char>, V> {
    Map::empty()
}

/// No hash of any key.
pub open spec fn no_hashes() -> Map<Seq<char>, Map<Seq<char>, Value>> {
    Map::empty()
}

/// The hashes hold the field for the key.
pub open spec fn has_field(
    held: Map<Seq<char>, Map<Seq<char>, Value>>,
    key: Seq<char>,
    field: Seq<char>,
) -> bool {
    held.contains_key(key) && held[key].contains_key(field)
}

/// The hashes with one more field: the hash of the key, a new one if there
/// was none, has the value for the field.
pub open spec fn with_field(
    held: Map<Seq<char>, Map<Seq<char>, Value>>,
    key: Seq<char>,
    field: Seq<char>,
    value: Value,
) -> Map<Seq<char>, Map<Seq<char>, Value>> {
    held.insert(
        key,
        (if held.contains_key(key) {
            held[key]
        } else {
            Map::empty()
        }).insert(field, value),
    )
}

/// The entries list the fields of the hash with their values: each entry is
/// a field of the hash, no field comes twice, and no field is left out.
pub open spec fn lists_fields(entries: Vec<(String, RespFrame)>, hash: Map<Seq<char>, Value>) -> bool {
    &&& forall|i: int|
        0 <= i < entries.len() ==> hash.contains_key((#[trigger] entries[i]).0@)
            && hash[entries[i].0@] == entries[i].1@
    &&& forall|i: int, j: int|
        0 <= i < j < entries.len() ==> (#[trigger] entries[i]).0@ != (#[trigger] entries[j]).0@
    &&& forall|field: Seq<char>| #[trigger]
        hash.contains_key(field) ==> exists|i: int|
            0 <= i < entries.len() && (#[trigger] entries[i]).0@ == field
}

/// `DashMap::new`: a map that holds nothing.
#[verifier::external_body]
pub(crate) fn scalars_new() -> (m: Scalars)
    ensures
        scalars_held(m) == nothing_held::<Value>(),
{
    DashMap::new()
}

/// `DashMap::get`: a copy of the value held for `key`, if one is held.
#[verifier::external_body]
pub(crate) fn scalars_get(m: &Scalars, key: &str) -> (r: Option<RespFrame>)
    ensures
        r is Some <==> scalars_held(*m).contains_key(key@),
        r is Some ==> r->0@ == scalars_held(*m)[key@],
{
    m.get(key).map(|held| held.value().clone())
}

/// `DashMap::insert`: the map holds `value` for `key`, in the place of what
/// it held for that key before, and all else as before.
#[verifier::external_body]
pub(crate) fn scalars_insert(m: &mut Scalars, key: String, value: RespFrame)
    ensures
        scalars_held(*final(m)) == scalars_held(*old(m)).insert(key@, value@),
{
    m.insert(key, value);
}

/// `DashMap::new`: a map that holds nothing.
#[verifier::external_body]
pub(crate) fn hashes_new() -> (m: Hashes)
    ensures
        hashes_held(m) == no_hashes(),
{
    DashMap::new()
}

/// `DashMap::get` on the map and on the hash held for `key`: a copy of the
/// value held for `field` there, if the key and the field are held.
#[verifier::external_body]
pub(crate) fn hashes_get(m: &Hashes, key: &str, field: &str) -> (r: Option<RespFrame>)
    ensures
        r is Some <==> has_field(hashes_held(*m), key@, field@),
        r is Some ==> r->0@ == hashes_held(*m)[key@][field@],
{
    m.get(key).and_then(|hash| hash.get(field).map(|held| held.value().clone()))
}

/// `DashMap::entry` with `or_default`, then `DashMap::insert` on the hash:
/// the hash held for `key`, a new one if none was held, holds `value` for
/// `field`; all else is as before.
#[verifier::external_body]
pub(crate) fn hashes_insert(m: &mut Hashes, key: String, field: String, value: RespFrame)
    ensures
        hashes_held(*final(m)) == with_field(hashes_held(*old(m)), key@, field@, value@),
{
    let hash = m.entry(key).or_default();
    hash.insert(field, value);
}

/// `DashMap::get`, then `DashMap::iter` on the hash held for `key`: a copy
/// of each field and its value, each field once, in no stated order.
#[verifier::external_body]
pub(crate) fn hashes_entries(m: &Hashes, key: &str) -> (r: Option<Vec<(String, RespFrame)>>)
    ensures
        r is Some <==> hashes_held(*m).contains_key(key@),
        r is Some ==> lists_fields(r->0, hashes_held(*m)[key@]),
{
    m.get(key).map(
        |hash| hash.iter().map(|held| (held.key().clone(), held.value().clone())).collect(),
    )
}

/// `DashMap::new`: a map that holds nothing.
#[verifier::external_body]
pub(crate) fn sets_new() -> (m: Sets)
    ensures
        sets_held(m) == nothing_held::<Seq<Value>>(),
{
    DashMap::new()
}

/// `DashMap::get`: a copy of the list held for `key`, if one is held.
#[verifier::external_body]
pub(crate) fn sets_get(m: &Sets, key: &str) -> (r: Option<Vec<RespFrame>>)
    ensures
        r is Some <==> sets_held(*m).contains_key(key@),
        r is Some ==> items_value(r->0) == sets_held(*m)[key@],
{
    m.get(key).map(|held| held.value().clone())
}

/// `DashMap::remove`: the list held for `key`, if one is held; the map holds
/// none for that key afterwards, and all else as before.
#[verifier::external_body]
pub(crate) fn sets_take(m: &mut Sets, key: &str) -> (r: Option<Vec<RespFrame>>)
    ensures
        r is Some <==> sets_held(*old(m)).contains_key(key@),
        r is Some ==> items_value(r->0) == sets_held(*old(m))[key@],
        sets_held(*final(m)) == sets_held(*old(m)).remove(key@),
{
    m.remove(key).map(|held| held.1)
}

/// `DashMap::insert`: the map holds `list` for `key`, in the place of what
/// it held for that key before, and all else as before.
#[verifier::external_body]
pub(crate) fn sets_insert(m: &mut Sets, key: String, list: Vec<RespFrame>)
    ensures
        sets_held(*final(m)) == sets_held(*old(m)).insert(key@, items_value(list)),
{
    m.insert(key, list);
}

} // verus!
