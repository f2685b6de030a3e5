//! The store: three key spaces that the commands read and write.

pub mod store;

use vstd::prelude::*;
use dashmap::DashMap;
use crate::backend::store::{
    hashes_entries, hashes_get, hashes_held, hashes_insert, hashes_new, lists_fields, scalars_get,
    scalars_held, scalars_insert, scalars_new, sets_get, sets_held, sets_insert, sets_new,
    sets_take,
};
use crate::resp::RespError;
use crate::resp::frame::{items_value, push_frame, RespFrame};
use crate::resp::model::{wire, Value};

verus! {

/// The store as a mathematical value.
pub struct Store {
    /// Plain keys: a frame for each.
    pub scalars: Map<Seq<char>, Value>,
    /// Hashes: for each key a frame for each field.
    pub hashes: Map<Seq<char>, Map<Seq<char>, Value>>,
    /// Sets: for each key the members in the order in which they were added.
    pub sets: Map<Seq<char>, Seq<Value>>,
}

/// The store that holds nothing.
pub open spec fn empty_store() -> Store {
    Store { scalars: Map::empty(), hashes: Map::empty(), sets: Map::empty() }
}

/// The hash of a key: its fields, none if the store has no such hash.
pub open spec fn hash_of(store: Store, key: Seq<char>) -> Map<Seq<char>, Value> {
    if store.hashes.contains_key(key) {
        store.hashes[key]
    } else {
        Map::empty()
    }
}

/// The set of a key: its members, none if the store has no such set.
pub open spec fn set_of(store: Store, key: Seq<char>) -> Seq<Value> {
    if store.sets.contains_key(key) {
        store.sets[key]
    } else {
        Seq::empty()
    }
}

/// Two frames are the same member of a set: their wire forms are the same bytes.
pub open spec fn same_member(a: Value, b: Value) -> bool {
    wire(a) == wire(b)
}

/// The value is a member of the list.
pub open spec fn is_member(list: Seq<Value>, v: Value) -> bool {
    exists|i: int| 0 <= i < list.len() && same_member(#[trigger] list[i], v)
}

/// The list with the value as a member: as it is if the value is a member
/// already, else with the value at its end.
pub open spec fn with_member(list: Seq<Value>, v: Value) -> Seq<Value> {
    if is_member(list, v) {
        list
    } else {
        list.push(v)
    }
}

/// The list with each of the values as a member, taken in their order.
pub open spec fn with_members(list: Seq<Value>, values: Seq<Value>) -> Seq<Value>
    decreases values.len(),
{
    if values.len() == 0 {
        list
    } else {
        with_members(with_member(list, values.first()), values.drop_first())
    }
}

/// Set identity: once `a` was added to a set, `b` is a member of it if and
/// only if it was a member before or its wire form is that of `a`.
pub proof fn member_after_add(list: Seq<Value>, a: Value, b: Value)
    ensures
        is_member(with_member(list, a), b) <==> is_member(list, b) || same_member(a, b),
{
    let after = with_member(list, a);
    if is_member(list, a) {
        if same_member(a, b) {
            let i = choose|i: int| 0 <= i < list.len() && same_member(#[trigger] list[i], a);
            assert(same_member(list[i], b));
        }
    } else {
        if is_member(after, b) {
            let i = choose|i: int| 0 <= i < after.len() && same_member(#[trigger] after[i], b);
            if i < list.len() {
                assert(same_member(list[i], b));
            }
        }
        if is_member(list, b) {
            let i = choose|i: int| 0 <= i < list.len() && same_member(#[trigger] list[i], b);
            assert(same_member(after[i], b));
        }
        if same_member(a, b) {
            assert(same_member(after[list.len() as int], b));
        }
    }
}

/// Set identity, counted: adding `a` and then `b` to a set that has neither
/// adds one member if the wire forms of the two are the same, and two if not.
pub proof fn two_added(list: Seq<Value>, a: Value, b: Value)
    requires
        !is_member(list, a),
        !is_member(list, b),
    ensures
        same_member(a, b) ==> with_members(list, seq![a, b]) == list.push(a),
        !same_member(a, b) ==> with_members(list, seq![a, b]) == list.push(a).push(b),
{
    let values = seq![a, b];
    member_after_add(list, a, b);
    assert(values.first() == a);
    assert(values.drop_first() =~= seq![b]);
    assert(seq![b].first() == b);
    assert(seq![b].drop_first() =~= Seq::<Value>::empty());
    assert(with_members(list, values) == with_members(with_member(list, a), seq![b]));
    assert(with_members(with_member(list, a), seq![b]) == with_members(
        with_member(with_member(list, a), b),
        Seq::empty(),
    ));
}

/// Adding again: values that are all members of a set already add nothing,
/// and leave the members and their order as they are.
pub proof fn adding_members_again(list: Seq<Value>, values: Seq<Value>)
    requires
        forall|i: int| 0 <= i < values.len() ==> is_member(list, #[trigger] values[i]),
    ensures
        with_members(list, values) == list,
    decreases values.len(),
{
    if values.len() > 0 {
        assert(is_member(list, values[0]));
        let rest = values.drop_first();
        assert forall|i: int| 0 <= i < rest.len() implies is_member(list, #[trigger] rest[i]) by {
            assert(rest[i] == values[i + 1]);
        }
        adding_members_again(list, rest);
    }
}

/// Adding twice: a value that was just added is a member, so adding it once
/// more adds nothing.
pub proof fn adding_twice(list: Seq<Value>, v: Value)
    ensures
        is_member(with_member(list, v), v),
        with_member(with_member(list, v), v) == with_member(list, v),
{
    member_after_add(list, v, v);
}

/// No two members of the list are the same member.
pub open spec fn distinct_members(list: Seq<Value>) -> bool {
    forall|i: int, j: int|
        0 <= i < j < list.len() ==> !same_member(#[trigger] list[i], #[trigger] list[j])
}

/// Adding keeps what was there: the members that a set had stay at the
/// front, in their order, and the new ones come behind them; and a set
/// that held each member once still does.
pub proof fn adding_keeps_members(list: Seq<Value>, values: Seq<Value>)
    ensures
        list.is_prefix_of(with_members(list, values)),
        with_members(list, values).len() <= list.len() + values.len(),
        distinct_members(list) ==> distinct_members(with_members(list, values)),
        forall|i: int| 0 <= i < values.len() ==> is_member(
            with_members(list, values),
            #[trigger] values[i],
        ),
    decreases values.len(),
{
    if values.len() > 0 {
        let first = values.first();
        let next = with_member(list, first);
        let rest = values.drop_first();
        adding_keeps_members(next, rest);
        let all = with_members(list, values);
        assert(list.is_prefix_of(next));
        assert(list =~= all.subrange(0, list.len() as int)) by {
            assert(next =~= all.subrange(0, next.len() as int));
        }
        if distinct_members(list) {
            assert forall|i: int, j: int| 0 <= i < j < next.len() implies !same_member(
                #[trigger] next[i],
                #[trigger] next[j],
            ) by {
                if j == list.len() {
                    assert(!is_member(list, first));
                    assert(!same_member(list[i], first));
                }
            }
        }
        adding_twice(list, first);
        assert forall|i: int| 0 <= i < values.len() implies is_member(all, #[trigger] values[i]) by {
            if i == 0 {
                let k = choose|k: int| 0 <= k < next.len() && same_member(#[trigger] next[k], first);
                assert(all[k] == next[k]) by {
                    assert(next =~= all.subrange(0, next.len() as int));
                }
                assert(same_member(all[k], values[0]));
            } else {
                assert(rest[i - 1] == values[i]);
            }
        }
    }
}

/// The store of the server.
pub struct Backend {
    map: DashMap<String, RespFrame>,
    hmap: DashMap<String, DashMap<String, RespFrame>>,
    smap: DashMap<String, Vec<RespFrame>>,
}

impl View for Backend {
    type V = Store;

    closed spec fn view(&self) -> Store {
        Store {
            scalars: scalars_held(self.map),
            hashes: hashes_held(self.hmap),
            sets: sets_held(self.smap),
        }
    }
}

/// Tells whether two runs of bytes are the same.
pub fn same_bytes(a: &[u8], b: &[u8]) -> (r: bool)
    ensures
        r == (a@ == b@),
{
    if a.len() != b.len() {
        return false;
    }
    let mut i: usize = 0;
    while i < a.len()
        invariant
            i <= a@.len(),
            a@.len() == b@.len(),
            forall|k: int| 0 <= k < i ==> a@[k] == b@[k],
        decreases a@.len() - i,
    {
        if a[i] != b[i] {
            return false;
        }
        i += 1;
    }
    assert(a@ =~= b@);
    true
}

/// Tells whether the list has a member whose wire form is `encoded`.
pub fn has_member(list: &Vec<RespFrame>, encoded: &[u8]) -> (r: bool)
    ensures
        r == exists|i: int| 0 <= i < list.len() && wire(#[trigger] items_value(*list)[i]) == encoded@,
{
    let mut i: usize = 0;
    while i < list.len()
        invariant
            i <= list.len(),
            forall|k: int| 0 <= k < i ==> wire(#[trigger] items_value(*list)[k]) != encoded@,
        decreases list.len() - i,
    {
        let mut bytes: Vec<u8> = Vec::new();
        push_frame(&list[i], &mut bytes);
        assert(bytes@ =~= wire(items_value(*list)[i as int]));
        if same_bytes(bytes.as_slice(), encoded) {
            return true;
        }
        i += 1;
    }
    false
}

impl Default for Backend {
    fn default() -> (r: Self)
        ensures
            r@ == empty_store(),
    {
        Backend::new()
    }
}

impl Backend {
    /// A store that holds nothing.
    pub fn new() -> (r: Self)
        ensures
            r@ == empty_store(),
    {
        Backend { map: scalars_new(), hmap: hashes_new(), smap: sets_new() }
    }

    /// The frame of a plain key, if the key has one.
    pub fn get(&self, key: &str) -> (r: Option<RespFrame>)
        ensures
            r is Some <==> self@.scalars.contains_key(key@),
            r is Some ==> r->0@ == self@.scalars[key@],
    {
        scalars_get(&self.map, key)
    }

    /// Gives a plain key a frame, in the place of the frame it had.
    pub fn set(&mut self, key: String, value: RespFrame)
        ensures
            final(self)@ == (Store {
                scalars: old(self)@.scalars.insert(key@, value@),
                ..old(self)@
            }),
    {
        scalars_insert(&mut self.map, key, value);
    }

    /// The frame of a field of a hash, if the store has the hash and the
    /// hash has the field.
    pub fn hget(&self, key: &str, field: String) -> (r: Option<RespFrame>)
        ensures
            r is Some <==> hash_of(self@, key@).contains_key(field@),
            r is Some ==> r->0@ == hash_of(self@, key@)[field@],
    {
        hashes_get(&self.hmap, key, field.as_str())
    }

    /// Gives a field of a hash a frame, in the place of the frame it had.
    /// The hash is made if the store has none for the key.
    pub fn hset(&mut self, key: String, field: String, value: RespFrame)
        ensures
            final(self)@ == (Store {
                hashes: old(self)@.hashes.insert(
                    key@,
                    hash_of(old(self)@, key@).insert(field@, value@),
                ),
                ..old(self)@
            }),
    {
        hashes_insert(&mut self.hmap, key, field, value);
    }

    /// The fields of a hash with their frames, each field once and in no
    /// stated order, if the store has the hash.
    pub fn hgetall(&self, key: &str) -> (r: Option<Vec<(String, RespFrame)>>)
        ensures
            r is Some <==> self@.hashes.contains_key(key@),
            r is Some ==> lists_fields(r->0, self@.hashes[key@]),
    {
        hashes_entries(&self.hmap, key)
    }

    /// The members of a set in the order in which they were added, if the
    /// store has the set.
    pub fn smembers(&self, key: &str) -> (r: Option<Vec<RespFrame>>)
        ensures
            r is Some <==> self@.sets.contains_key(key@),
            r is Some ==> items_value(r->0) == self@.sets[key@],
    {
        sets_get(&self.smap, key)
    }

    /// Adds the values to a set, each one that is no member yet at the end
    /// of the list, and returns how many were added. The set is made if the
    /// store has none for the key.
    pub fn sadd(&mut self, key: String, values: Vec<RespFrame>) -> (r: Result<usize, RespError>)
        ensures
            r is Ok,
            final(self)@ == (Store {
                sets: old(self)@.sets.insert(
                    key@,
                    with_members(set_of(old(self)@, key@), items_value(values)),
                ),
                ..old(self)@
            }),
            r->Ok_0 == with_members(set_of(old(self)@, key@), items_value(values)).len() - set_of(
                old(self)@,
                key@,
            ).len(),
    {
        let mut list: Vec<RespFrame> = match sets_take(&mut self.smap, key.as_str()) {
            Some(list) => list,
            None => Vec::new(),
        };
        let ghost before = set_of(old(self)@, key@);
        let ghost all = items_value(values);
        assert(items_value(list) =~= before);
        let mut added: usize = 0;
        let mut i: usize = 0;
        assert(all.skip(0) =~= all);
        while i < values.len()
            invariant
                i <= values.len(),
                all == items_value(values),
                added <= i,
                items_value(list).len() == before.len() + added,
                with_members(before, all) == with_members(items_value(list), all.skip(i as int)),
            decreases values.len() - i,
        {
            let mut encoded: Vec<u8> = Vec::new();
            push_frame(&values[i], &mut encoded);
            let ghost held = items_value(list);
            let ghost v = all[i as int];
            assert(encoded@ =~= wire(v));
            assert(all.skip(i as int).first() == v);
            assert(all.skip(i as int).drop_first() =~= all.skip(i + 1));
            if !has_member(&list, encoded.as_slice()) {
                assert(!is_member(held, v));
                list.push(values[i].duplicate());
                assert(items_value(list) =~= held.push(v));
                added += 1;
            } else {
                assert(is_member(held, v));
            }
            i += 1;
        }
        assert(all.skip(values.len() as int) =~= Seq::<Value>::empty());
        sets_insert(&mut self.smap, key, list);
        assert(final(self)@.sets =~= old(self)@.sets.insert(
            key@,
            with_members(before, all),
        ));
        Ok(added)
    }
}

} // verus!
