//! What each command replies and what it leaves in the store.

use vstd::prelude::*;
use vstd::utf8::encode_utf8;
use crate::backend::{hash_of, is_member, set_of, with_members, Store};
use crate::cmd::{key_of, CommandModel};
use crate::resp::model::{key_lt, keys_ascend, lemma_key_order, Value};

verus! {

/// The acknowledgment: the simple string `OK`.
pub open spec fn ok_reply() -> Value {
    Value::SimpleString("OK"@)
}

/// The pairs list the hash in the order of its fields: each pair is a field
/// of the hash with its value, the fields ascend, and no field is left out.
pub open spec fn is_listing(hash: Map<Seq<char>, Value>, pairs: Seq<(Seq<char>, Value)>) -> bool {
    &&& keys_ascend(pairs)
    &&& forall|i: int|
        0 <= i < pairs.len() ==> hash.contains_key((#[trigger] pairs[i]).0) && hash[pairs[i].0]
            == pairs[i].1
    &&& forall|field: Seq<char>| #[trigger]
        hash.contains_key(field) ==> exists|i: int|
            0 <= i < pairs.len() && (#[trigger] pairs[i]).0 == field
}

/// The fields of a hash with their values, in the order of the fields.
pub open spec fn listing(hash: Map<Seq<char>, Value>) -> Seq<(Seq<char>, Value)> {
    choose|pairs: Seq<(Seq<char>, Value)>| is_listing(hash, pairs)
}

/// The pairs as one sequence: each field as a bulk string, then its value.
pub open spec fn flattened(pairs: Seq<(Seq<char>, Value)>) -> Seq<Value> {
    Seq::new(
        2 * pairs.len(),
        |i: int|
            if i % 2 == 0 {
                Value::BulkString(Some(encode_utf8(pairs[i / 2].0)))
            } else {
                pairs[i / 2].1
            },
    )
}

/// The value of a field of a hash, null where the hash has no such field.
pub open spec fn lookup(hash: Map<Seq<char>, Value>, field: Seq<char>) -> Value {
    if hash.contains_key(field) {
        hash[field]
    } else {
        Value::Null
    }
}

/// A count as an integer frame, cut to the largest integer that a frame holds.
pub open spec fn count_reply(n: int) -> Value {
    Value::Integer(
        if n > i64::MAX {
            i64::MAX
        } else {
            n as i64
        },
    )
}

/// The frame that a command replies with, run against a store.
pub open spec fn reply_of(cmd: CommandModel, store: Store) -> Value {
    match cmd {
        CommandModel::Echo { message } => Value::BulkString(Some(encode_utf8(message))),
        CommandModel::Get { key } => if store.scalars.contains_key(key) {
            store.scalars[key]
        } else {
            Value::Null
        },
        CommandModel::SetCmd { key, value } => ok_reply(),
        CommandModel::HGet { key, field } => lookup(hash_of(store, key), field),
        CommandModel::HSet { key, field, value } => ok_reply(),
        CommandModel::HGetAll { key } => if store.hashes.contains_key(key) {
            Value::Array(flattened(listing(store.hashes[key])))
        } else {
            Value::Array(Seq::empty())
        },
        CommandModel::HMGet { key, fields } => Value::Array(
            Seq::new(fields.len(), |i: int| lookup(hash_of(store, key), fields[i])),
        ),
        CommandModel::SAdd { key, values } => count_reply(
            with_members(set_of(store, key), values).len() - set_of(store, key).len(),
        ),
        CommandModel::Sismember { key, value } => Value::Integer(
            if is_member(set_of(store, key), value) {
                1
            } else {
                0
            },
        ),
        CommandModel::SMembers { key } => Value::Array(set_of(store, key)),
        CommandModel::Unrecognized => ok_reply(),
    }
}

/// The store that a command leaves, run against a store.
pub open spec fn store_after(cmd: CommandModel, store: Store) -> Store {
    match cmd {
        CommandModel::SetCmd { key, value } => Store {
            scalars: store.scalars.insert(key, value),
            ..store
        },
        CommandModel::HSet { key, field, value } => Store {
            hashes: store.hashes.insert(key, hash_of(store, key).insert(field, value)),
            ..store
        },
        CommandModel::SAdd { key, values } => Store {
            sets: store.sets.insert(key, with_members(set_of(store, key), values)),
            ..store
        },
        _ => store,
    }
}

/// Two sequences of pairs have the same field at place `k`, or none has such a place.
pub open spec fn agree_at(a: Seq<(Seq<char>, Value)>, b: Seq<(Seq<char>, Value)>, k: int) -> bool {
    (k < a.len() <==> k < b.len()) && (k < a.len() ==> a[k].0 == b[k].0)
}

/// Two sequences of pairs have the same fields at the places before `i`,
/// and either both or none has such a place.
pub open spec fn agree_before(
    a: Seq<(Seq<char>, Value)>,
    b: Seq<(Seq<char>, Value)>,
    i: int,
) -> bool {
    forall|k: int| 0 <= k < i ==> #[trigger] agree_at(a, b, k)
}

/// Of two listings of one hash that agree before `i`, the second has a
/// place `i` if the first has, with the same field.
proof fn lemma_listing_one_way(
    hash: Map<Seq<char>, Value>,
    a: Seq<(Seq<char>, Value)>,
    b: Seq<(Seq<char>, Value)>,
    i: int,
)
    requires
        is_listing(hash, a),
        is_listing(hash, b),
        0 <= i < a.len(),
        agree_before(a, b, i),
    ensures
        i < b.len(),
        a[i].0 == b[i].0,
{
    assert(hash.contains_key(a[i].0));
    let j = choose|j: int| 0 <= j < b.len() && (#[trigger] b[j]).0 == a[i].0;
    if j < i {
        assert(agree_at(a, b, j));
        assert(a[j].0 == b[j].0);
        assert(key_lt(a[j].0, a[i].0));
        lemma_key_order(a[i].0, a[i].0, a[i].0);
    } else if j > i {
        assert(key_lt(b[i].0, b[j].0));
        assert(hash.contains_key(b[i].0));
        let m = choose|m: int| 0 <= m < a.len() && (#[trigger] a[m]).0 == b[i].0;
        if m < i {
            assert(agree_at(a, b, m));
            assert(a[m].0 == b[m].0);
            assert(key_lt(b[m].0, b[i].0));
            lemma_key_order(b[i].0, b[i].0, b[i].0);
        } else if m == i {
            lemma_key_order(a[i].0, a[i].0, a[i].0);
        } else {
            assert(key_lt(a[i].0, a[m].0));
            lemma_key_order(a[i].0, b[i].0, b[i].0);
        }
    }
}

/// Two listings of one hash agree before every place.
proof fn lemma_listing_agree(
    hash: Map<Seq<char>, Value>,
    a: Seq<(Seq<char>, Value)>,
    b: Seq<(Seq<char>, Value)>,
    i: int,
)
    requires
        is_listing(hash, a),
        is_listing(hash, b),
        0 <= i,
    ensures
        agree_before(a, b, i),
    decreases i,
{
    if i > 0 {
        lemma_listing_agree(hash, a, b, i - 1);
        assert forall|k: int| 0 <= k < i - 1 implies #[trigger] agree_at(b, a, k) by {
            assert(agree_at(a, b, k));
        }
        if i - 1 < a.len() {
            lemma_listing_one_way(hash, a, b, i - 1);
        }
        if i - 1 < b.len() {
            lemma_listing_one_way(hash, b, a, i - 1);
        }
        assert forall|k: int| 0 <= k < i implies #[trigger] agree_at(a, b, k) by {
            if k < i - 1 {
                assert(agree_at(a, b, k));
            }
        }
    }
}

/// Two listings of one hash are the same.
proof fn lemma_listing_same(
    hash: Map<Seq<char>, Value>,
    a: Seq<(Seq<char>, Value)>,
    b: Seq<(Seq<char>, Value)>,
)
    requires
        is_listing(hash, a),
        is_listing(hash, b),
    ensures
        a == b,
{
    lemma_listing_agree(hash, a, b, (a.len() + b.len() + 1) as int);
    if a.len() > 0 {
        assert(agree_at(a, b, a.len() - 1));
    }
    if b.len() > 0 {
        assert(agree_at(a, b, b.len() - 1));
    }
    assert(a.len() == b.len());
    assert forall|i: int| 0 <= i < a.len() implies #[trigger] a[i] == b[i] by {
        assert(agree_at(a, b, i));
        assert(a[i].0 == b[i].0);
        assert(hash[a[i].0] == a[i].1);
        assert(hash[b[i].0] == b[i].1);
    }
    assert(a =~= b);
}

/// A hash has one listing and no other: the order of its fields settles it.
pub proof fn lemma_listing_unique(
    hash: Map<Seq<char>, Value>,
    a: Seq<(Seq<char>, Value)>,
    b: Seq<(Seq<char>, Value)>,
)
    requires
        is_listing(hash, a),
        is_listing(hash, b),
    ensures
        a == b,
        a == listing(hash),
{
    lemma_listing_same(hash, a, b);
    lemma_listing_same(hash, a, listing(hash));
}

/// Two stores hold the same for a key, in each of the three key spaces.
pub open spec fn same_at(a: Store, b: Store, key: Seq<char>) -> bool {
    &&& a.scalars.contains_key(key) == b.scalars.contains_key(key)
    &&& a.scalars.contains_key(key) ==> a.scalars[key] == b.scalars[key]
    &&& a.hashes.contains_key(key) == b.hashes.contains_key(key)
    &&& a.hashes.contains_key(key) ==> a.hashes[key] == b.hashes[key]
    &&& a.sets.contains_key(key) == b.sets.contains_key(key)
    &&& a.sets.contains_key(key) ==> a.sets[key] == b.sets[key]
}

/// A command sees only its key: against two stores that hold the same for
/// its key it replies the same and leaves the same for its key.
pub proof fn reply_depends_on_key_only(cmd: CommandModel, a: Store, b: Store)
    requires
        key_of(cmd) is Some ==> same_at(a, b, key_of(cmd)->0),
    ensures
        reply_of(cmd, a) == reply_of(cmd, b),
        key_of(cmd) is Some ==> same_at(store_after(cmd, a), store_after(cmd, b), key_of(cmd)->0),
{
    match cmd {
        CommandModel::HMGet { key, fields } => {
            assert(hash_of(a, key) == hash_of(b, key));
        },
        _ => {},
    }
}

/// A command touches only its key: what the store holds for another key is
/// as it was.
pub proof fn other_keys_untouched(cmd: CommandModel, store: Store, other: Seq<char>)
    requires
        key_of(cmd) != Some(other),
    ensures
        same_at(store_after(cmd, store), store, other),
{
}

/// What was set is what is got, until it is set again.
pub proof fn get_after_set(store: Store, key: Seq<char>, value: Value)
    ensures
        reply_of(
            CommandModel::Get { key },
            store_after(CommandModel::SetCmd { key, value }, store),
        ) == value,
{
}

/// What was set for a field of a hash is what is got for it, and the other
/// fields of the hash are as they were.
pub proof fn hget_after_hset(
    store: Store,
    key: Seq<char>,
    field: Seq<char>,
    value: Value,
    other: Seq<char>,
)
    ensures
        reply_of(
            CommandModel::HGet { key, field },
            store_after(CommandModel::HSet { key, field, value }, store),
        ) == value,
        other != field ==> reply_of(
            CommandModel::HGet { key, field: other },
            store_after(CommandModel::HSet { key, field, value }, store),
        ) == reply_of(CommandModel::HGet { key, field: other }, store),
{
}

/// What was added to a set is a member of it afterwards.
pub proof fn member_after_sadd(store: Store, key: Seq<char>, values: Seq<Value>, i: int)
    requires
        0 <= i < values.len(),
    ensures
        reply_of(
            CommandModel::Sismember { key, value: values[i] },
            store_after(CommandModel::SAdd { key, values }, store),
        ) == Value::Integer(1),
{
    crate::backend::adding_keeps_members(set_of(store, key), values);
}

/// Reading all fields of a hash leaves the store as it is, so reading them
/// again gives the same reply; and the reply lists the fields in their
/// order, whichever way the store hands them out.
pub proof fn hgetall_settled(store: Store, key: Seq<char>, pairs: Seq<(Seq<char>, Value)>)
    requires
        store.hashes.contains_key(key),
        is_listing(store.hashes[key], pairs),
    ensures
        store_after(CommandModel::HGetAll { key }, store) == store,
        reply_of(CommandModel::HGetAll { key }, store) == Value::Array(flattened(pairs)),
        reply_of(
            CommandModel::HGetAll { key },
            store_after(CommandModel::HGetAll { key }, store),
        ) == reply_of(CommandModel::HGetAll { key }, store),
{
    lemma_listing_unique(store.hashes[key], pairs, pairs);
}

} // verus!
