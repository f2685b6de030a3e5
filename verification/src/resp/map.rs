//! The map frame: pairs of a text key and a frame, kept in the order of their keys.

use vstd::prelude::*;
use vstd::string::StringSliceAdditionalSpecFns;
use bytes::BytesMut;
use crate::resp::{RespDecode, RespEncode, RespError};
use crate::resp::buffer::{buffer_advance, buffer_bytes};
use crate::resp::frame::{duplicate_pairs, pairs_value, push_map, RespFrame};
use crate::resp::grammar::{aggregate_length, decode_map, insert_pair, Failure};
use crate::resp::model::{bytes_lt, key_lt, keys_ascend, lemma_key_order, Value};
use crate::respv2::parser::map_len;

verus! {

/// Pairs of a key and a frame. In a well-formed map each key occurs once and
/// the pairs stand in ascending order of their keys; `insert` keeps it so.
#[derive(Debug, PartialEq)]
pub struct RespMap(pub Vec<(String, RespFrame)>);

impl View for RespMap {
    type V = Seq<(Seq<char>, Value)>;

    open spec fn view(&self) -> Seq<(Seq<char>, Value)> {
        pairs_value(self.0)
    }
}

/// Tells whether `a` comes strictly before `b` in the lexicographic order of bytes.
pub fn bytes_less(a: &[u8], b: &[u8]) -> (r: bool)
    ensures
        r == bytes_lt(a@, b@),
{
    let mut i: usize = 0;
    assert(a@.skip(0) =~= a@ && b@.skip(0) =~= b@);
    while i < a.len() && i < b.len()
        invariant
            i <= a@.len(),
            i <= b@.len(),
            bytes_lt(a@, b@) == bytes_lt(a@.skip(i as int), b@.skip(i as int)),
        decreases a@.len() - i,
    {
        assert(a@.skip(i as int)[0] == a@[i as int]);
        assert(b@.skip(i as int)[0] == b@[i as int]);
        if a[i] != b[i] {
            return a[i] < b[i];
        }
        assert(a@.skip(i as int).drop_first() =~= a@.skip(i + 1));
        assert(b@.skip(i as int).drop_first() =~= b@.skip(i + 1));
        i += 1;
    }
    i < b.len()
}

/// Where a key goes among pairs: behind the `at` pairs whose keys come
/// before it, in the place of a pair with that key or else before the next pair.
pub proof fn lemma_insert_pair_at(
    pairs: Seq<(Seq<char>, Value)>,
    key: Seq<char>,
    value: Value,
    at: int,
)
    requires
        0 <= at <= pairs.len(),
        forall|k: int| 0 <= k < at ==> key_lt(#[trigger] pairs[k].0, key),
        at < pairs.len() ==> !key_lt(pairs[at].0, key),
    ensures
        insert_pair(pairs, key, value) == if at < pairs.len() && pairs[at].0 == key {
            pairs.update(at, (key, value))
        } else {
            pairs.insert(at, (key, value))
        },
    decreases at,
{
    if at == 0 {
        if pairs.len() == 0 {
            assert(pairs.insert(0, (key, value)) =~= seq![(key, value)]);
        } else if pairs[0].0 == key {
            assert(pairs.update(0, (key, value)) =~= seq![(key, value)] + pairs.drop_first());
        } else {
            assert(pairs.insert(0, (key, value)) =~= seq![(key, value)] + pairs);
        }
    } else {
        let rest = pairs.drop_first();
        assert(key_lt(pairs[0].0, key));
        assert forall|k: int| 0 <= k < at - 1 implies key_lt(#[trigger] rest[k].0, key) by {
            assert(rest[k] == pairs[k + 1]);
        }
        lemma_insert_pair_at(rest, key, value, at - 1);
        if at < pairs.len() && pairs[at].0 == key {
            assert(seq![pairs[0]] + rest.update(at - 1, (key, value)) =~= pairs.update(
                at,
                (key, value),
            ));
        } else {
            assert(seq![pairs[0]] + rest.insert(at - 1, (key, value)) =~= pairs.insert(
                at,
                (key, value),
            ));
        }
    }
}

/// The number of pairs, from the first on, whose keys come before `key`.
pub open spec fn insert_place(pairs: Seq<(Seq<char>, Value)>, key: Seq<char>) -> int
    decreases pairs.len(),
{
    if pairs.len() > 0 && key_lt(pairs[0].0, key) {
        1 + insert_place(pairs.drop_first(), key)
    } else {
        0
    }
}

/// The place of a key lies among the pairs, behind the keys that come
/// before it and at a key that does not.
pub proof fn lemma_insert_place(pairs: Seq<(Seq<char>, Value)>, key: Seq<char>)
    ensures
        0 <= insert_place(pairs, key) <= pairs.len(),
        forall|k: int| 0 <= k < insert_place(pairs, key) ==> key_lt(#[trigger] pairs[k].0, key),
        insert_place(pairs, key) < pairs.len() ==> !key_lt(pairs[insert_place(pairs, key)].0, key),
    decreases pairs.len(),
{
    if pairs.len() > 0 && key_lt(pairs[0].0, key) {
        let rest = pairs.drop_first();
        lemma_insert_place(rest, key);
        assert forall|k: int| 0 <= k < insert_place(pairs, key) implies key_lt(
            #[trigger] pairs[k].0,
            key,
        ) by {
            if k > 0 {
                assert(pairs[k] == rest[k - 1]);
            }
        }
        if insert_place(pairs, key) < pairs.len() {
            assert(pairs[insert_place(pairs, key)] == rest[insert_place(rest, key)]);
        }
    }
}

/// The pair is the new pair, or an old pair with another key.
pub open spec fn kept(
    pairs: Seq<(Seq<char>, Value)>,
    key: Seq<char>,
    value: Value,
    p: (Seq<char>, Value),
) -> bool {
    p == (key, value) || (pairs.contains(p) && p.0 != key)
}

/// Putting a pair into pairs whose keys ascend leaves keys that ascend, and
/// leaves the new pair and each old pair with another key, and no other.
pub proof fn lemma_insert_pair_keeps(pairs: Seq<(Seq<char>, Value)>, key: Seq<char>, value: Value)
    requires
        keys_ascend(pairs),
    ensures
        keys_ascend(insert_pair(pairs, key, value)),
        forall|p: (Seq<char>, Value)| #[trigger]
            insert_pair(pairs, key, value).contains(p) <==> kept(pairs, key, value, p),
{
    let at = insert_place(pairs, key);
    let r = insert_pair(pairs, key, value);
    lemma_insert_place(pairs, key);
    lemma_insert_pair_at(pairs, key, value, at);
    if at < pairs.len() && pairs[at].0 == key {
        assert(r == pairs.update(at, (key, value)));
        assert forall|i: int, j: int| 0 <= i < j < r.len() implies key_lt(
            #[trigger] r[i].0,
            #[trigger] r[j].0,
        ) by {
            assert(r[i].0 == pairs[i].0 && r[j].0 == pairs[j].0);
        }
        assert forall|p: (Seq<char>, Value)| #[trigger] r.contains(p) <==> kept(
            pairs,
            key,
            value,
            p,
        ) by {
            if r.contains(p) {
                let i = choose|i: int| 0 <= i < r.len() && r[i] == p;
                if i != at {
                    assert(pairs[i] == p);
                    if i < at {
                        assert(key_lt(pairs[i].0, pairs[at].0));
                    } else {
                        assert(key_lt(pairs[at].0, pairs[i].0));
                    }
                    lemma_key_order(pairs[i].0, key, key);
                }
            }
            if p == (key, value) {
                assert(r[at] == p);
            }
            if pairs.contains(p) && p.0 != key {
                let i = choose|i: int| 0 <= i < pairs.len() && pairs[i] == p;
                assert(r[i] == p);
            }
        }
    } else {
        assert(r == pairs.insert(at, (key, value)));
        assert forall|j: int| at <= j < pairs.len() implies key_lt(key, #[trigger] pairs[j].0) by {
            lemma_key_order(key, pairs[at].0, pairs[j].0);
            if j > at {
                assert(key_lt(pairs[at].0, pairs[j].0));
            }
        }
        assert forall|i: int, j: int| 0 <= i < j < r.len() implies key_lt(
            #[trigger] r[i].0,
            #[trigger] r[j].0,
        ) by {
            if j < at {
                assert(r[i] == pairs[i] && r[j] == pairs[j]);
            } else if j == at {
                assert(r[i] == pairs[i]);
            } else if i < at {
                assert(r[i] == pairs[i] && r[j] == pairs[j - 1]);
            } else if i == at {
                assert(r[j] == pairs[j - 1]);
            } else {
                assert(r[i] == pairs[i - 1] && r[j] == pairs[j - 1]);
            }
        }
        assert forall|p: (Seq<char>, Value)| #[trigger] r.contains(p) <==> kept(
            pairs,
            key,
            value,
            p,
        ) by {
            if r.contains(p) {
                let i = choose|i: int| 0 <= i < r.len() && r[i] == p;
                if i < at {
                    assert(pairs[i] == p);
                    lemma_key_order(pairs[i].0, key, key);
                } else if i > at {
                    assert(pairs[i - 1] == p);
                    assert(key_lt(key, pairs[i - 1].0));
                    lemma_key_order(pairs[i - 1].0, key, key);
                }
            }
            if p == (key, value) {
                assert(r[at] == p);
            }
            if pairs.contains(p) && p.0 != key {
                let i = choose|i: int| 0 <= i < pairs.len() && pairs[i] == p;
                if i < at {
                    assert(r[i] == p);
                } else {
                    assert(r[i + 1] == p);
                }
            }
        }
    }
}

impl RespMap {
    /// The map of no pairs.
    pub fn new() -> (r: Self)
        ensures
            r@ == Seq::<(Seq<char>, Value)>::empty(),
    {
        let r = RespMap(Vec::new());
        assert(r@ =~= Seq::<(Seq<char>, Value)>::empty());
        r
    }

    /// The number of pairs.
    pub fn len(&self) -> (n: usize)
        ensures
            n == self@.len(),
    {
        self.0.len()
    }

    /// Puts the pair of `key` and `value` into the map: in the place of the
    /// pair with that key if there is one, else before the first pair whose
    /// key is greater.
    pub fn insert(&mut self, key: String, value: RespFrame)
        ensures
            final(self)@ == insert_pair(old(self)@, key@, value@),
            keys_ascend(old(self)@) ==> keys_ascend(final(self)@),
    {
        let ghost before = self@;
        proof {
            if keys_ascend(before) {
                lemma_insert_pair_keeps(before, key@, value@);
            }
        }
        let mut at: usize = 0;
        while at < self.0.len() && bytes_less(self.0[at].0.as_str().as_bytes(), key.as_str().as_bytes())
            invariant
                at <= self.0.len(),
                self@ == before,
                forall|k: int| 0 <= k < at ==> key_lt(#[trigger] before[k].0, key@),
            decreases self.0.len() - at,
        {
            at += 1;
        }
        proof {
            lemma_insert_pair_at(before, key@, value@, at as int);
        }
        if at < self.0.len() && self.0[at].0 == key {
            let _ = self.0.remove(at);
            self.0.insert(at, (key, value));
            assert(self@ =~= before.update(at as int, (key@, value@)));
        } else {
            self.0.insert(at, (key, value));
            assert(self@ =~= before.insert(at as int, (key@, value@)));
        }
    }
}

impl Clone for RespMap {
    fn clone(&self) -> (r: Self)
        ensures
            r@ == self@,
    {
        RespMap(duplicate_pairs(&self.0))
    }
}

impl RespEncode for RespMap {
    open spec fn value(&self) -> Value {
        Value::RespMap(self@)
    }

    fn encode(self) -> (out: Vec<u8>) {
        let mut out: Vec<u8> = Vec::new();
        push_map(&self.0, &mut out);
        out
    }
}

impl RespDecode for RespMap {
    const PREFIX: &'static str = "%";

    open spec fn grammar(bytes: Seq<u8>) -> Result<(Self::V, nat), Failure> {
        decode_map(bytes)
    }

    open spec fn length_grammar(bytes: Seq<u8>) -> Result<nat, Failure> {
        aggregate_length(bytes, 37)
    }

    fn decode(buf: &mut BytesMut) -> (r: Result<Self, RespError>) {
        let (value, n) = match crate::respv2::parser::map(buffer_bytes(buf)) {
            Ok(read) => read,
            Err(e) => {
                return Err(e);
            },
        };
        buffer_advance(buf, n);
        Ok(value)
    }

    fn expect_length(buf: &[u8]) -> (r: Result<usize, RespError>) {
        map_len(buf)
    }
}

} // verus!
