//! The mathematical model of a frame and of its canonical wire form.
//!
//! Bytes are written as numbers here: the markers as `marker` lists them,
//! the line terminator as 13 and 10, `-1` as 45 and 49, `t` as 116 and `f` as 102.

use vstd::prelude::*;
use vstd::utf8::{encode_utf8, encode_utf8_decode_utf8};
use crate::resp::decimal::{int_text, nat_digits};
use crate::resp::double::is_double_text;

verus! {

/// A frame as a mathematical value: what a `RespFrame` stands for.
pub enum Value {
    /// A line of text, sent with the `+` marker.
    SimpleString(Seq<char>),
    /// A line of text that reports an error, sent with the `-` marker.
    Error(Seq<char>),
    /// A signed 64-bit integer.
    Integer(i64),
    /// A byte string, or the absent bulk string.
    BulkString(Option<Seq<u8>>),
    /// A sequence of frames; the empty sequence is the absent array.
    Array(Seq<Value>),
    /// The null frame.
    Null,
    /// A boolean.
    Boolean(bool),
    /// A floating-point number, held as its decimal text.
    Double(Seq<u8>),
    /// Pairs of a text key and a frame, in ascending order of their keys.
    RespMap(Seq<(Seq<char>, Value)>),
    /// A sequence of frames sent with the set marker.
    RespSet(Seq<Value>),
}

/// The two-byte line terminator.
pub open spec fn crlf() -> Seq<u8> {
    seq![13u8, 10u8]
}

/// A line terminator starts at index `i` of `s`.
pub open spec fn crlf_at(s: Seq<u8>, i: int) -> bool {
    0 <= i && i + 1 < s.len() && s[i] == 13 && s[i + 1] == 10
}

/// The text holds no line terminator, so it can be sent as one line.
pub open spec fn line_safe(s: Seq<u8>) -> bool {
    forall|i: int| !crlf_at(s, i)
}

/// `a` comes strictly before `b` in the lexicographic order of bytes.
pub open spec fn bytes_lt(a: Seq<u8>, b: Seq<u8>) -> bool
    decreases a.len(),
{
    if b.len() == 0 {
        false
    } else if a.len() == 0 {
        true
    } else if a[0] != b[0] {
        a[0] < b[0]
    } else {
        bytes_lt(a.drop_first(), b.drop_first())
    }
}

/// `a` comes strictly before `b` in the order of text keys, which is the
/// lexicographic order of their UTF-8 bytes.
pub open spec fn key_lt(a: Seq<char>, b: Seq<char>) -> bool {
    bytes_lt(encode_utf8(a), encode_utf8(b))
}

/// No run of bytes comes before itself, and of two runs at most one comes
/// before the other.
pub proof fn lemma_bytes_lt_asymmetric(a: Seq<u8>, b: Seq<u8>)
    ensures
        !(bytes_lt(a, b) && bytes_lt(b, a)),
    decreases a.len(),
{
    if a.len() > 0 && b.len() > 0 && a[0] == b[0] {
        lemma_bytes_lt_asymmetric(a.drop_first(), b.drop_first());
    }
}

/// Of two different runs of bytes one comes before the other.
pub proof fn lemma_bytes_lt_total(a: Seq<u8>, b: Seq<u8>)
    requires
        a != b,
    ensures
        bytes_lt(a, b) || bytes_lt(b, a),
    decreases a.len(),
{
    if a.len() > 0 && b.len() > 0 && a[0] == b[0] {
        if a.drop_first() == b.drop_first() {
            assert(a =~= seq![a[0]] + a.drop_first());
            assert(b =~= seq![b[0]] + b.drop_first());
        }
        lemma_bytes_lt_total(a.drop_first(), b.drop_first());
    } else if a.len() == 0 && b.len() == 0 {
        assert(a =~= b);
    }
}

/// What comes before a run of bytes comes before all that the run comes before.
pub proof fn lemma_bytes_lt_transitive(a: Seq<u8>, b: Seq<u8>, c: Seq<u8>)
    requires
        bytes_lt(a, b),
        bytes_lt(b, c),
    ensures
        bytes_lt(a, c),
    decreases a.len(),
{
    if a.len() > 0 && b.len() > 0 && c.len() > 0 && a[0] == b[0] && b[0] == c[0] {
        lemma_bytes_lt_transitive(a.drop_first(), b.drop_first(), c.drop_first());
    }
}

/// The order of keys is a strict total order.
pub proof fn lemma_key_order(a: Seq<char>, b: Seq<char>, c: Seq<char>)
    ensures
        !(key_lt(a, b) && key_lt(b, a)),
        a != b ==> key_lt(a, b) || key_lt(b, a),
        key_lt(a, b) && key_lt(b, c) ==> key_lt(a, c),
{
    lemma_bytes_lt_asymmetric(encode_utf8(a), encode_utf8(b));
    if a != b {
        encode_utf8_decode_utf8(a);
        encode_utf8_decode_utf8(b);
        lemma_bytes_lt_total(encode_utf8(a), encode_utf8(b));
    }
    if key_lt(a, b) && key_lt(b, c) {
        lemma_bytes_lt_transitive(encode_utf8(a), encode_utf8(b), encode_utf8(c));
    }
}

/// The keys of the pairs ascend strictly, so no key occurs twice.
pub open spec fn keys_ascend(pairs: Seq<(Seq<char>, Value)>) -> bool {
    forall|i: int, j: int| 0 <= i < j < pairs.len() ==> key_lt(#[trigger] pairs[i].0, #[trigger] pairs[j].0)
}

/// The frame can be sent and read back: its lines of text hold no line
/// terminator, the text of a double is a number, and the keys of a map ascend.
pub open spec fn well_formed(v: Value) -> bool
    decreases v,
{
    match v {
        Value::SimpleString(text) => line_safe(encode_utf8(text)),
        Value::Error(text) => line_safe(encode_utf8(text)),
        Value::Integer(_) => true,
        Value::BulkString(_) => true,
        Value::Array(items) => forall|i: int|
            0 <= i < items.len() ==> well_formed(#[trigger] items[i]),
        Value::Null => true,
        Value::Boolean(_) => true,
        Value::Double(text) => line_safe(text) && is_double_text(text),
        Value::RespMap(pairs) => keys_ascend(pairs) && forall|i: int|
            0 <= i < pairs.len() ==> line_safe(encode_utf8((#[trigger] pairs[i]).0))
                && well_formed(pairs[i].1),
        Value::RespSet(items) => forall|i: int|
            0 <= i < items.len() ==> well_formed(#[trigger] items[i]),
    }
}

/// The marker byte that opens the wire form of each kind of frame.
pub open spec fn marker(v: Value) -> u8 {
    match v {
        Value::SimpleString(_) => 43,
        Value::Error(_) => 45,
        Value::Integer(_) => 58,
        Value::BulkString(_) => 36,
        Value::Array(_) => 42,
        Value::Null => 95,
        Value::Boolean(_) => 35,
        Value::Double(_) => 44,
        Value::RespMap(_) => 37,
        Value::RespSet(_) => 126,
    }
}

/// A line: a marker, a text and the line terminator.
pub open spec fn line(mark: u8, text: Seq<u8>) -> Seq<u8> {
    seq![mark] + text + crlf()
}

/// The canonical wire form of a frame.
pub open spec fn wire(v: Value) -> Seq<u8>
    decreases v,
{
    match v {
        Value::SimpleString(text) => line(43, encode_utf8(text)),
        Value::Error(text) => line(45, encode_utf8(text)),
        Value::Integer(i) => line(58, int_text(i as int)),
        Value::BulkString(None) => line(36, seq![45u8, 49u8]),
        Value::BulkString(Some(data)) => line(36, nat_digits(data.len())) + data + crlf(),
        Value::Array(items) => if items.len() == 0 {
            line(42, seq![45u8, 49u8])
        } else {
            line(42, nat_digits(items.len())) + wire_all(items)
        },
        Value::Null => line(95, Seq::empty()),
        Value::Boolean(b) => line(35, seq![if b { 116u8 } else { 102u8 }]),
        Value::Double(text) => line(44, text),
        Value::RespMap(pairs) => line(37, nat_digits(pairs.len())) + wire_pairs(pairs),
        Value::RespSet(items) => line(126, nat_digits(items.len())) + wire_all(items),
    }
}

/// The wire forms of the frames of a sequence, one after the other.
pub open spec fn wire_all(items: Seq<Value>) -> Seq<u8>
    decreases items,
{
    if items.len() == 0 {
        Seq::empty()
    } else {
        wire(items.first()) + wire_all(items.drop_first())
    }
}

/// The wire forms of the pairs of a map: each key as a simple string, then its frame.
pub open spec fn wire_pairs(pairs: Seq<(Seq<char>, Value)>) -> Seq<u8>
    decreases pairs,
{
    if pairs.len() == 0 {
        Seq::empty()
    } else {
        line(43, encode_utf8(pairs.first().0)) + wire(pairs.first().1) + wire_pairs(
            pairs.drop_first(),
        )
    }
}

/// The wire form of two sequences of frames, one behind the other, is the
/// wire form of the first and then that of the second.
pub proof fn lemma_wire_all_concat(a: Seq<Value>, b: Seq<Value>)
    ensures
        wire_all(a + b) == wire_all(a) + wire_all(b),
    decreases a.len(),
{
    if a.len() == 0 {
        assert(a + b =~= b);
        assert(wire_all(a) + wire_all(b) =~= wire_all(b));
    } else {
        lemma_wire_all_concat(a.drop_first(), b);
        assert((a + b).drop_first() =~= a.drop_first() + b);
        assert((a + b).first() == a.first());
        assert(wire_all(a + b) =~= wire_all(a) + wire_all(b));
    }
}

/// The wire form of two sequences of pairs, one behind the other, is the
/// wire form of the first and then that of the second.
pub proof fn lemma_wire_pairs_concat(a: Seq<(Seq<char>, Value)>, b: Seq<(Seq<char>, Value)>)
    ensures
        wire_pairs(a + b) == wire_pairs(a) + wire_pairs(b),
    decreases a.len(),
{
    if a.len() == 0 {
        assert(a + b =~= b);
        assert(wire_pairs(a) + wire_pairs(b) =~= wire_pairs(b));
    } else {
        lemma_wire_pairs_concat(a.drop_first(), b);
        assert((a + b).drop_first() =~= a.drop_first() + b);
        assert((a + b).first() == a.first());
        assert(wire_pairs(a + b) =~= wire_pairs(a) + wire_pairs(b));
    }
}

} // verus!
