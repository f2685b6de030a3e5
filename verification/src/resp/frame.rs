//! The frame: one self-describing unit of the wire protocol.

use vstd::prelude::*;
use vstd::slice::slice_to_vec;
use vstd::string::{StringExecFns, StringSliceAdditionalSpecFns};
use bytes::BytesMut;
use crate::resp::{RespDecode, RespEncode, RespError};
use crate::resp::array::RespArray;
use crate::resp::buffer::{buffer_advance, buffer_bytes};
use crate::resp::bulk_string::BulkString;
use crate::resp::decimal::{push_digits, push_i64};
use crate::resp::double::RespDouble;
use crate::resp::grammar::{decode_frame, frame_length, Failure};
use crate::resp::map::RespMap;
use crate::resp::model::{
    crlf, lemma_wire_all_concat, lemma_wire_pairs_concat, line, wire, wire_all, wire_pairs, Value,
};
use crate::resp::null::RespNull;
use crate::resp::set::RespSet;
use crate::resp::simple_error::SimpleError;
use crate::resp::simple_string::SimpleString;
use crate::respv2::parser::{parse_frame, parse_frame_length};

verus! {

/// A frame, one variant for each kind that the wire knows.
#[derive(Debug, PartialEq)]
pub enum RespFrame {
    SimpleString(SimpleString),
    Error(SimpleError),
    Integer(i64),
    BulkString(BulkString),
    Array(RespArray),
    Null(RespNull),
    Boolean(bool),
    Double(RespDouble),
    RespMap(RespMap),
    RespSet(RespSet),
}

/// The value that a frame stands for.
pub open spec fn frame_value(f: RespFrame) -> Value
    decreases f,
{
    match f {
        RespFrame::SimpleString(s) => Value::SimpleString(s.0@),
        RespFrame::Error(s) => Value::Error(s.0@),
        RespFrame::Integer(i) => Value::Integer(i),
        RespFrame::BulkString(b) => Value::BulkString(
            match b.0 {
                Some(data) => Some(data@),
                None => None,
            },
        ),
        RespFrame::Array(a) => Value::Array(items_value(a.0)),
        RespFrame::Null(_) => Value::Null,
        RespFrame::Boolean(b) => Value::Boolean(b),
        RespFrame::Double(d) => Value::Double(d.0@),
        RespFrame::RespMap(m) => Value::RespMap(pairs_value(m.0)),
        RespFrame::RespSet(s) => Value::RespSet(items_value(s.0)),
    }
}

/// The values that the frames of a vector stand for, in order.
pub open spec fn items_value(items: Vec<RespFrame>) -> Seq<Value>
    decreases items,
{
    Seq::new(
        items.len() as nat,
        |i: int|
            if 0 <= i < items.len() {
                frame_value(items[i])
            } else {
                Value::Null
            },
    )
}

/// The keys and values that the pairs of a vector stand for, in order.
pub open spec fn pairs_value(pairs: Vec<(String, RespFrame)>) -> Seq<(Seq<char>, Value)>
    decreases pairs,
{
    Seq::new(
        pairs.len() as nat,
        |i: int|
            if 0 <= i < pairs.len() {
                (pairs[i].0@, frame_value(pairs[i].1))
            } else {
                (Seq::empty(), Value::Null)
            },
    )
}

impl View for RespFrame {
    type V = Value;

    open spec fn view(&self) -> Value {
        frame_value(*self)
    }
}

/// A copy of each frame of a vector, in order.
pub fn duplicate_items(items: &Vec<RespFrame>) -> (r: Vec<RespFrame>)
    ensures
        items_value(r) == items_value(*items),
    decreases items,
{
    let mut out: Vec<RespFrame> = Vec::new();
    let mut i: usize = 0;
    while i < items.len()
        invariant
            i <= items.len(),
            out.len() == i,
            forall|k: int| 0 <= k < i ==> frame_value(#[trigger] out[k]) == frame_value(items[k]),
        decreases items.len() - i,
    {
        out.push(items[i].duplicate());
        i += 1;
    }
    assert(items_value(out) =~= items_value(*items));
    out
}

/// A copy of each pair of a vector, in order.
pub fn duplicate_pairs(pairs: &Vec<(String, RespFrame)>) -> (r: Vec<(String, RespFrame)>)
    ensures
        pairs_value(r) == pairs_value(*pairs),
    decreases pairs,
{
    let mut out: Vec<(String, RespFrame)> = Vec::new();
    let mut i: usize = 0;
    while i < pairs.len()
        invariant
            i <= pairs.len(),
            out.len() == i,
            forall|k: int|
                0 <= k < i ==> (#[trigger] out[k]).0@ == pairs[k].0@ && frame_value(out[k].1)
                    == frame_value(pairs[k].1),
        decreases pairs.len() - i,
    {
        let key = pairs[i].0.clone();
        let value = pairs[i].1.duplicate();
        out.push((key, value));
        i += 1;
    }
    assert(pairs_value(out) =~= pairs_value(*pairs));
    out
}

impl RespFrame {
    /// A copy of the frame: it stands for the same value.
    pub fn duplicate(&self) -> (r: RespFrame)
        ensures
            r@ == self@,
        decreases self,
    {
        match self {
            RespFrame::SimpleString(s) => RespFrame::SimpleString(SimpleString(s.0.clone())),
            RespFrame::Error(s) => RespFrame::Error(SimpleError(s.0.clone())),
            RespFrame::Integer(i) => RespFrame::Integer(*i),
            RespFrame::BulkString(b) => match &b.0 {
                Some(data) => RespFrame::BulkString(BulkString(Some(data.clone()))),
                None => RespFrame::BulkString(BulkString(None)),
            },
            RespFrame::Array(a) => RespFrame::Array(RespArray(duplicate_items(&a.0))),
            RespFrame::Null(_) => RespFrame::Null(RespNull),
            RespFrame::Boolean(b) => RespFrame::Boolean(*b),
            RespFrame::Double(d) => RespFrame::Double(RespDouble(d.0.clone())),
            RespFrame::RespMap(m) => RespFrame::RespMap(RespMap(duplicate_pairs(&m.0))),
            RespFrame::RespSet(s) => RespFrame::RespSet(RespSet(duplicate_items(&s.0))),
        }
    }
}

/// Appends the bytes of `bytes` to `out`.
pub fn push_bytes(bytes: &[u8], out: &mut Vec<u8>)
    ensures
        final(out)@ == old(out)@ + bytes@,
{
    let mut i: usize = 0;
    while i < bytes.len()
        invariant
            i <= bytes@.len(),
            out@ == old(out)@ + bytes@.take(i as int),
        decreases bytes@.len() - i,
    {
        out.push(bytes[i]);
        assert(out@ =~= old(out)@ + bytes@.take(i + 1));
        i += 1;
    }
    assert(bytes@.take(bytes@.len() as int) =~= bytes@);
}

/// Appends the line terminator to `out`.
pub fn push_crlf(out: &mut Vec<u8>)
    ensures
        final(out)@ == old(out)@ + crlf(),
{
    out.push(13u8);
    out.push(10u8);
    assert(out@ =~= old(out)@ + crlf());
}

/// Appends a line to `out`: the marker, the text and the line terminator.
pub fn push_line(mark: u8, text: &[u8], out: &mut Vec<u8>)
    ensures
        final(out)@ == old(out)@ + line(mark, text@),
{
    out.push(mark);
    push_bytes(text, out);
    push_crlf(out);
    assert(out@ =~= old(out)@ + line(mark, text@));
}

/// Appends a header line to `out`: the marker, the length and the line terminator.
pub fn push_header(mark: u8, len: usize, out: &mut Vec<u8>)
    ensures
        final(out)@ == old(out)@ + line(mark, crate::resp::decimal::nat_digits(len as nat)),
{
    out.push(mark);
    push_digits(len as u64, out);
    push_crlf(out);
    assert(out@ =~= old(out)@ + line(mark, crate::resp::decimal::nat_digits(len as nat)));
}

/// Appends the wire form of a bulk string to `out`.
pub fn push_bulk(b: &BulkString, out: &mut Vec<u8>)
    ensures
        final(out)@ == old(out)@ + wire(Value::BulkString(b@)),
{
    match &b.0 {
        None => {
            let absent: [u8; 2] = [45u8, 49u8];
            assert(absent@ =~= seq![45u8, 49u8]);
            push_line(36u8, absent.as_slice(), out);
        },
        Some(data) => {
            push_header(36u8, data.len(), out);
            push_bytes(data.as_slice(), out);
            push_crlf(out);
            assert(out@ =~= old(out)@ + wire(Value::BulkString(b@)));
        },
    }
}

/// Appends the wire forms of the frames of `items` to `out`, in order.
pub fn push_items(items: &Vec<RespFrame>, out: &mut Vec<u8>)
    ensures
        final(out)@ == old(out)@ + wire_all(items_value(*items)),
    decreases items, 0nat,
{
    let ghost values = items_value(*items);
    let mut i: usize = 0;
    assert(old(out)@ + wire_all(values.take(0)) =~= old(out)@);
    while i < items.len()
        invariant
            i <= items.len(),
            values == items_value(*items),
            out@ == old(out)@ + wire_all(values.take(i as int)),
        decreases items.len() - i,
    {
        let ghost before = out@;
        push_frame(&items[i], out);
        proof {
            lemma_wire_all_concat(values.take(i as int), seq![values[i as int]]);
            assert(values.take(i + 1) =~= values.take(i as int) + seq![values[i as int]]);
            assert(seq![values[i as int]].drop_first() =~= Seq::<Value>::empty());
            assert(wire_all(Seq::<Value>::empty()) =~= Seq::<u8>::empty());
            assert(wire_all(seq![values[i as int]]) =~= wire(values[i as int]));
            assert(out@ =~= old(out)@ + wire_all(values.take(i + 1)));
        }
        i += 1;
    }
    assert(values.take(items.len() as int) =~= values);
}

/// Appends the wire forms of the pairs of `pairs` to `out`, in order.
pub fn push_pairs(pairs: &Vec<(String, RespFrame)>, out: &mut Vec<u8>)
    ensures
        final(out)@ == old(out)@ + wire_pairs(pairs_value(*pairs)),
    decreases pairs, 0nat,
{
    let ghost values = pairs_value(*pairs);
    let mut i: usize = 0;
    assert(old(out)@ + wire_pairs(values.take(0)) =~= old(out)@);
    while i < pairs.len()
        invariant
            i <= pairs.len(),
            values == pairs_value(*pairs),
            out@ == old(out)@ + wire_pairs(values.take(i as int)),
        decreases pairs.len() - i,
    {
        let ghost before = out@;
        push_line(43u8, pairs[i].0.as_str().as_bytes(), out);
        push_frame(&pairs[i].1, out);
        proof {
            lemma_wire_pairs_concat(values.take(i as int), seq![values[i as int]]);
            assert(values.take(i + 1) =~= values.take(i as int) + seq![values[i as int]]);
            assert(seq![values[i as int]].drop_first() =~= Seq::<(Seq<char>, Value)>::empty());
            assert(wire_pairs(Seq::<(Seq<char>, Value)>::empty()) =~= Seq::<u8>::empty());
            assert(wire_pairs(seq![values[i as int]]) =~= line(
                43,
                vstd::utf8::encode_utf8(values[i as int].0),
            ) + wire(values[i as int].1));
            assert(out@ =~= old(out)@ + wire_pairs(values.take(i + 1)));
        }
        i += 1;
    }
    assert(values.take(pairs.len() as int) =~= values);
}

/// Appends the wire form of an array of `items` to `out`.
pub fn push_array(items: &Vec<RespFrame>, out: &mut Vec<u8>)
    ensures
        final(out)@ == old(out)@ + wire(Value::Array(items_value(*items))),
    decreases items, 1nat,
{
    if items.len() == 0 {
        let absent: [u8; 2] = [45u8, 49u8];
        assert(absent@ =~= seq![45u8, 49u8]);
        push_line(42u8, absent.as_slice(), out);
    } else {
        push_header(42u8, items.len(), out);
        push_items(items, out);
        assert(out@ =~= old(out)@ + wire(Value::Array(items_value(*items))));
    }
}

/// Appends the wire form of a set of `items` to `out`.
pub fn push_set(items: &Vec<RespFrame>, out: &mut Vec<u8>)
    ensures
        final(out)@ == old(out)@ + wire(Value::RespSet(items_value(*items))),
    decreases items, 1nat,
{
    push_header(126u8, items.len(), out);
    push_items(items, out);
    assert(out@ =~= old(out)@ + wire(Value::RespSet(items_value(*items))));
}

/// Appends the wire form of a map of `pairs` to `out`.
pub fn push_map(pairs: &Vec<(String, RespFrame)>, out: &mut Vec<u8>)
    ensures
        final(out)@ == old(out)@ + wire(Value::RespMap(pairs_value(*pairs))),
    decreases pairs, 1nat,
{
    push_header(37u8, pairs.len(), out);
    push_pairs(pairs, out);
    assert(out@ =~= old(out)@ + wire(Value::RespMap(pairs_value(*pairs))));
}

/// Appends the wire form of the frame to `out`.
pub fn push_frame(f: &RespFrame, out: &mut Vec<u8>)
    ensures
        final(out)@ == old(out)@ + wire(f@),
    decreases f,
{
    match f {
        RespFrame::SimpleString(s) => push_line(43u8, s.0.as_str().as_bytes(), out),
        RespFrame::Error(s) => push_line(45u8, s.0.as_str().as_bytes(), out),
        RespFrame::Integer(i) => {
            out.push(58u8);
            push_i64(*i, out);
            push_crlf(out);
            assert(out@ =~= old(out)@ + wire(f@));
        },
        RespFrame::BulkString(b) => push_bulk(b, out),
        RespFrame::Array(a) => push_array(&a.0, out),
        RespFrame::Null(_) => {
            let nothing: [u8; 0] = [];
            assert(nothing@ =~= Seq::<u8>::empty());
            push_line(95u8, nothing.as_slice(), out);
        },
        RespFrame::Boolean(b) => {
            let letter: [u8; 1] = [if *b { 116u8 } else { 102u8 }];
            assert(letter@ =~= seq![if *b { 116u8 } else { 102u8 }]);
            push_line(35u8, letter.as_slice(), out);
        },
        RespFrame::Double(d) => push_line(44u8, d.0.as_slice(), out),
        RespFrame::RespMap(m) => push_map(&m.0, out),
        RespFrame::RespSet(s) => push_set(&s.0, out),
    }
}

impl Clone for RespFrame {
    fn clone(&self) -> (r: Self)
        ensures
            r@ == self@,
    {
        self.duplicate()
    }
}

impl RespEncode for RespFrame {
    open spec fn value(&self) -> Value {
        self@
    }

    fn encode(self) -> (out: Vec<u8>) {
        let mut out: Vec<u8> = Vec::new();
        push_frame(&self, &mut out);
        out
    }
}

impl RespDecode for RespFrame {
    const PREFIX: &'static str = "";

    open spec fn grammar(bytes: Seq<u8>) -> Result<(Self::V, nat), Failure> {
        decode_frame(bytes)
    }

    open spec fn length_grammar(bytes: Seq<u8>) -> Result<nat, Failure> {
        frame_length(bytes)
    }

    fn decode(buf: &mut BytesMut) -> (r: Result<Self, RespError>) {
        let (value, n) = match parse_frame(buffer_bytes(buf)) {
            Ok(read) => read,
            Err(e) => {
                return Err(e);
            },
        };
        buffer_advance(buf, n);
        Ok(value)
    }

    fn expect_length(buf: &[u8]) -> (r: Result<usize, RespError>) {
        parse_frame_length(buf)
    }
}

impl From<SimpleString> for RespFrame {
    fn from(v: SimpleString) -> (r: Self)
        ensures
            r == RespFrame::SimpleString(v),
    {
        RespFrame::SimpleString(v)
    }
}

impl vstd::std_specs::convert::FromSpecImpl<SimpleString> for RespFrame {
    open spec fn obeys_from_spec() -> bool {
        true
    }

    open spec fn from_spec(v: SimpleString) -> Self {
        RespFrame::SimpleString(v)
    }
}

impl From<SimpleError> for RespFrame {
    fn from(v: SimpleError) -> (r: Self)
        ensures
            r == RespFrame::Error(v),
    {
        RespFrame::Error(v)
    }
}

impl vstd::std_specs::convert::FromSpecImpl<SimpleError> for RespFrame {
    open spec fn obeys_from_spec() -> bool {
        true
    }

    open spec fn from_spec(v: SimpleError) -> Self {
        RespFrame::Error(v)
    }
}

impl From<i64> for RespFrame {
    fn from(v: i64) -> (r: Self)
        ensures
            r == RespFrame::Integer(v),
    {
        RespFrame::Integer(v)
    }
}

impl vstd::std_specs::convert::FromSpecImpl<i64> for RespFrame {
    open spec fn obeys_from_spec() -> bool {
        true
    }

    open spec fn from_spec(v: i64) -> Self {
        RespFrame::Integer(v)
    }
}

impl From<BulkString> for RespFrame {
    fn from(v: BulkString) -> (r: Self)
        ensures
            r == RespFrame::BulkString(v),
    {
        RespFrame::BulkString(v)
    }
}

impl vstd::std_specs::convert::FromSpecImpl<BulkString> for RespFrame {
    open spec fn obeys_from_spec() -> bool {
        true
    }

    open spec fn from_spec(v: BulkString) -> Self {
        RespFrame::BulkString(v)
    }
}

impl From<RespArray> for RespFrame {
    fn from(v: RespArray) -> (r: Self)
        ensures
            r == RespFrame::Array(v),
    {
        RespFrame::Array(v)
    }
}

impl vstd::std_specs::convert::FromSpecImpl<RespArray> for RespFrame {
    open spec fn obeys_from_spec() -> bool {
        true
    }

    open spec fn from_spec(v: RespArray) -> Self {
        RespFrame::Array(v)
    }
}

impl From<RespNull> for RespFrame {
    fn from(v: RespNull) -> (r: Self)
        ensures
            r == RespFrame::Null(v),
    {
        RespFrame::Null(v)
    }
}

impl vstd::std_specs::convert::FromSpecImpl<RespNull> for RespFrame {
    open spec fn obeys_from_spec() -> bool {
        true
    }

    open spec fn from_spec(v: RespNull) -> Self {
        RespFrame::Null(v)
    }
}

impl From<bool> for RespFrame {
    fn from(v: bool) -> (r: Self)
        ensures
            r == RespFrame::Boolean(v),
    {
        RespFrame::Boolean(v)
    }
}

impl vstd::std_specs::convert::FromSpecImpl<bool> for RespFrame {
    open spec fn obeys_from_spec() -> bool {
        true
    }

    open spec fn from_spec(v: bool) -> Self {
        RespFrame::Boolean(v)
    }
}

impl From<RespDouble> for RespFrame {
    fn from(v: RespDouble) -> (r: Self)
        ensures
            r == RespFrame::Double(v),
    {
        RespFrame::Double(v)
    }
}

impl vstd::std_specs::convert::FromSpecImpl<RespDouble> for RespFrame {
    open spec fn obeys_from_spec() -> bool {
        true
    }

    open spec fn from_spec(v: RespDouble) -> Self {
        RespFrame::Double(v)
    }
}

impl From<RespMap> for RespFrame {
    fn from(v: RespMap) -> (r: Self)
        ensures
            r == RespFrame::RespMap(v),
    {
        RespFrame::RespMap(v)
    }
}

impl vstd::std_specs::convert::FromSpecImpl<RespMap> for RespFrame {
    open spec fn obeys_from_spec() -> bool {
        true
    }

    open spec fn from_spec(v: RespMap) -> Self {
        RespFrame::RespMap(v)
    }
}

impl From<RespSet> for RespFrame {
    fn from(v: RespSet) -> (r: Self)
        ensures
            r == RespFrame::RespSet(v),
    {
        RespFrame::RespSet(v)
    }
}

impl vstd::std_specs::convert::FromSpecImpl<RespSet> for RespFrame {
    open spec fn obeys_from_spec() -> bool {
        true
    }

    open spec fn from_spec(v: RespSet) -> Self {
        RespFrame::RespSet(v)
    }
}

impl From<&str> for RespFrame {
    fn from(s: &str) -> (r: Self)
        ensures
            r@ == Value::SimpleString(s@),
    {
        RespFrame::SimpleString(SimpleString(String::from_str(s)))
    }
}

impl vstd::std_specs::convert::FromSpecImpl<&str> for RespFrame {
    open spec fn obeys_from_spec() -> bool {
        false
    }

    open spec fn from_spec(v: &str) -> Self {
        arbitrary()
    }
}

impl From<&[u8]> for RespFrame {
    fn from(s: &[u8]) -> (r: Self)
        ensures
            r@ == Value::BulkString(Some(s@)),
    {
        RespFrame::BulkString(BulkString(Some(slice_to_vec(s))))
    }
}

impl vstd::std_specs::convert::FromSpecImpl<&[u8]> for RespFrame {
    open spec fn obeys_from_spec() -> bool {
        false
    }

    open spec fn from_spec(v: &[u8]) -> Self {
        arbitrary()
    }
}

impl<const N: usize> From<&[u8; N]> for RespFrame {
    fn from(s: &[u8; N]) -> (r: Self)
        ensures
            r@ == Value::BulkString(Some(s@)),
    {
        RespFrame::BulkString(BulkString(Some(slice_to_vec(s.as_slice()))))
    }
}

impl<const N: usize> vstd::std_specs::convert::FromSpecImpl<&[u8; N]> for RespFrame {
    open spec fn obeys_from_spec() -> bool {
        false
    }

    open spec fn from_spec(v: &[u8; N]) -> Self {
        arbitrary()
    }
}

} // verus!
