//! The set frame: frames behind their number and the set marker.

use vstd::prelude::*;
use bytes::BytesMut;
use crate::resp::{RespDecode, RespEncode, RespError};
use crate::resp::buffer::{buffer_advance, buffer_bytes};
use crate::resp::frame::{duplicate_items, items_value, push_set, RespFrame};
use crate::resp::grammar::{aggregate_length, decode_set, Failure};
use crate::resp::model::Value;
use crate::respv2::parser::set_len;

verus! {

/// A sequence of frames sent as a set. The frame itself keeps whatever it
/// is given; a command that wants each member once sees to that.
#[derive(Debug, PartialEq)]
pub struct RespSet(pub Vec<RespFrame>);

impl View for RespSet {
    type V = Seq<Value>;

    open spec fn view(&self) -> Seq<Value> {
        items_value(self.0)
    }
}

impl RespSet {
    /// The set frame of the frames `s`, in their order.
    pub fn new(s: Vec<RespFrame>) -> (r: Self)
        ensures
            r@ == items_value(s),
    {
        RespSet(s)
    }
}

impl Clone for RespSet {
    fn clone(&self) -> (r: Self)
        ensures
            r@ == self@,
    {
        RespSet(duplicate_items(&self.0))
    }
}

impl RespEncode for RespSet {
    open spec fn value(&self) -> Value {
        Value::RespSet(self@)
    }

    fn encode(self) -> (out: Vec<u8>) {
        let mut out: Vec<u8> = Vec::new();
        push_set(&self.0, &mut out);
        out
    }
}

impl RespDecode for RespSet {
    const PREFIX: &'static str = "~";

    open spec fn grammar(bytes: Seq<u8>) -> Result<(Self::V, nat), Failure> {
        decode_set(bytes)
    }

    open spec fn length_grammar(bytes: Seq<u8>) -> Result<nat, Failure> {
        aggregate_length(bytes, 126)
    }

    fn decode(buf: &mut BytesMut) -> (r: Result<Self, RespError>) {
        let (value, n) = match crate::respv2::parser::set(buffer_bytes(buf)) {
            Ok(read) => read,
            Err(e) => {
                return Err(e);
            },
        };
        buffer_advance(buf, n);
        Ok(value)
    }

    fn expect_length(buf: &[u8]) -> (r: Result<usize, RespError>) {
        set_len(buf)
    }
}

impl core::ops::Deref for RespSet {
    type Target = Vec<RespFrame>;

    fn deref(&self) -> (r: &Vec<RespFrame>)
        ensures
            *r == self.0,
    {
        &self.0
    }
}

} // verus!
