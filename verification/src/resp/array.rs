//! The array frame: frames behind their number.

use vstd::prelude::*;
use bytes::BytesMut;
use crate::resp::{RespDecode, RespEncode, RespError};
use crate::resp::buffer::{buffer_advance, buffer_bytes};
use crate::resp::frame::{duplicate_items, items_value, push_array, RespFrame};
use crate::resp::grammar::{aggregate_length, decode_array, Failure};
use crate::resp::model::Value;
use crate::respv2::parser::{array, array_len};

verus! {

/// A sequence of frames. The array of no frames is the absent array.
#[derive(Debug, PartialEq)]
pub struct RespArray(pub Vec<RespFrame>);

impl View for RespArray {
    type V = Seq<Value>;

    open spec fn view(&self) -> Seq<Value> {
        items_value(self.0)
    }
}

impl RespArray {
    /// The array of the frames `s`, in their order.
    pub fn new(s: Vec<RespFrame>) -> (r: Self)
        ensures
            r@ == items_value(s),
    {
        RespArray(s)
    }
}

impl Clone for RespArray {
    fn clone(&self) -> (r: Self)
        ensures
            r@ == self@,
    {
        RespArray(duplicate_items(&self.0))
    }
}

impl RespEncode for RespArray {
    open spec fn value(&self) -> Value {
        Value::Array(self@)
    }

    fn encode(self) -> (out: Vec<u8>) {
        let mut out: Vec<u8> = Vec::new();
        push_array(&self.0, &mut out);
        out
    }
}

impl RespDecode for RespArray {
    const PREFIX: &'static str = "*";

    open spec fn grammar(bytes: Seq<u8>) -> Result<(Self::V, nat), Failure> {
        decode_array(bytes)
    }

    open spec fn length_grammar(bytes: Seq<u8>) -> Result<nat, Failure> {
        aggregate_length(bytes, 42)
    }

    fn decode(buf: &mut BytesMut) -> (r: Result<Self, RespError>) {
        let (value, n) = match array(buffer_bytes(buf)) {
            Ok(read) => read,
            Err(e) => {
                return Err(e);
            },
        };
        buffer_advance(buf, n);
        Ok(value)
    }

    fn expect_length(buf: &[u8]) -> (r: Result<usize, RespError>) {
        array_len(buf)
    }
}

impl core::ops::Deref for RespArray {
    type Target = Vec<RespFrame>;

    fn deref(&self) -> (r: &Vec<RespFrame>)
        ensures
            *r == self.0,
    {
        &self.0
    }
}

} // verus!
