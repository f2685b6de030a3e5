//! The boolean frame: `#t` or `#f` on one line.

use vstd::prelude::*;
use bytes::BytesMut;
use crate::resp::{RespDecode, RespEncode, RespError};
use crate::resp::buffer::{buffer_advance, buffer_bytes};
use crate::resp::frame::{push_frame, RespFrame};
use crate::resp::grammar::{decode_boolean, Failure};
use crate::resp::model::Value;
use crate::respv2::parser::boolean;

verus! {

impl RespEncode for bool {
    open spec fn value(&self) -> Value {
        Value::Boolean(*self)
    }

    fn encode(self) -> (out: Vec<u8>) {
        let mut out: Vec<u8> = Vec::new();
        push_frame(&RespFrame::Boolean(self), &mut out);
        out
    }
}

impl RespDecode for bool {
    const PREFIX: &'static str = "#";

    open spec fn grammar(bytes: Seq<u8>) -> Result<(Self::V, nat), Failure> {
        decode_boolean(bytes)
    }

    open spec fn length_grammar(bytes: Seq<u8>) -> Result<nat, Failure> {
        Ok(4)
    }

    fn decode(buf: &mut BytesMut) -> (r: Result<Self, RespError>) {
        let (value, n) = match boolean(buffer_bytes(buf)) {
            Ok(read) => read,
            Err(e) => {
                return Err(e);
            },
        };
        buffer_advance(buf, n);
        Ok(value)
    }

    fn expect_length(buf: &[u8]) -> (r: Result<usize, RespError>) {
        Ok(4)
    }
}

} // verus!
