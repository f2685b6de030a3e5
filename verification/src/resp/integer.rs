//! The integer frame: a signed decimal number on one line behind a `:`.

use vstd::prelude::*;
use bytes::BytesMut;
use crate::resp::{lemma_marker_bytes, RespDecode, RespEncode, RespError};
use crate::resp::buffer::{buffer_advance, buffer_bytes};
use crate::resp::frame::{push_frame, RespFrame};
use crate::resp::grammar::{decode_integer, line_length, Failure};
use crate::resp::model::Value;
use crate::respv2::parser::{integer, line_len};

verus! {

impl RespEncode for i64 {
    open spec fn value(&self) -> Value {
        Value::Integer(*self)
    }

    fn encode(self) -> (out: Vec<u8>) {
        let mut out: Vec<u8> = Vec::new();
        push_frame(&RespFrame::Integer(self), &mut out);
        out
    }
}

impl RespDecode for i64 {
    const PREFIX: &'static str = ":";

    open spec fn grammar(bytes: Seq<u8>) -> Result<(Self::V, nat), Failure> {
        decode_integer(bytes)
    }

    open spec fn length_grammar(bytes: Seq<u8>) -> Result<nat, Failure> {
        line_length(bytes, 58)
    }

    fn decode(buf: &mut BytesMut) -> (r: Result<Self, RespError>) {
        let (value, n) = match integer(buffer_bytes(buf)) {
            Ok(read) => read,
            Err(e) => {
                return Err(e);
            },
        };
        buffer_advance(buf, n);
        Ok(value)
    }

    fn expect_length(buf: &[u8]) -> (r: Result<usize, RespError>) {
        proof {
            lemma_marker_bytes();
        }
        line_len(buf, ":")
    }
}

} // verus!
