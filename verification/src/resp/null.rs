//! The null frame.

use vstd::prelude::*;
use bytes::BytesMut;
use crate::resp::{RespDecode, RespEncode, RespError};
use crate::resp::buffer::{buffer_advance, buffer_bytes};
use crate::resp::frame::{push_frame, RespFrame};
use crate::resp::grammar::{decode_null, Failure};
use crate::resp::model::Value;
use crate::respv2::parser::null;

verus! {

/// The null frame. It holds nothing.
#[derive(Debug, Clone, Copy, PartialEq, Eq)]
pub struct RespNull;

impl View for RespNull {
    type V = ();

    open spec fn view(&self) -> () {
        ()
    }
}

impl RespEncode for RespNull {
    open spec fn value(&self) -> Value {
        Value::Null
    }

    fn encode(self) -> (out: Vec<u8>) {
        let mut out: Vec<u8> = Vec::new();
        push_frame(&RespFrame::Null(self), &mut out);
        out
    }
}

impl RespDecode for RespNull {
    const PREFIX: &'static str = "_";

    open spec fn grammar(bytes: Seq<u8>) -> Result<(Self::V, nat), Failure> {
        decode_null(bytes)
    }

    open spec fn length_grammar(bytes: Seq<u8>) -> Result<nat, Failure> {
        Ok(3)
    }

    fn decode(buf: &mut BytesMut) -> (r: Result<Self, RespError>) {
        let (value, n) = match null(buffer_bytes(buf)) {
            Ok(read) => read,
            Err(e) => {
                return Err(e);
            },
        };
        buffer_advance(buf, n);
        Ok(value)
    }

    fn expect_length(buf: &[u8]) -> (r: Result<usize, RespError>) {
        Ok(3)
    }
}

} // verus!
