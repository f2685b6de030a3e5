//! The bulk string frame: bytes behind their length, or the absent bulk string.

use vstd::prelude::*;
use vstd::slice::slice_to_vec;
use vstd::string::StringSliceAdditionalSpecFns;
use bytes::BytesMut;
use crate::resp::{RespDecode, RespEncode, RespError};
use crate::resp::buffer::{buffer_advance, buffer_bytes};
use crate::resp::frame::push_bulk;
use crate::resp::grammar::{bulk_length, decode_bulk, Failure};
use crate::resp::model::Value;
use crate::respv2::parser::{bulk_string, bulk_string_len};

verus! {

/// A byte string of any content, or the absent bulk string.
#[derive(Debug, Clone, PartialEq, Eq)]
pub struct BulkString(pub Option<Vec<u8>>);

impl View for BulkString {
    type V = Option<Seq<u8>>;

    open spec fn view(&self) -> Option<Seq<u8>> {
        match self.0 {
            Some(data) => Some(data@),
            None => None,
        }
    }
}

impl BulkString {
    /// A bulk string that holds the bytes `data`.
    pub fn new(data: Vec<u8>) -> (r: Self)
        ensures
            r@ == Some(data@),
    {
        BulkString(Some(data))
    }

    /// The absent bulk string.
    pub fn null_bulk_string() -> (r: Self)
        ensures
            r@ == None::<Seq<u8>>,
    {
        BulkString(None)
    }

    /// The wire form of the absent bulk string: `$-1` and a line terminator.
    pub fn null_bulk_string_encode() -> (out: Vec<u8>)
        ensures
            out@ == seq![36u8, 45u8, 49u8, 13u8, 10u8],
    {
        let mut out: Vec<u8> = Vec::new();
        out.push(36u8);
        out.push(45u8);
        out.push(49u8);
        out.push(13u8);
        out.push(10u8);
        assert(out@ =~= seq![36u8, 45u8, 49u8, 13u8, 10u8]);
        out
    }
}

impl RespEncode for BulkString {
    open spec fn value(&self) -> Value {
        Value::BulkString(self@)
    }

    fn encode(self) -> (out: Vec<u8>) {
        let mut out: Vec<u8> = Vec::new();
        push_bulk(&self, &mut out);
        out
    }
}

impl RespDecode for BulkString {
    const PREFIX: &'static str = "$";

    open spec fn grammar(bytes: Seq<u8>) -> Result<(Self::V, nat), Failure> {
        decode_bulk(bytes)
    }

    open spec fn length_grammar(bytes: Seq<u8>) -> Result<nat, Failure> {
        bulk_length(bytes)
    }

    fn decode(buf: &mut BytesMut) -> (r: Result<Self, RespError>) {
        let (value, n) = match bulk_string(buffer_bytes(buf)) {
            Ok(read) => read,
            Err(e) => {
                return Err(e);
            },
        };
        buffer_advance(buf, n);
        Ok(value)
    }

    fn expect_length(buf: &[u8]) -> (r: Result<usize, RespError>) {
        bulk_string_len(buf)
    }
}

impl From<&str> for BulkString {
    fn from(s: &str) -> (r: Self)
        ensures
            r@ == Some(s.spec_bytes()),
    {
        BulkString(Some(slice_to_vec(s.as_bytes())))
    }
}

impl vstd::std_specs::convert::FromSpecImpl<&str> for BulkString {
    open spec fn obeys_from_spec() -> bool {
        false
    }

    open spec fn from_spec(v: &str) -> Self {
        arbitrary()
    }
}

impl From<String> for BulkString {
    fn from(s: String) -> (r: Self)
        ensures
            r@ == Some(vstd::utf8::encode_utf8(s@)),
    {
        BulkString(Some(slice_to_vec(s.as_str().as_bytes())))
    }
}

impl vstd::std_specs::convert::FromSpecImpl<String> for BulkString {
    open spec fn obeys_from_spec() -> bool {
        false
    }

    open spec fn from_spec(v: String) -> Self {
        arbitrary()
    }
}

impl From<&[u8]> for BulkString {
    fn from(s: &[u8]) -> (r: Self)
        ensures
            r@ == Some(s@),
    {
        BulkString(Some(slice_to_vec(s)))
    }
}

impl vstd::std_specs::convert::FromSpecImpl<&[u8]> for BulkString {
    open spec fn obeys_from_spec() -> bool {
        false
    }

    open spec fn from_spec(v: &[u8]) -> Self {
        arbitrary()
    }
}

impl<const N: usize> From<[u8; N]> for BulkString {
    fn from(s: [u8; N]) -> (r: Self)
        ensures
            r@ == Some(s@),
    {
        BulkString(Some(slice_to_vec(s.as_slice())))
    }
}

impl<const N: usize> vstd::std_specs::convert::FromSpecImpl<[u8; N]> for BulkString {
    open spec fn obeys_from_spec() -> bool {
        false
    }

    open spec fn from_spec(v: [u8; N]) -> Self {
        arbitrary()
    }
}

} // verus!
