//! The simple error frame: one line of text behind a `-`.

use vstd::prelude::*;
use vstd::string::{StringExecFns, StringSliceAdditionalSpecFns};
use bytes::BytesMut;
use crate::resp::{lemma_marker_bytes, RespDecode, RespEncode, RespError};
use crate::resp::buffer::{buffer_advance, buffer_bytes};
use crate::resp::frame::push_line;
use crate::resp::grammar::{decode_text, line_length, Failure};
use crate::resp::model::Value;
use crate::respv2::parser::{error, line_len};

verus! {

/// A line of text that reports an error. It must hold no line terminator.
#[derive(Debug, Clone, PartialEq, Eq)]
pub struct SimpleError(pub String);

impl View for SimpleError {
    type V = Seq<char>;

    open spec fn view(&self) -> Seq<char> {
        self.0@
    }
}

impl SimpleError {
    /// A simple error with the text `s`.
    pub fn new(s: String) -> (r: Self)
        ensures
            r@ == s@,
    {
        SimpleError(s)
    }
}

impl RespEncode for SimpleError {
    open spec fn value(&self) -> Value {
        Value::Error(self@)
    }

    fn encode(self) -> (out: Vec<u8>) {
        let mut out: Vec<u8> = Vec::new();
        push_line(45u8, self.0.as_str().as_bytes(), &mut out);
        out
    }
}

impl RespDecode for SimpleError {
    const PREFIX: &'static str = "-";

    open spec fn grammar(bytes: Seq<u8>) -> Result<(Self::V, nat), Failure> {
        decode_text(bytes, 45)
    }

    open spec fn length_grammar(bytes: Seq<u8>) -> Result<nat, Failure> {
        line_length(bytes, 45)
    }

    fn decode(buf: &mut BytesMut) -> (r: Result<Self, RespError>) {
        let (value, n) = match error(buffer_bytes(buf)) {
            Ok(read) => read,
            Err(e) => {
                return Err(e);
            },
        };
        buffer_advance(buf, n);
        Ok(value)
    }

    fn expect_length(buf: &[u8]) -> (r: Result<usize, RespError>) {
        proof {
            lemma_marker_bytes();
        }
        line_len(buf, "-")
    }
}

impl From<&str> for SimpleError {
    fn from(s: &str) -> (r: Self)
        ensures
            r@ == s@,
    {
        SimpleError(String::from_str(s))
    }
}

impl vstd::std_specs::convert::FromSpecImpl<&str> for SimpleError {
    open spec fn obeys_from_spec() -> bool {
        false
    }

    open spec fn from_spec(v: &str) -> Self {
        arbitrary()
    }
}

} // verus!
