//! The simple string frame: one line of text behind a `+`.

use vstd::prelude::*;
use vstd::string::{StringExecFns, StringSliceAdditionalSpecFns};
use bytes::BytesMut;
use crate::resp::{lemma_marker_bytes, RespDecode, RespEncode, RespError};
use crate::resp::buffer::{buffer_advance, buffer_bytes};
use crate::resp::frame::push_line;
use crate::resp::grammar::{decode_text, line_length, Failure};
use crate::resp::model::Value;
use crate::respv2::parser::{line_len, simple_string};

verus! {

/// A line of text. It is sent as it is, so it must hold no line terminator.
#[derive(Debug, Clone, PartialEq, Eq)]
pub struct SimpleString(pub String);

impl View for SimpleString {
    type V = Seq<char>;

    open spec fn view(&self) -> Seq<char> {
        self.0@
    }
}

impl SimpleString {
    /// A simple string with the text `s`.
    pub fn new(s: String) -> (r: Self)
        ensures
            r@ == s@,
    {
        SimpleString(s)
    }
}

impl RespEncode for SimpleString {
    open spec fn value(&self) -> Value {
        Value::SimpleString(self@)
    }

    fn encode(self) -> (out: Vec<u8>) {
        let mut out: Vec<u8> = Vec::new();
        push_line(43u8, self.0.as_str().as_bytes(), &mut out);
        out
    }
}

impl RespDecode for SimpleString {
    const PREFIX: &'static str = "+";

    open spec fn grammar(bytes: Seq<u8>) -> Result<(Self::V, nat), Failure> {
        decode_text(bytes, 43)
    }

    open spec fn length_grammar(bytes: Seq<u8>) -> Result<nat, Failure> {
        line_length(bytes, 43)
    }

    fn decode(buf: &mut BytesMut) -> (r: Result<Self, RespError>) {
        let (value, n) = match simple_string(buffer_bytes(buf)) {
            Ok(read) => read,
            Err(e) => {
                return Err(e);
            },
        };
        buffer_advance(buf, n);
        Ok(value)
    }

    fn expect_length(buf: &[u8]) -> (r: Result<usize, RespError>) {
        proof {
            lemma_marker_bytes();
        }
        line_len(buf, "+")
    }
}

impl From<&str> for SimpleString {
    fn from(s: &str) -> (r: Self)
        ensures
            r@ == s@,
    {
        SimpleString(String::from_str(s))
    }
}

impl vstd::std_specs::convert::FromSpecImpl<&str> for SimpleString {
    open spec fn obeys_from_spec() -> bool {
        false
    }

    open spec fn from_spec(v: &str) -> Self {
        arbitrary()
    }
}

impl core::ops::Deref for SimpleString {
    type Target = String;

    fn deref(&self) -> (r: &String)
        ensures
            r@ == self@,
    {
        &self.0
    }
}

} // verus!
