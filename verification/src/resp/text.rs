//! Text out of bytes.

use vstd::prelude::*;
use vstd::utf8::{
    decode_utf8, encode_utf8, encode_utf8_decode_utf8, encode_utf8_valid_utf8, is_ascii_chars,
    is_ascii_chars_encode_utf8, valid_utf8,
};
use std::string::FromUtf8Error;
use crate::resp::decimal::{
    int_text, lemma_int_text, lemma_nat_digits, nat_digits, push_digits, push_i64,
};

verus! {

/// `std::string::FromUtf8Error`, taken as it is: nothing inside it is seen.
#[verifier::external_type_specification]
#[verifier::external_body]
pub struct ExFromUtf8Error(FromUtf8Error);

/// `String::from_utf8`: the text that the bytes spell in UTF-8, or an error
/// if they are not UTF-8. The standard library's documentation says no more
/// of the error than that it tells where the bytes went wrong.
#[verifier::external_body]
pub(crate) fn text_from_utf8(bytes: Vec<u8>) -> (r: Result<String, FromUtf8Error>)
    ensures
        r is Ok <==> valid_utf8(bytes@),
        r is Ok ==> r->Ok_0@ == decode_utf8(bytes@),
{
    String::from_utf8(bytes)
}

/// `ToString::to_string` of `FromUtf8Error`: the words in which the standard
/// library says where the bytes went wrong. Nothing is stated of them.
#[verifier::external_body]
pub(crate) fn utf8_error_words(e: &FromUtf8Error) -> String {
    e.to_string()
}

/// The letter `b`, folded to lower case if it is an ASCII capital.
pub open spec fn lower(b: u8) -> u8 {
    if 65 <= b <= 90 {
        (b + 32) as u8
    } else {
        b
    }
}

/// The text, with every ASCII capital folded to lower case.
pub open spec fn lower_text(s: Seq<u8>) -> Seq<u8> {
    Seq::new(s.len(), |i: int| lower(s[i]))
}

/// The characters that ASCII bytes spell, one for each byte.
pub open spec fn as_chars(bytes: Seq<u8>) -> Seq<char> {
    Seq::new(bytes.len(), |i: int| bytes[i] as char)
}

/// ASCII bytes are UTF-8, and spell one character for each byte.
pub proof fn lemma_ascii_text(bytes: Seq<u8>)
    requires
        forall|i: int| 0 <= i < bytes.len() ==> #[trigger] bytes[i] < 128,
    ensures
        valid_utf8(bytes),
        decode_utf8(bytes) == as_chars(bytes),
        encode_utf8(as_chars(bytes)) == bytes,
{
    let chars = as_chars(bytes);
    assert(is_ascii_chars(chars)) by {
        assert forall|i: int| 0 <= i < chars.len() implies '\0' <= #[trigger] chars[i] <= '\u{7f}' by {
            assert(bytes[i] < 128);
        }
    }
    is_ascii_chars_encode_utf8(chars);
    assert(encode_utf8(chars) =~= bytes) by {
        assert forall|i: int| 0 <= i < bytes.len() implies encode_utf8(chars)[i] == bytes[i] by {
            assert(chars[i] as u8 == encode_utf8(chars)[i]);
            assert(bytes[i] < 128);
        }
    }
    encode_utf8_valid_utf8(chars);
    encode_utf8_decode_utf8(chars);
}

/// The canonical decimal text of `n`.
pub fn decimal_string(n: usize) -> (r: String)
    ensures
        r@ == as_chars(nat_digits(n as nat)),
{
    let mut digits: Vec<u8> = Vec::new();
    push_digits(n as u64, &mut digits);
    proof {
        lemma_nat_digits(n as nat);
        assert(digits@ =~= nat_digits(n as nat));
        assert forall|i: int| 0 <= i < digits@.len() implies #[trigger] digits@[i] < 128 by {
            assert(crate::resp::decimal::is_digit(digits@[i]));
        }
        lemma_ascii_text(digits@);
    }
    match text_from_utf8(digits) {
        Ok(text) => text,
        Err(_) => String::new(),
    }
}

/// The canonical decimal text of `n`, with a minus sign if it is negative.
pub fn signed_decimal_string(n: i64) -> (r: String)
    ensures
        r@ == as_chars(int_text(n as int)),
{
    let mut digits: Vec<u8> = Vec::new();
    push_i64(n, &mut digits);
    proof {
        lemma_int_text(n as int);
        assert(digits@ =~= int_text(n as int));
        assert forall|i: int| 0 <= i < digits@.len() implies #[trigger] digits@[i] < 128 by {
            assert(crate::resp::decimal::is_digit(digits@[i]) || digits@[i] == 45);
        }
        lemma_ascii_text(digits@);
    }
    match text_from_utf8(digits) {
        Ok(text) => text,
        Err(_) => String::new(),
    }
}

} // verus!
