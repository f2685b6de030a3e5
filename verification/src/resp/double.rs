//! The decimal text of a double frame.
//!
//! A double travels as text and is kept as text: the grammar below decides
//! which texts are numbers, and an application turns an accepted text into a
//! machine number.

use vstd::prelude::*;
use bytes::BytesMut;
use crate::resp::{lemma_marker_bytes, RespDecode, RespEncode, RespError};
use crate::resp::buffer::{buffer_advance, buffer_bytes};
use crate::resp::decimal::{is_digit, is_sign};
use crate::resp::frame::push_line;
use crate::resp::grammar::{decode_double, line_length, Failure};
use crate::resp::model::Value;
use crate::resp::text::{lower, lower_text};
use crate::respv2::parser::{decimal, line_len};

verus! {

/// The index just behind the longest run of digits that starts at `i`.
pub open spec fn digit_run(s: Seq<u8>, i: int) -> int
    decreases s.len() - i,
{
    if 0 <= i < s.len() && is_digit(s[i]) {
        digit_run(s, i + 1)
    } else {
        i
    }
}

/// The text spells `inf`, `infinity` or `nan`, in any mix of cases.
pub open spec fn is_special_text(s: Seq<u8>) -> bool {
    let t = lower_text(s);
    t == seq![105u8, 110u8, 102u8]
        || t == seq![105u8, 110u8, 102u8, 105u8, 110u8, 105u8, 116u8, 121u8]
        || t == seq![110u8, 97u8, 110u8]
}

/// The index just behind the mantissa that starts at 0: digits, then
/// optionally a point and more digits.
pub open spec fn mantissa_end(s: Seq<u8>) -> int {
    let a = digit_run(s, 0);
    if a < s.len() && s[a] == 46 {
        digit_run(s, a + 1)
    } else {
        a
    }
}

/// The number of digits in the mantissa that starts at 0.
pub open spec fn mantissa_digits(s: Seq<u8>) -> int {
    let a = digit_run(s, 0);
    if a < s.len() && s[a] == 46 {
        a + (digit_run(s, a + 1) - (a + 1))
    } else {
        a
    }
}

/// From index `b` on, the text is an exponent: `e` or `E`, an optional sign,
/// and at least one digit up to the end of the text.
pub open spec fn is_exponent(s: Seq<u8>, b: int) -> bool {
    0 <= b < s.len() && (s[b] == 101 || s[b] == 69) && {
        let c = if b + 1 < s.len() && is_sign(s[b + 1]) {
            b + 2
        } else {
            b + 1
        };
        digit_run(s, c) > c && digit_run(s, c) == s.len()
    }
}

/// The text is an unsigned decimal number: a mantissa with at least one
/// digit, then optionally an exponent.
pub open spec fn is_number_text(s: Seq<u8>) -> bool {
    mantissa_digits(s) > 0 && (mantissa_end(s) == s.len() || is_exponent(s, mantissa_end(s)))
}

/// The text is a floating-point number: an optional sign, then `inf`,
/// `infinity`, `nan` or a decimal number.
pub open spec fn is_double_text(s: Seq<u8>) -> bool {
    let body = if s.len() > 0 && is_sign(s[0]) {
        s.skip(1)
    } else {
        s
    };
    is_special_text(body) || is_number_text(body)
}

/// Skips the digits of `text` from `from` on and returns the index behind them.
fn skip_digits(text: &[u8], from: usize) -> (end: usize)
    requires
        from <= text@.len(),
    ensures
        end as int == digit_run(text@, from as int),
        from <= end <= text@.len(),
{
    let mut i: usize = from;
    while i < text.len() && text[i] >= 48u8 && text[i] <= 57u8
        invariant
            from <= i <= text@.len(),
            digit_run(text@, from as int) == digit_run(text@, i as int),
        decreases text@.len() - i,
    {
        i += 1;
    }
    i
}

/// Tells whether `text`, from `from` on, spells `word` in any mix of cases.
fn spells(text: &[u8], from: usize, word: &[u8]) -> (r: bool)
    requires
        from <= text@.len(),
    ensures
        r == (lower_text(text@.skip(from as int)) == word@),
{
    let n: usize = text.len() - from;
    if n != word.len() {
        return false;
    }
    let ghost body = text@.skip(from as int);
    let mut i: usize = 0;
    while i < n
        invariant
            i <= n,
            n == word@.len(),
            n == body.len(),
            from + n == text@.len(),
            text@.len() <= usize::MAX,
            body == text@.skip(from as int),
            forall|k: int| 0 <= k < i ==> lower(body[k]) == word@[k],
        decreases n - i,
    {
        let b: u8 = text[from + i];
        let folded: u8 = if b >= 65u8 && b <= 90u8 {
            b + 32u8
        } else {
            b
        };
        if folded != word[i] {
            proof {
                assert(lower_text(body)[i as int] != word@[i as int]);
            }
            return false;
        }
        i += 1;
    }
    proof {
        assert(lower_text(body) =~= word@);
    }
    true
}

/// Decides whether `text` is a floating-point number.
pub fn is_double(text: &[u8]) -> (r: bool)
    ensures
        r == is_double_text(text@),
{
    let n: usize = text.len();
    let start: usize = if n > 0 && (text[0] == 43u8 || text[0] == 45u8) {
        1
    } else {
        0
    };
    let ghost body = if start == 1 {
        text@.skip(1)
    } else {
        text@
    };
    proof {
        assert(body =~= text@.skip(start as int));
    }
    let inf: [u8; 3] = [105u8, 110u8, 102u8];
    let infinity: [u8; 8] = [105u8, 110u8, 102u8, 105u8, 110u8, 105u8, 116u8, 121u8];
    let nan: [u8; 3] = [110u8, 97u8, 110u8];
    if spells(text, start, inf.as_slice()) || spells(text, start, infinity.as_slice()) || spells(
        text,
        start,
        nan.as_slice(),
    ) {
        proof {
            assert(inf@ =~= seq![105u8, 110u8, 102u8]);
            assert(infinity@ =~= seq![105u8, 110u8, 102u8, 105u8, 110u8, 105u8, 116u8, 121u8]);
            assert(nan@ =~= seq![110u8, 97u8, 110u8]);
        }
        return true;
    }
    proof {
        assert(inf@ =~= seq![105u8, 110u8, 102u8]);
        assert(infinity@ =~= seq![105u8, 110u8, 102u8, 105u8, 110u8, 105u8, 116u8, 121u8]);
        assert(nan@ =~= seq![110u8, 97u8, 110u8]);
        assert(!is_special_text(body));
    }
    // The scan below runs on the whole text; `shift` relates its indices to the body's.
    let a: usize = skip_digits(text, start);
    proof {
        lemma_digit_run_shift(text@, start as int, start as int);
    }
    let mut digits: usize = a - start;
    let mut b: usize = a;
    if a < n && text[a] == 46u8 {
        b = skip_digits(text, a + 1);
        digits = digits + (b - (a + 1));
        proof {
            lemma_digit_run_shift(text@, start as int, a as int + 1);
        }
    }
    assert(digits as int == mantissa_digits(body));
    assert(b as int - start as int == mantissa_end(body));
    if digits == 0 {
        return false;
    }
    if b == n {
        return true;
    }
    if text[b] != 101u8 && text[b] != 69u8 {
        return false;
    }
    let c: usize = if b + 1 < n && (text[b + 1] == 43u8 || text[b + 1] == 45u8) {
        b + 2
    } else {
        b + 1
    };
    let d: usize = skip_digits(text, c);
    proof {
        lemma_digit_run_shift(text@, start as int, c as int);
    }
    d > c && d == n
}

/// Dropping the first `k` bytes shifts every run of digits by `k`.
pub proof fn lemma_digit_run_shift(s: Seq<u8>, k: int, i: int)
    requires
        0 <= k <= i <= s.len(),
    ensures
        digit_run(s.skip(k), i - k) == digit_run(s, i) - k,
    decreases s.len() - i,
{
    if i < s.len() && is_digit(s[i]) {
        assert(s.skip(k)[i - k] == s[i]);
        lemma_digit_run_shift(s, k, i + 1);
    }
}

} // verus!

verus! {

/// A double frame. It holds the decimal text of the number.
#[derive(Debug, Clone, PartialEq, Eq)]
pub struct RespDouble(pub Vec<u8>);

impl View for RespDouble {
    type V = Seq<u8>;

    open spec fn view(&self) -> Seq<u8> {
        self.0@
    }
}

impl RespDouble {
    /// The double frame with the text `text`, if that is the text of a number.
    pub fn new(text: Vec<u8>) -> (r: Option<Self>)
        ensures
            r is Some <==> is_double_text(text@),
            r is Some ==> r->0@ == text@,
    {
        if is_double(text.as_slice()) {
            Some(RespDouble(text))
        } else {
            None
        }
    }
}

impl RespEncode for RespDouble {
    open spec fn value(&self) -> Value {
        Value::Double(self@)
    }

    fn encode(self) -> (out: Vec<u8>) {
        let mut out: Vec<u8> = Vec::new();
        push_line(44u8, self.0.as_slice(), &mut out);
        out
    }
}

impl RespDecode for RespDouble {
    const PREFIX: &'static str = ",";

    open spec fn grammar(bytes: Seq<u8>) -> Result<(Self::V, nat), Failure> {
        decode_double(bytes)
    }

    open spec fn length_grammar(bytes: Seq<u8>) -> Result<nat, Failure> {
        line_length(bytes, 44)
    }

    fn decode(buf: &mut BytesMut) -> (r: Result<Self, RespError>) {
        let (value, n) = match decimal(buffer_bytes(buf)) {
            Ok(read) => read,
            Err(e) => {
                return Err(e);
            },
        };
        buffer_advance(buf, n);
        Ok(value)
    }

    fn expect_length(buf: &[u8]) -> (r: Result<usize, RespError>) {
        proof {
            lemma_marker_bytes();
        }
        line_len(buf, ",")
    }
}

} // verus!
