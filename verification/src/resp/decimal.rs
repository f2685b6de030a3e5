//! Decimal text of integers, as it appears in length headers and integer frames.

use vstd::prelude::*;

verus! {

/// The byte is one of the ASCII digits `0` to `9`.
pub open spec fn is_digit(b: u8) -> bool {
    48 <= b <= 57
}

/// The byte is an ASCII plus or minus sign.
pub open spec fn is_sign(b: u8) -> bool {
    b == 43 || b == 45
}

/// Every byte of the text is an ASCII digit.
pub open spec fn all_digits(s: Seq<u8>) -> bool {
    forall|i: int| 0 <= i < s.len() ==> is_digit(#[trigger] s[i])
}

/// The number that a run of digits denotes, most significant digit first.
pub open spec fn digits_value(s: Seq<u8>) -> nat
    decreases s.len(),
{
    if s.len() == 0 {
        0
    } else {
        digits_value(s.drop_last()) * 10 + (s.last() - 48) as nat
    }
}

/// The canonical digits of a natural number: no leading zero, `0` for zero.
pub open spec fn nat_digits(n: nat) -> Seq<u8>
    decreases n,
{
    if n < 10 {
        seq![(48 + n) as u8]
    } else {
        nat_digits(n / 10).push((48 + n % 10) as u8)
    }
}

/// The canonical text of an integer: a minus sign for negatives, never a plus sign.
pub open spec fn int_text(i: int) -> Seq<u8> {
    if i < 0 {
        seq![45u8] + nat_digits((-i) as nat)
    } else {
        nat_digits(i as nat)
    }
}

/// The integer that a text denotes: an optional sign followed by at least one
/// digit and nothing else. Any other text denotes nothing.
pub open spec fn int_value(s: Seq<u8>) -> Option<int> {
    if s.len() > 0 && is_sign(s[0]) {
        let digits = s.skip(1);
        if digits.len() > 0 && all_digits(digits) {
            if s[0] == 45 {
                Some(-(digits_value(digits) as int))
            } else {
                Some(digits_value(digits) as int)
            }
        } else {
            None
        }
    } else if s.len() > 0 && all_digits(s) {
        Some(digits_value(s) as int)
    } else {
        None
    }
}

/// The 64-bit signed integer that a text denotes, if it denotes an integer in range.
pub open spec fn i64_value(s: Seq<u8>) -> Option<i64> {
    match int_value(s) {
        Some(v) => if i64::MIN <= v <= i64::MAX {
            Some(v as i64)
        } else {
            None
        },
        None => None,
    }
}

/// Canonical digits are digits, at least one of them, and denote the number
/// they were made from.
pub proof fn lemma_nat_digits(n: nat)
    ensures
        nat_digits(n).len() > 0,
        all_digits(nat_digits(n)),
        digits_value(nat_digits(n)) == n,
    decreases n,
{
    if n < 10 {
        let s = nat_digits(n);
        assert(s.drop_last() =~= Seq::<u8>::empty());
        assert(digits_value(s.drop_last()) == 0);
    } else {
        lemma_nat_digits(n / 10);
        let s = nat_digits(n);
        assert(s.drop_last() =~= nat_digits(n / 10));
        assert(s.last() == (48 + n % 10) as u8);
    }
}

/// The canonical text of an integer denotes that integer.
pub proof fn lemma_int_text(i: int)
    ensures
        int_value(int_text(i)) == Some(i),
        int_text(i).len() > 0,
        forall|k: int| 0 <= k < int_text(i).len() ==> is_digit(#[trigger] int_text(i)[k]) || (k == 0 && int_text(i)[k] == 45),
{
    if i < 0 {
        let n = (-i) as nat;
        lemma_nat_digits(n);
        let s = int_text(i);
        assert(s.skip(1) =~= nat_digits(n));
        assert(s[0] == 45);
        assert forall|k: int| 0 <= k < s.len() implies is_digit(#[trigger] s[k]) || (k == 0 && s[k] == 45) by {
            if k > 0 {
                assert(s[k] == nat_digits(n)[k - 1]);
            }
        }
    } else {
        lemma_nat_digits(i as nat);
        let s = int_text(i);
        assert(is_digit(s[0]));
    }
}

/// Appends the canonical digits of `n` to `out`.
pub fn push_digits(n: u64, out: &mut Vec<u8>)
    ensures
        final(out)@ == old(out)@ + nat_digits(n as nat),
    decreases n,
{
    if n >= 10 {
        push_digits(n / 10, out);
    }
    let digit: u8 = (48 + n % 10) as u8;
    out.push(digit);
    proof {
        if n >= 10 {
            assert(final(out)@ =~= old(out)@ + nat_digits(n as nat));
        } else {
            assert(final(out)@ =~= old(out)@ + nat_digits(n as nat));
        }
    }
}

/// Appends the canonical text of `value` to `out`.
pub fn push_i64(value: i64, out: &mut Vec<u8>)
    ensures
        final(out)@ == old(out)@ + int_text(value as int),
{
    if value < 0 {
        out.push(45u8);
        let magnitude: u64 = (-(value + 1)) as u64 + 1;
        push_digits(magnitude, out);
        assert(final(out)@ =~= old(out)@ + int_text(value as int));
    } else {
        push_digits(value as u64, out);
    }
}

/// Reads a signed decimal integer that fills the whole text.
pub fn parse_i64(text: &[u8]) -> (r: Option<i64>)
    ensures
        r == i64_value(text@),
{
    let n: usize = text.len();
    if n == 0 {
        return None;
    }
    let negative: bool = text[0] == 45u8;
    let start: usize = if text[0] == 45u8 || text[0] == 43u8 {
        1
    } else {
        0
    };
    if start == n {
        return None;
    }
    let ghost digits = text@.skip(start as int);
    proof {
        if start == 0 {
            assert(digits =~= text@);
        }
    }
    let limit: u64 = 9223372036854775808u64;
    let mut acc: u64 = 0;
    let mut over: bool = false;
    let mut i: usize = start;
    while i < n
        invariant
            start <= i <= n,
            n == text@.len(),
            digits == text@.skip(start as int),
            start == 0 ==> digits == text@,
            start == 1 <==> is_sign(text@[0]),
            start <= 1,
            negative <==> text@[0] == 45,
            limit == 9223372036854775808u64,
            all_digits(digits.take(i - start)),
            !over ==> acc as nat == digits_value(digits.take(i - start)) && acc <= limit,
            over ==> digits_value(digits.take(i - start)) > limit,
        decreases n - i,
    {
        let b: u8 = text[i];
        if b < 48u8 || b > 57u8 {
            proof {
                assert(digits[i - start] == b);
                assert(!all_digits(digits));
            }
            return None;
        }
        let d: u64 = (b - 48u8) as u64;
        proof {
            let next = digits.take(i - start + 1);
            assert(next.drop_last() =~= digits.take(i - start));
            assert(next.last() == b);
            assert forall|k: int| 0 <= k < next.len() implies is_digit(#[trigger] next[k]) by {
                if k < i - start {
                    assert(next[k] == digits.take(i - start)[k]);
                }
            }
        }
        if over || acc > 922337203685477580u64 {
            over = true;
        } else {
            acc = acc * 10 + d;
            if acc > limit {
                over = true;
            }
        }
        i += 1;
    }
    proof {
        assert(digits.take(n - start) =~= digits);
    }
    if over {
        None
    } else if negative {
        if acc == limit {
            Some(i64::MIN)
        } else {
            Some(-(acc as i64))
        }
    } else if acc == limit {
        None
    } else {
        Some(acc as i64)
    }
}

} // verus!
