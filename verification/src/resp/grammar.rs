//! The grammar of the wire format: what a run of bytes means as a frame.
//!
//! Reading a frame takes two steps. The first measures the frame without
//! building it (`frame_length`), the second builds it (`decode_frame`), and
//! both tell bytes that are not yet enough from bytes that are wrong.
//!
//! Bytes are written as numbers here. The markers are `+` 43, `-` 45, `:` 58,
//! `$` 36, `*` 42, `_` 95, `#` 35, `,` 44, `%` 37 and `~` 126; the line
//! terminator is 13 and 10; `t` is 116, `f` is 102 and `1` is 49.

use vstd::prelude::*;
use vstd::utf8::{decode_utf8, valid_utf8};
use crate::resp::decimal::i64_value;
use crate::resp::double::is_double_text;
use crate::resp::model::{key_lt, Value};

verus! {

/// Why a run of bytes gives no frame.
pub enum Failure {
    /// The bytes are right so far, and more are needed.
    NotComplete,
    /// The content of the frame is not what its kind asks for.
    InvalidFrame,
    /// The bytes do not open with the expected marker.
    InvalidFrameType,
    /// The length in a header is negative or too large; the length comes with it,
    /// cut to what a machine word holds.
    InvalidFrameLength(int),
    /// A length or an integer is not a decimal integer of 64 bits.
    ParseInt,
    /// The text of a double is not a number.
    ParseFloat,
    /// The store could not do what it was asked.
    Internal,
}

/// The length `n`, cut to the range of a signed machine word.
pub open spec fn clipped(n: int) -> int {
    if n < isize::MIN {
        isize::MIN as int
    } else if n > isize::MAX {
        isize::MAX as int
    } else {
        n
    }
}

/// The index of the first line terminator that starts at `from` or later.
pub open spec fn first_crlf(s: Seq<u8>, from: int) -> Option<int>
    decreases s.len() - from,
{
    if from < 0 || from + 1 >= s.len() {
        None
    } else if s[from] == 13 && s[from + 1] == 10 {
        Some(from)
    } else {
        first_crlf(s, from + 1)
    }
}

/// The index of the terminator of the line that opens `s`, which must start
/// with `prefix`. The search starts behind the first byte.
pub open spec fn line_end(s: Seq<u8>, prefix: Seq<u8>) -> Result<int, Failure> {
    if s.len() < 3 {
        Err(Failure::NotComplete)
    } else if !prefix.is_prefix_of(s) {
        Err(Failure::InvalidFrameType)
    } else {
        match first_crlf(s, 1) {
            Some(end) => Ok(end),
            None => Err(Failure::NotComplete),
        }
    }
}

/// The text of a line between its prefix and its terminator at `end`.
pub open spec fn line_text(s: Seq<u8>, prefix: Seq<u8>, end: int) -> Seq<u8> {
    if prefix.len() <= end <= s.len() {
        s.subrange(prefix.len() as int, end)
    } else {
        Seq::empty()
    }
}

/// The header line of a frame with a length: the index of its terminator and
/// the length it announces.
pub open spec fn length_header(s: Seq<u8>, prefix: Seq<u8>) -> Result<(int, nat), Failure> {
    match line_end(s, prefix) {
        Err(e) => Err(e),
        Ok(end) => match i64_value(line_text(s, prefix, end)) {
            None => Err(Failure::ParseInt),
            Some(n) => if n < 0 || n > usize::MAX {
                Err(Failure::InvalidFrameLength(clipped(n as int)))
            } else {
                Ok((end, n as nat))
            },
        },
    }
}

/// The length of a frame that is one line with the marker `mark`.
pub open spec fn line_length(s: Seq<u8>, mark: u8) -> Result<nat, Failure> {
    match line_end(s, seq![mark]) {
        Err(e) => Err(e),
        Ok(end) => Ok((end + 2) as nat),
    }
}

/// The bytes open with the five bytes of an absent bulk string or array.
pub open spec fn is_absent(s: Seq<u8>, mark: u8) -> bool {
    s.len() >= 5 && s.take(5) == seq![mark, 45u8, 49u8, 13u8, 10u8]
}

/// The length of a bulk string frame.
pub open spec fn bulk_length(s: Seq<u8>) -> Result<nat, Failure> {
    if is_absent(s, 36) {
        Ok(5)
    } else {
        match length_header(s, seq![36u8]) {
            Err(e) => Err(e),
            Ok((end, n)) => if end + 2 + n + 2 > usize::MAX {
                Err(Failure::InvalidFrameLength(clipped(n as int)))
            } else {
                Ok((end + 2 + n + 2) as nat)
            },
        }
    }
}

/// The length of a frame whose header ends at `end` and announces `n`
/// items (for the array and set markers) or pairs (for the map marker). For
/// any other marker it is the announced length and a line terminator.
pub open spec fn total_length(s: Seq<u8>, end: int, n: nat, mark: Seq<u8>) -> Result<nat, Failure>
    decreases s.len(), 0nat,
{
    if mark == seq![42u8] || mark == seq![126u8] || mark == seq![37u8] {
        if 0 <= end && end + 2 <= s.len() {
            plus(entries_length(s.skip(end + 2), n, mark == seq![37u8]), (end + 2) as nat)
        } else {
            Err(Failure::NotComplete)
        }
    } else if n + 2 > usize::MAX {
        Err(Failure::InvalidFrameLength(clipped(n as int)))
    } else {
        Ok(n + 2)
    }
}

/// The length of an array, set or map frame, by its marker.
pub open spec fn aggregate_length(s: Seq<u8>, mark: u8) -> Result<nat, Failure>
    decreases s.len(), 1nat,
{
    if mark == 42 && is_absent(s, 42) {
        Ok(5)
    } else if mark == 42 || mark == 126 || mark == 37 {
        match length_header(s, seq![mark]) {
            Err(e) => Err(e),
            Ok((end, n)) => total_length(s, end, n, seq![mark]),
        }
    } else {
        Err(Failure::InvalidFrameType)
    }
}

/// The length of the frame that opens `s`, however much of its body is there.
/// A frame nested in another one must lie within the bytes at hand.
pub open spec fn frame_length(s: Seq<u8>) -> Result<nat, Failure>
    decreases s.len(), 2nat,
{
    if s.len() == 0 {
        Err(Failure::NotComplete)
    } else if s[0] == 43 || s[0] == 45 || s[0] == 58 || s[0] == 44 {
        // A simple string, a simple error, an integer or a double: one line.
        line_length(s, s[0])
    } else if s[0] == 36 {
        bulk_length(s)
    } else if s[0] == 95 {
        // The null frame.
        Ok(3)
    } else if s[0] == 35 {
        // A boolean.
        Ok(4)
    } else if s[0] == 42 || s[0] == 126 || s[0] == 37 {
        // An array, a set or a map.
        aggregate_length(s, s[0])
    } else {
        Err(Failure::InvalidFrameType)
    }
}

/// A length that grew by `by`.
pub open spec fn plus(r: Result<nat, Failure>, by: nat) -> Result<nat, Failure> {
    match r {
        Ok(n) => Ok(n + by),
        Err(e) => Err(e),
    }
}

/// The length of the entry that opens `s`: a frame, or in a map (`keyed`) a
/// key line and the frame behind it.
pub open spec fn entry_length(s: Seq<u8>, keyed: bool) -> Result<nat, Failure>
    decreases s.len(), 3nat,
{
    if keyed {
        match line_length(s, 43) {
            Err(e) => Err(e),
            Ok(k) => if k > s.len() {
                Err(Failure::NotComplete)
            } else {
                match frame_length(s.skip(k as int)) {
                    Err(e) => Err(e),
                    Ok(n) => if k + n > s.len() {
                        Err(Failure::NotComplete)
                    } else {
                        Ok(k + n)
                    },
                }
            },
        }
    } else {
        frame_length(s)
    }
}

/// The length of `count` entries that follow one another from the start of
/// `s`. Each of them must lie within `s`.
#[verifier::opaque]
pub open spec fn entries_length(s: Seq<u8>, count: nat, keyed: bool) -> Result<nat, Failure>
    decreases s.len(), count + 4,
{
    if count == 0 {
        Ok(0)
    } else {
        match entry_length(s, keyed) {
            Err(e) => Err(e),
            Ok(n) => if n > s.len() {
                Err(Failure::NotComplete)
            } else {
                plus(entries_length(s.skip(n as int), (count - 1) as nat, keyed), n)
            },
        }
    }
}

/// The length of no entries is zero, and the length of some is that of the
/// first and of the rest.
pub proof fn lemma_entries_length_step(s: Seq<u8>, count: nat, keyed: bool)
    ensures
        count == 0 ==> entries_length(s, count, keyed) == Ok::<nat, Failure>(0),
        count > 0 ==> entries_length(s, count, keyed) == match entry_length(s, keyed) {
            Err(e) => Err(e),
            Ok(n) => if n > s.len() {
                Err(Failure::NotComplete)
            } else {
                plus(entries_length(s.skip(n as int), (count - 1) as nat, keyed), n)
            },
        },
{
    reveal(entries_length);
}

/// A result that consumed `by` more bytes.
pub open spec fn shifted<T>(r: Result<(T, nat), Failure>, by: nat) -> Result<(T, nat), Failure> {
    match r {
        Ok((x, n)) => Ok((x, n + by)),
        Err(e) => Err(e),
    }
}

/// A line of text with the marker `mark`: the text and the bytes it takes.
pub open spec fn decode_text(s: Seq<u8>, mark: u8) -> Result<(Seq<char>, nat), Failure> {
    match line_end(s, seq![mark]) {
        Err(e) => Err(e),
        Ok(end) => {
            let text = line_text(s, seq![mark], end);
            if valid_utf8(text) {
                Ok((decode_utf8(text), (end + 2) as nat))
            } else {
                Err(Failure::InvalidFrame)
            }
        },
    }
}

/// An integer frame: its value and the bytes it takes.
pub open spec fn decode_integer(s: Seq<u8>) -> Result<(i64, nat), Failure> {
    match line_end(s, seq![58u8]) {
        Err(e) => Err(e),
        Ok(end) => match i64_value(line_text(s, seq![58u8], end)) {
            None => Err(Failure::ParseInt),
            Some(v) => Ok((v, (end + 2) as nat)),
        },
    }
}

/// A double frame: its text and the bytes it takes.
pub open spec fn decode_double(s: Seq<u8>) -> Result<(Seq<u8>, nat), Failure> {
    match line_end(s, seq![44u8]) {
        Err(e) => Err(e),
        Ok(end) => {
            let text = line_text(s, seq![44u8], end);
            if is_double_text(text) {
                Ok((text, (end + 2) as nat))
            } else {
                Err(Failure::ParseFloat)
            }
        },
    }
}

/// Whether `s` opens with exactly the bytes `expect`.
pub open spec fn fixed_data(s: Seq<u8>, expect: Seq<u8>) -> Result<(), Failure> {
    if s.len() < expect.len() {
        Err(Failure::NotComplete)
    } else if !expect.is_prefix_of(s) {
        Err(Failure::InvalidFrameType)
    } else {
        Ok(())
    }
}

/// A null frame.
pub open spec fn decode_null(s: Seq<u8>) -> Result<((), nat), Failure> {
    match fixed_data(s, seq![95u8, 13u8, 10u8]) {
        Err(e) => Err(e),
        Ok(_) => Ok(((), 3)),
    }
}

/// A boolean frame.
pub open spec fn decode_boolean(s: Seq<u8>) -> Result<(bool, nat), Failure> {
    if fixed_data(s, seq![35u8, 116u8, 13u8, 10u8]) is Ok {
        Ok((true, 4))
    } else {
        match fixed_data(s, seq![35u8, 102u8, 13u8, 10u8]) {
            Err(e) => Err(e),
            Ok(_) => Ok((false, 4)),
        }
    }
}

/// A bulk string frame: its bytes, or none for the absent one, and the bytes
/// it takes. The two bytes behind the data count as its line terminator,
/// whatever they are.
pub open spec fn decode_bulk(s: Seq<u8>) -> Result<(Option<Seq<u8>>, nat), Failure> {
    if is_absent(s, 36) {
        Ok((None, 5))
    } else {
        match length_header(s, seq![36u8]) {
            Err(e) => Err(e),
            Ok((end, n)) => if s.len() - (end + 2) < n + 2 {
                Err(Failure::NotComplete)
            } else {
                Ok((Some(s.subrange(end + 2, end + 2 + n)), (end + 2 + n + 2) as nat))
            },
        }
    }
}

/// The pairs with one more: the new pair takes the place of a pair with an
/// equal key, or else stands before the first pair with a greater key.
pub open spec fn insert_pair(
    pairs: Seq<(Seq<char>, Value)>,
    key: Seq<char>,
    value: Value,
) -> Seq<(Seq<char>, Value)>
    decreases pairs.len(),
{
    if pairs.len() == 0 {
        seq![(key, value)]
    } else if key_lt(pairs[0].0, key) {
        seq![pairs[0]] + insert_pair(pairs.drop_first(), key, value)
    } else if pairs[0].0 == key {
        seq![(key, value)] + pairs.drop_first()
    } else {
        seq![(key, value)] + pairs
    }
}

/// The frame that opens `s`, and the number of bytes it takes.
///
/// An array, a set or a map is measured before it is built, so bytes that
/// end within it are told apart from bytes that are wrong.
pub open spec fn decode_frame(s: Seq<u8>) -> Result<(Value, nat), Failure>
    decreases s.len(), 1nat,
{
    if s.len() == 0 {
        Err(Failure::NotComplete)
    } else if s[0] == 43 {
        match decode_text(s, 43) {
            Err(e) => Err(e),
            Ok((text, n)) => Ok((Value::SimpleString(text), n)),
        }
    } else if s[0] == 45 {
        match decode_text(s, 45) {
            Err(e) => Err(e),
            Ok((text, n)) => Ok((Value::Error(text), n)),
        }
    } else if s[0] == 58 {
        match decode_integer(s) {
            Err(e) => Err(e),
            Ok((v, n)) => Ok((Value::Integer(v), n)),
        }
    } else if s[0] == 44 {
        match decode_double(s) {
            Err(e) => Err(e),
            Ok((text, n)) => Ok((Value::Double(text), n)),
        }
    } else if s[0] == 36 {
        match decode_bulk(s) {
            Err(e) => Err(e),
            Ok((data, n)) => Ok((Value::BulkString(data), n)),
        }
    } else if s[0] == 95 {
        match decode_null(s) {
            Err(e) => Err(e),
            Ok(_) => Ok((Value::Null, 3)),
        }
    } else if s[0] == 35 {
        match decode_boolean(s) {
            Err(e) => Err(e),
            Ok((b, n)) => Ok((Value::Boolean(b), n)),
        }
    } else if s[0] == 42 {
        match decode_array(s) {
            Err(e) => Err(e),
            Ok((items, n)) => Ok((Value::Array(items), n)),
        }
    } else if s[0] == 126 {
        match decode_set(s) {
            Err(e) => Err(e),
            Ok((items, n)) => Ok((Value::RespSet(items), n)),
        }
    } else if s[0] == 37 {
        match decode_map(s) {
            Err(e) => Err(e),
            Ok((pairs, n)) => Ok((Value::RespMap(pairs), n)),
        }
    } else {
        Err(Failure::InvalidFrameType)
    }
}

/// An array frame: its items and the bytes it takes. The absent array and
/// the array of no items are both the empty sequence.
pub open spec fn decode_array(s: Seq<u8>) -> Result<(Seq<Value>, nat), Failure>
    decreases s.len(), 0nat,
{
    if is_absent(s, 42) {
        Ok((Seq::empty(), 5))
    } else {
        match length_header(s, seq![42u8]) {
            Err(e) => Err(e),
            Ok((end, n)) => match total_length(s, end, n, seq![42u8]) {
                Err(e) => Err(e),
                Ok(_) => if 0 <= end && end + 2 <= s.len() {
                    shifted(decode_items(s.skip(end + 2), n, Seq::empty()), (end + 2) as nat)
                } else {
                    Err(Failure::NotComplete)
                },
            },
        }
    }
}

/// A set frame: its items and the bytes it takes.
pub open spec fn decode_set(s: Seq<u8>) -> Result<(Seq<Value>, nat), Failure>
    decreases s.len(), 0nat,
{
    match length_header(s, seq![126u8]) {
        Err(e) => Err(e),
        Ok((end, n)) => match total_length(s, end, n, seq![126u8]) {
            Err(e) => Err(e),
            Ok(_) => if 0 <= end && end + 2 <= s.len() {
                shifted(decode_items(s.skip(end + 2), n, Seq::empty()), (end + 2) as nat)
            } else {
                Err(Failure::NotComplete)
            },
        },
    }
}

/// A map frame: its pairs in ascending order of their keys, a later pair
/// taking the place of an earlier one with the same key, and the bytes it takes.
pub open spec fn decode_map(s: Seq<u8>) -> Result<(Seq<(Seq<char>, Value)>, nat), Failure>
    decreases s.len(), 0nat,
{
    match length_header(s, seq![37u8]) {
        Err(e) => Err(e),
        Ok((end, n)) => match total_length(s, end, n, seq![37u8]) {
            Err(e) => Err(e),
            Ok(_) => if 0 <= end && end + 2 <= s.len() {
                shifted(decode_pairs(s.skip(end + 2), n, Seq::empty()), (end + 2) as nat)
            } else {
                Err(Failure::NotComplete)
            },
        },
    }
}

/// `count` frames read one after the other from the start of `s`, behind the
/// frames `done` that were read before them.
#[verifier::opaque]
pub open spec fn decode_items(s: Seq<u8>, count: nat, done: Seq<Value>) -> Result<
    (Seq<Value>, nat),
    Failure,
>
    decreases s.len(), count + 2,
{
    if count == 0 {
        Ok((done, 0))
    } else {
        match decode_frame(s) {
            Err(e) => Err(e),
            Ok((v, n)) => if n > s.len() {
                Err(Failure::NotComplete)
            } else {
                shifted(decode_items(s.skip(n as int), (count - 1) as nat, done.push(v)), n)
            },
        }
    }
}

/// `count` pairs read one after the other from the start of `s` and put
/// into the pairs `done` that were read before them.
#[verifier::opaque]
pub open spec fn decode_pairs(s: Seq<u8>, count: nat, done: Seq<(Seq<char>, Value)>) -> Result<
    (Seq<(Seq<char>, Value)>, nat),
    Failure,
>
    decreases s.len(), count + 2,
{
    if count == 0 {
        Ok((done, 0))
    } else {
        match decode_text(s, 43) {
            Err(e) => Err(e),
            Ok((key, k)) => if k > s.len() {
                Err(Failure::NotComplete)
            } else {
                match decode_frame(s.skip(k as int)) {
                    Err(e) => Err(e),
                    Ok((v, n)) => if k + n > s.len() {
                        Err(Failure::NotComplete)
                    } else {
                        shifted(
                            decode_pairs(
                                s.skip((k + n) as int),
                                (count - 1) as nat,
                                insert_pair(done, key, v),
                            ),
                            k + n,
                        )
                    },
                }
            },
        }
    }
}

/// Reading no frames gives what was read before; reading some reads the
/// first and then the rest.
pub proof fn lemma_decode_items_step(s: Seq<u8>, count: nat, done: Seq<Value>)
    ensures
        count == 0 ==> decode_items(s, count, done) == Ok::<(Seq<Value>, nat), Failure>((done, 0)),
        count > 0 ==> decode_items(s, count, done) == match decode_frame(s) {
            Err(e) => Err(e),
            Ok((v, n)) => if n > s.len() {
                Err(Failure::NotComplete)
            } else {
                shifted(decode_items(s.skip(n as int), (count - 1) as nat, done.push(v)), n)
            },
        },
{
    reveal(decode_items);
}

/// Reading no pairs gives what was read before; reading some reads the
/// first key and frame and then the rest.
pub proof fn lemma_decode_pairs_step(s: Seq<u8>, count: nat, done: Seq<(Seq<char>, Value)>)
    ensures
        count == 0 ==> decode_pairs(s, count, done) == Ok::<(Seq<(Seq<char>, Value)>, nat), Failure>(
            (done, 0),
        ),
        count > 0 ==> decode_pairs(s, count, done) == match decode_text(s, 43) {
            Err(e) => Err(e),
            Ok((key, k)) => if k > s.len() {
                Err(Failure::NotComplete)
            } else {
                match decode_frame(s.skip(k as int)) {
                    Err(e) => Err(e),
                    Ok((v, n)) => if k + n > s.len() {
                        Err(Failure::NotComplete)
                    } else {
                        shifted(
                            decode_pairs(
                                s.skip((k + n) as int),
                                (count - 1) as nat,
                                insert_pair(done, key, v),
                            ),
                            k + n,
                        )
                    },
                }
            },
        },
{
    reveal(decode_pairs);
}

} // verus!
