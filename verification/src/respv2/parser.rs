//! The reader of the wire format: it measures and builds frames from a slice
//! of bytes and never takes bytes away from it.

use vstd::prelude::*;
use vstd::slice::{slice_subrange, slice_to_vec};
use vstd::string::StringSliceAdditionalSpecFns;
use crate::resp::{
    agrees, agrees_length, calc_total_length, extract_simple_frame_data, lemma_marker_bytes,
    length_error, parse_length, starts_with, RespError,
};
use crate::resp::array::RespArray;
use crate::resp::bulk_string::BulkString;
use crate::resp::decimal::parse_i64;
use crate::resp::double::{is_double, RespDouble};
use crate::resp::frame::{items_value, RespFrame};
use crate::resp::grammar::{
    aggregate_length, bulk_length, decode_array, decode_boolean, decode_bulk, decode_double,
    decode_frame, decode_integer, decode_items, decode_map, decode_null, decode_pairs, decode_set,
    decode_text, entry_length, fixed_data, frame_length, is_absent, lemma_decode_items_step,
    lemma_decode_pairs_step, line_length, shifted, Failure,
};
use crate::resp::laws::decoded_is_well_formed;
use crate::resp::map::RespMap;
use crate::resp::model::{well_formed, Value};
use crate::resp::null::RespNull;
use crate::resp::set::RespSet;
use crate::resp::simple_error::SimpleError;
use crate::resp::simple_string::SimpleString;
use crate::resp::text::text_from_utf8;

verus! {

/// Measures a frame that is one line with the marker `prefix`.
pub(crate) fn line_len(input: &[u8], prefix: &str) -> (r: Result<usize, RespError>)
    requires
        prefix.spec_bytes().len() == 1,
    ensures
        agrees_length(r, line_length(input@, prefix.spec_bytes()[0])),
{
    assert(prefix.spec_bytes() =~= seq![prefix.spec_bytes()[0]]);
    match extract_simple_frame_data(input, prefix) {
        Ok(end) => Ok(end + 2),
        Err(e) => Err(e),
    }
}

/// Tells whether `input` opens with the absent bulk string or array of the marker `mark`.
pub fn opens_absent(input: &[u8], mark: u8) -> (r: bool)
    ensures
        r == is_absent(input@, mark),
{
    let pattern: [u8; 5] = [mark, 45u8, 49u8, 13u8, 10u8];
    assert(pattern@ =~= seq![mark, 45u8, 49u8, 13u8, 10u8]);
    let r = starts_with(input, pattern.as_slice());
    assert(input@.len() >= 5 ==> input@.take(5) =~= input@.subrange(0, 5));
    r
}

/// Measures a bulk string frame: its header, its bytes and its terminator,
/// whether or not the bytes have come.
pub fn bulk_string_len(input: &[u8]) -> (r: Result<usize, RespError>)
    ensures
        agrees_length(r, bulk_length(input@)),
{
    if opens_absent(input, 36u8) {
        return Ok(5);
    }
    proof {
        lemma_marker_bytes();
    }
    let (end, len) = match parse_length(input, "$") {
        Ok(header) => header,
        Err(e) => {
            return Err(e);
        },
    };
    if len > usize::MAX - 4 || end > usize::MAX - 4 - len {
        return Err(length_error(len));
    }
    Ok(end + 2 + len + 2)
}

/// Measures an array frame.
pub fn array_len(input: &[u8]) -> (r: Result<usize, RespError>)
    ensures
        agrees_length(r, aggregate_length(input@, 42)),
    decreases input@.len(), 1nat,
{
    if opens_absent(input, 42u8) {
        return Ok(5);
    }
    proof {
        lemma_marker_bytes();
    }
    let (end, len) = match parse_length(input, "*") {
        Ok(header) => header,
        Err(e) => {
            return Err(e);
        },
    };
    calc_total_length(input, end, len, "*")
}

/// Measures a set frame.
pub fn set_len(input: &[u8]) -> (r: Result<usize, RespError>)
    ensures
        agrees_length(r, aggregate_length(input@, 126)),
    decreases input@.len(), 1nat,
{
    proof {
        lemma_marker_bytes();
    }
    let (end, len) = match parse_length(input, "~") {
        Ok(header) => header,
        Err(e) => {
            return Err(e);
        },
    };
    calc_total_length(input, end, len, "~")
}

/// Measures a map frame.
pub fn map_len(input: &[u8]) -> (r: Result<usize, RespError>)
    ensures
        agrees_length(r, aggregate_length(input@, 37)),
    decreases input@.len(), 1nat,
{
    proof {
        lemma_marker_bytes();
    }
    let (end, len) = match parse_length(input, "%") {
        Ok(header) => header,
        Err(e) => {
            return Err(e);
        },
    };
    calc_total_length(input, end, len, "%")
}

/// Measures the entry that opens `input`: a frame, or in a map (`keyed`) a
/// key line and the frame behind it.
pub fn entry_len(input: &[u8], keyed: bool) -> (r: Result<usize, RespError>)
    ensures
        agrees_length(r, entry_length(input@, keyed)),
    decreases input@.len(), 3nat,
{
    if !keyed {
        return parse_frame_length(input);
    }
    proof {
        lemma_marker_bytes();
    }
    let key: usize = match line_len(input, "+") {
        Ok(key) => key,
        Err(e) => {
            return Err(e);
        },
    };
    if key > input.len() {
        return Err(RespError::NotComplete);
    }
    let rest = slice_subrange(input, key, input.len());
    assert(rest@ == input@.skip(key as int));
    match parse_frame_length(rest) {
        Ok(n) => if n > input.len() - key {
            Err(RespError::NotComplete)
        } else {
            Ok(key + n)
        },
        Err(e) => Err(e),
    }
}

/// Measures the frame that opens `input`: the number of bytes that the whole
/// frame takes. Nothing is built and nothing is taken from `input`.
pub fn parse_frame_length(input: &[u8]) -> (r: Result<usize, RespError>)
    ensures
        agrees_length(r, frame_length(input@)),
    decreases input@.len(), 2nat,
{
    if input.len() == 0 {
        return Err(RespError::NotComplete);
    }
    let mark: u8 = input[0];
    proof {
        lemma_marker_bytes();
    }
    if mark == 43u8 {
        line_len(input, "+")
    } else if mark == 45u8 {
        line_len(input, "-")
    } else if mark == 58u8 {
        line_len(input, ":")
    } else if mark == 44u8 {
        line_len(input, ",")
    } else if mark == 36u8 {
        bulk_string_len(input)
    } else if mark == 95u8 {
        Ok(3)
    } else if mark == 35u8 {
        Ok(4)
    } else if mark == 42u8 {
        array_len(input)
    } else if mark == 126u8 {
        set_len(input)
    } else if mark == 37u8 {
        map_len(input)
    } else {
        Err(RespError::invalid_frame_type())
    }
}

/// Reads a line of text with the marker `prefix`: the text and the bytes the line takes.
pub(crate) fn parse_string(input: &[u8], prefix: &str) -> (r: Result<(String, usize), RespError>)
    requires
        prefix.spec_bytes().len() == 1,
    ensures
        agrees(r, decode_text(input@, prefix.spec_bytes()[0])),
        r is Ok ==> r->Ok_0.1 <= input@.len(),
{
    assert(prefix.spec_bytes() =~= seq![prefix.spec_bytes()[0]]);
    let end: usize = match extract_simple_frame_data(input, prefix) {
        Ok(end) => end,
        Err(e) => {
            return Err(e);
        },
    };
    let bytes = slice_to_vec(slice_subrange(input, 1, end));
    match text_from_utf8(bytes) {
        Ok(text) => Ok((text, end + 2)),
        Err(_) => Err(RespError::invalid_frame()),
    }
}

/// Reads a simple string frame.
pub fn simple_string(input: &[u8]) -> (r: Result<(SimpleString, usize), RespError>)
    ensures
        agrees(r, decode_text(input@, 43)),
        r is Ok ==> r->Ok_0.1 <= input@.len(),
{
    proof {
        lemma_marker_bytes();
    }
    match parse_string(input, "+") {
        Ok((text, n)) => Ok((SimpleString(text), n)),
        Err(e) => Err(e),
    }
}

/// Reads a simple error frame.
pub fn error(input: &[u8]) -> (r: Result<(SimpleError, usize), RespError>)
    ensures
        agrees(r, decode_text(input@, 45)),
        r is Ok ==> r->Ok_0.1 <= input@.len(),
{
    proof {
        lemma_marker_bytes();
    }
    match parse_string(input, "-") {
        Ok((text, n)) => Ok((SimpleError(text), n)),
        Err(e) => Err(e),
    }
}

/// Reads an integer frame.
pub fn integer(input: &[u8]) -> (r: Result<(i64, usize), RespError>)
    ensures
        agrees(r, decode_integer(input@)),
        r is Ok ==> r->Ok_0.1 <= input@.len(),
{
    proof {
        lemma_marker_bytes();
    }
    let end: usize = match extract_simple_frame_data(input, ":") {
        Ok(end) => end,
        Err(e) => {
            return Err(e);
        },
    };
    match parse_i64(slice_subrange(input, 1, end)) {
        Some(value) => Ok((value, end + 2)),
        None => Err(RespError::parse_int_error()),
    }
}

/// Reads a double frame and keeps the text of the number.
pub fn decimal(input: &[u8]) -> (r: Result<(RespDouble, usize), RespError>)
    ensures
        agrees(r, decode_double(input@)),
        r is Ok ==> r->Ok_0.1 <= input@.len(),
{
    proof {
        lemma_marker_bytes();
    }
    let end: usize = match extract_simple_frame_data(input, ",") {
        Ok(end) => end,
        Err(e) => {
            return Err(e);
        },
    };
    let text = slice_subrange(input, 1, end);
    if is_double(text) {
        Ok((RespDouble(slice_to_vec(text)), end + 2))
    } else {
        Err(RespError::parse_float_error())
    }
}

/// Tells whether `input` opens with exactly the bytes `expect`, and says
/// that more bytes are needed where it holds fewer than those.
pub fn expect_fixed(input: &[u8], expect: &[u8]) -> (r: Result<(), RespError>)
    ensures
        match r {
            Ok(_) => fixed_data(input@, expect@) is Ok,
            Err(e) => fixed_data(input@, expect@) is Err && e.reports(
                fixed_data(input@, expect@)->Err_0,
            ),
        },
{
    if input.len() < expect.len() {
        return Err(RespError::NotComplete);
    }
    if !starts_with(input, expect) {
        return Err(RespError::invalid_frame_type());
    }
    Ok(())
}

/// Reads a null frame.
pub fn null(input: &[u8]) -> (r: Result<(RespNull, usize), RespError>)
    ensures
        agrees(r, decode_null(input@)),
        r is Ok ==> r->Ok_0.1 <= input@.len(),
{
    let pattern: [u8; 3] = [95u8, 13u8, 10u8];
    assert(pattern@ =~= seq![95u8, 13u8, 10u8]);
    match expect_fixed(input, pattern.as_slice()) {
        Ok(_) => Ok((RespNull, 3)),
        Err(e) => Err(e),
    }
}

/// Reads a boolean frame.
pub fn boolean(input: &[u8]) -> (r: Result<(bool, usize), RespError>)
    ensures
        agrees(r, decode_boolean(input@)),
        r is Ok ==> r->Ok_0.1 <= input@.len(),
{
    let yes: [u8; 4] = [35u8, 116u8, 13u8, 10u8];
    let no: [u8; 4] = [35u8, 102u8, 13u8, 10u8];
    assert(yes@ =~= seq![35u8, 116u8, 13u8, 10u8]);
    assert(no@ =~= seq![35u8, 102u8, 13u8, 10u8]);
    match expect_fixed(input, yes.as_slice()) {
        Ok(_) => Ok((true, 4)),
        Err(_) => match expect_fixed(input, no.as_slice()) {
            Ok(_) => Ok((false, 4)),
            Err(e) => Err(e),
        },
    }
}

/// Reads a bulk string frame, the absent one included. The two bytes behind
/// the data are taken for the line terminator without a look at them.
pub fn bulk_string(input: &[u8]) -> (r: Result<(BulkString, usize), RespError>)
    ensures
        agrees(r, decode_bulk(input@)),
        r is Ok ==> r->Ok_0.1 <= input@.len(),
{
    if opens_absent(input, 36u8) {
        return Ok((BulkString(None), 5));
    }
    proof {
        lemma_marker_bytes();
    }
    let (end, len) = match parse_length(input, "$") {
        Ok(header) => header,
        Err(e) => {
            return Err(e);
        },
    };
    let remained: usize = input.len() - (end + 2);
    if remained < 2 || remained - 2 < len {
        return Err(RespError::NotComplete);
    }
    let data = slice_to_vec(slice_subrange(input, end + 2, end + 2 + len));
    Ok((BulkString(Some(data)), end + 2 + len + 2))
}

/// Reads `len` frames from `input`, starting at `start`.
fn items(input: &[u8], start: usize, len: usize) -> (r: Result<(Vec<RespFrame>, usize), RespError>)
    requires
        1 <= start <= input@.len(),
    ensures
        match r {
            Ok((frames, end)) => shifted(
                decode_items(input@.skip(start as int), len as nat, Seq::empty()),
                start as nat,
            ) == Ok::<(Seq<Value>, nat), Failure>((items_value(frames), end as nat)),
            Err(e) => decode_items(input@.skip(start as int), len as nat, Seq::empty()) is Err
                && e.reports(
                decode_items(input@.skip(start as int), len as nat, Seq::empty())->Err_0,
            ),
        },
        r is Ok ==> r->Ok_0.1 <= input@.len(),
    decreases input@.len(), 0nat,
{
    let ghost goal = decode_items(input@.skip(start as int), len as nat, Seq::empty());
    let mut frames: Vec<RespFrame> = Vec::new();
    let mut pos: usize = start;
    let mut k: usize = 0;
    assert(items_value(frames) =~= Seq::<Value>::empty());
    while k < len
        invariant
            k <= len,
            1 <= start <= pos <= input@.len(),
            goal == decode_items(input@.skip(start as int), len as nat, Seq::empty()),
            goal == shifted(
                decode_items(input@.skip(pos as int), (len - k) as nat, items_value(frames)),
                (pos - start) as nat,
            ),
        decreases len - k,
    {
        let rest = slice_subrange(input, pos, input.len());
        assert(rest@ == input@.skip(pos as int));
        proof {
            lemma_decode_items_step(rest@, (len - k) as nat, items_value(frames));
        }
        let (frame, used) = match parse_frame(rest) {
            Ok(read) => read,
            Err(e) => {
                return Err(e);
            },
        };
        if used > input.len() - pos {
            return Err(RespError::NotComplete);
        }
        let ghost before = items_value(frames);
        frames.push(frame);
        assert(items_value(frames) =~= before.push(frame@));
        assert(input@.skip(pos as int).skip(used as int) =~= input@.skip(pos + used));
        pos = pos + used;
        k += 1;
    }
    proof {
        lemma_decode_items_step(input@.skip(pos as int), 0, items_value(frames));
    }
    Ok((frames, pos))
}

/// Reads an array frame. The absent array and the array of no frames both
/// give the array of no frames.
pub fn array(input: &[u8]) -> (r: Result<(RespArray, usize), RespError>)
    ensures
        agrees(r, decode_array(input@)),
        r is Ok ==> r->Ok_0.1 <= input@.len(),
    decreases input@.len(), 1nat,
{
    if opens_absent(input, 42u8) {
        let none = RespArray(Vec::new());
        assert(none@ =~= Seq::<Value>::empty());
        return Ok((none, 5));
    }
    proof {
        lemma_marker_bytes();
    }
    let (end, len) = match parse_length(input, "*") {
        Ok(header) => header,
        Err(e) => {
            return Err(e);
        },
    };
    match calc_total_length(input, end, len, "*") {
        Ok(_) => {},
        Err(e) => {
            return Err(e);
        },
    }
    match items(input, end + 2, len) {
        Ok((frames, n)) => Ok((RespArray(frames), n)),
        Err(e) => Err(e),
    }
}

/// Reads a set frame.
pub fn set(input: &[u8]) -> (r: Result<(RespSet, usize), RespError>)
    ensures
        agrees(r, decode_set(input@)),
        r is Ok ==> r->Ok_0.1 <= input@.len(),
    decreases input@.len(), 1nat,
{
    proof {
        lemma_marker_bytes();
    }
    let (end, len) = match parse_length(input, "~") {
        Ok(header) => header,
        Err(e) => {
            return Err(e);
        },
    };
    match calc_total_length(input, end, len, "~") {
        Ok(_) => {},
        Err(e) => {
            return Err(e);
        },
    }
    match items(input, end + 2, len) {
        Ok((frames, n)) => Ok((RespSet(frames), n)),
        Err(e) => Err(e),
    }
}

/// Reads a map frame. A key that comes twice keeps the frame that came last.
pub fn map(input: &[u8]) -> (r: Result<(RespMap, usize), RespError>)
    ensures
        agrees(r, decode_map(input@)),
        r is Ok ==> r->Ok_0.1 <= input@.len(),
    decreases input@.len(), 1nat,
{
    proof {
        lemma_marker_bytes();
    }
    let (end, len) = match parse_length(input, "%") {
        Ok(header) => header,
        Err(e) => {
            return Err(e);
        },
    };
    match calc_total_length(input, end, len, "%") {
        Ok(_) => {},
        Err(e) => {
            return Err(e);
        },
    }
    let start: usize = end + 2;
    let ghost goal = decode_pairs(input@.skip(start as int), len as nat, Seq::empty());
    assert(decode_map(input@) == shifted(goal, start as nat));
    let mut pairs = RespMap::new();
    let mut pos: usize = start;
    let mut k: usize = 0;
    while k < len
        invariant
            k <= len,
            1 <= start <= pos <= input@.len(),
            decode_map(input@) == shifted(goal, start as nat),
            goal == shifted(
                decode_pairs(input@.skip(pos as int), (len - k) as nat, pairs@),
                (pos - start) as nat,
            ),
        decreases len - k,
    {
        let rest = slice_subrange(input, pos, input.len());
        assert(rest@ == input@.skip(pos as int));
        proof {
            lemma_marker_bytes();
            lemma_decode_pairs_step(rest@, (len - k) as nat, pairs@);
        }
        let (key, key_len) = match parse_string(rest, "+") {
            Ok(read) => read,
            Err(e) => {
                return Err(e);
            },
        };
        if key_len > rest.len() {
            return Err(RespError::NotComplete);
        }
        let behind = slice_subrange(rest, key_len, rest.len());
        assert(behind@ == rest@.skip(key_len as int));
        let (frame, used) = match parse_frame(behind) {
            Ok(read) => read,
            Err(e) => {
                return Err(e);
            },
        };
        if used > rest.len() - key_len {
            return Err(RespError::NotComplete);
        }
        pairs.insert(key, frame);
        assert(input@.skip(pos as int).skip(key_len + used) =~= input@.skip(pos + key_len + used));
        pos = pos + key_len + used;
        k += 1;
    }
    proof {
        lemma_decode_pairs_step(input@.skip(pos as int), 0, pairs@);
    }
    Ok((pairs, pos))
}

/// Reads the frame that opens `input`. Returns the frame and the number of
/// bytes it takes; nothing is taken from `input`.
pub fn parse_frame(input: &[u8]) -> (r: Result<(RespFrame, usize), RespError>)
    ensures
        agrees(r, decode_frame(input@)),
        r is Ok ==> r->Ok_0.1 <= input@.len(),
        r is Ok ==> well_formed(r->Ok_0.0@),
        r is Ok ==> frame_length(input@) == Ok::<nat, Failure>(r->Ok_0.1 as nat),
    decreases input@.len(), 2nat,
{
    if input.len() == 0 {
        return Err(RespError::NotComplete);
    }
    proof {
        decoded_is_well_formed(input@);
    }
    let mark: u8 = input[0];
    if mark == 43u8 {
        match simple_string(input) {
            Ok((x, n)) => Ok((RespFrame::SimpleString(x), n)),
            Err(e) => Err(e),
        }
    } else if mark == 45u8 {
        match error(input) {
            Ok((x, n)) => Ok((RespFrame::Error(x), n)),
            Err(e) => Err(e),
        }
    } else if mark == 58u8 {
        match integer(input) {
            Ok((x, n)) => Ok((RespFrame::Integer(x), n)),
            Err(e) => Err(e),
        }
    } else if mark == 44u8 {
        match decimal(input) {
            Ok((x, n)) => Ok((RespFrame::Double(x), n)),
            Err(e) => Err(e),
        }
    } else if mark == 36u8 {
        match bulk_string(input) {
            Ok((x, n)) => Ok((RespFrame::BulkString(x), n)),
            Err(e) => Err(e),
        }
    } else if mark == 95u8 {
        match null(input) {
            Ok((x, n)) => Ok((RespFrame::Null(x), n)),
            Err(e) => Err(e),
        }
    } else if mark == 35u8 {
        match boolean(input) {
            Ok((x, n)) => Ok((RespFrame::Boolean(x), n)),
            Err(e) => Err(e),
        }
    } else if mark == 42u8 {
        match array(input) {
            Ok((x, n)) => Ok((RespFrame::Array(x), n)),
            Err(e) => Err(e),
        }
    } else if mark == 126u8 {
        match set(input) {
            Ok((x, n)) => Ok((RespFrame::RespSet(x), n)),
            Err(e) => Err(e),
        }
    } else if mark == 37u8 {
        match map(input) {
            Ok((x, n)) => Ok((RespFrame::RespMap(x), n)),
            Err(e) => Err(e),
        }
    } else {
        Err(RespError::invalid_frame_type())
    }
}

} // verus!
