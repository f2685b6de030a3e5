//! The frame type system and its wire codec.

pub mod array;
pub mod boolean;
pub mod buffer;
pub mod bulk_string;
pub mod decimal;
pub mod double;
pub mod frame;
pub mod grammar;
pub mod integer;
pub mod laws;
pub mod map;
pub mod model;
pub mod null;
pub mod set;
pub mod simple_error;
pub mod simple_string;
pub mod text;

use vstd::prelude::*;
use vstd::slice::slice_subrange;
use vstd::string::{StringExecFns, StringSliceAdditionalSpecFns};
use bytes::BytesMut;
use crate::resp::buffer::{buffer_advance, buffer_bytes, buffered};
use crate::resp::decimal::{int_text, parse_i64};
use crate::resp::grammar::{
    clipped, entries_length, first_crlf, fixed_data, lemma_entries_length_step, length_header,
    line_end, line_text, plus, total_length, Failure,
};
use crate::resp::model::{wire, Value};
use crate::resp::text::{as_chars, signed_decimal_string};
use crate::respv2::parser::{entry_len, expect_fixed};

verus! {

/// Why reading a frame failed.
#[derive(Debug, PartialEq, Eq)]
pub enum RespError {
    /// The content of the frame is not what its kind asks for.
    InvalidFrame(String),
    /// The bytes do not open with the expected marker.
    InvalidFrameType(String),
    /// The length in a header is negative or too large.
    InvalidFrameLength(isize),
    /// The bytes are right so far, and more are needed. This is no fault of
    /// the sender: the reader waits and tries again.
    NotComplete,
    /// A length or an integer is not a decimal integer of 64 bits.
    ParseIntError(String),
    /// The text of a double is not a number.
    ParseFloatError(String),
    /// The store could not do what it was asked.
    InternalServerError,
}

impl View for RespError {
    type V = Failure;

    open spec fn view(&self) -> Failure {
        match self {
            RespError::InvalidFrame(_) => Failure::InvalidFrame,
            RespError::InvalidFrameType(_) => Failure::InvalidFrameType,
            RespError::InvalidFrameLength(n) => Failure::InvalidFrameLength(*n as int),
            RespError::NotComplete => Failure::NotComplete,
            RespError::ParseIntError(_) => Failure::ParseInt,
            RespError::ParseFloatError(_) => Failure::ParseFloat,
            RespError::InternalServerError => Failure::Internal,
        }
    }
}

impl RespError {
    /// The error carries the fixed words of its kind.
    pub open spec fn described(&self) -> bool {
        match self {
            RespError::InvalidFrame(m) => m@ == "text is not valid UTF-8"@,
            RespError::InvalidFrameType(m) => m@ == "unexpected frame marker"@,
            RespError::ParseIntError(m) => m@ == "invalid digit found in string"@,
            RespError::ParseFloatError(m) => m@ == "invalid float literal"@,
            _ => true,
        }
    }

    /// The error is the one that stands for the failure `kind`.
    pub open spec fn reports(&self, kind: Failure) -> bool {
        self@ == kind && self.described()
    }

    /// The words of the error, as they are shown to a reader.
    pub open spec fn text(&self) -> Seq<char> {
        match self {
            RespError::InvalidFrame(m) => "Invalid frame: "@ + m@,
            RespError::InvalidFrameType(m) => "Invalid frame type: "@ + m@,
            RespError::InvalidFrameLength(n) => "Invalid frame length: "@ + as_chars(
                int_text(*n as int),
            ),
            RespError::NotComplete => "Frame is not complete"@,
            RespError::ParseIntError(m) => "Parse error: "@ + m@,
            RespError::ParseFloatError(m) => "Parse error: "@ + m@,
            RespError::InternalServerError => "Internal server error"@,
        }
    }

    /// The words of the error, as they are shown to a reader.
    pub fn to_text(&self) -> (r: String)
        ensures
            r@ == self.text(),
    {
        match self {
            RespError::InvalidFrame(m) => String::from_str("Invalid frame: ").concat(m.as_str()),
            RespError::InvalidFrameType(m) => String::from_str("Invalid frame type: ").concat(
                m.as_str(),
            ),
            RespError::InvalidFrameLength(n) => String::from_str("Invalid frame length: ").concat(
                signed_decimal_string(*n as i64).as_str(),
            ),
            RespError::NotComplete => String::from_str("Frame is not complete"),
            RespError::ParseIntError(m) => String::from_str("Parse error: ").concat(m.as_str()),
            RespError::ParseFloatError(m) => String::from_str("Parse error: ").concat(m.as_str()),
            RespError::InternalServerError => String::from_str("Internal server error"),
        }
    }

    /// The error for a frame whose content is wrong.
    pub fn invalid_frame() -> (e: RespError)
        ensures
            e.reports(Failure::InvalidFrame),
    {
        RespError::InvalidFrame(String::from_str("text is not valid UTF-8"))
    }

    /// The error for bytes that open with the wrong marker.
    pub fn invalid_frame_type() -> (e: RespError)
        ensures
            e.reports(Failure::InvalidFrameType),
    {
        RespError::InvalidFrameType(String::from_str("unexpected frame marker"))
    }

    /// The error for a text that is no integer of 64 bits.
    pub fn parse_int_error() -> (e: RespError)
        ensures
            e.reports(Failure::ParseInt),
    {
        RespError::ParseIntError(String::from_str("invalid digit found in string"))
    }

    /// The error for a text that is no number.
    pub fn parse_float_error() -> (e: RespError)
        ensures
            e.reports(Failure::ParseFloat),
    {
        RespError::ParseFloatError(String::from_str("invalid float literal"))
    }

    /// The error for the length `n` of a header, cut to a machine word.
    pub fn invalid_frame_length(n: i64) -> (e: RespError)
        ensures
            e.reports(Failure::InvalidFrameLength(clipped(n as int))),
    {
        let cut: isize = if n < isize::MIN as i64 {
            isize::MIN
        } else if n > isize::MAX as i64 {
            isize::MAX
        } else {
            n as isize
        };
        RespError::InvalidFrameLength(cut)
    }
}

/// A length that was read agrees with what the grammar gives.
pub open spec fn agrees_length(r: Result<usize, RespError>, m: Result<nat, Failure>) -> bool {
    match r {
        Ok(n) => m == Ok::<nat, Failure>(n as nat),
        Err(e) => m is Err && e.reports(m->Err_0),
    }
}

/// A value that was read, with the bytes it took, agrees with what the grammar gives.
pub open spec fn agrees<T: View>(r: Result<(T, usize), RespError>, m: Result<(T::V, nat), Failure>) -> bool {
    match r {
        Ok((x, n)) => m == Ok::<(T::V, nat), Failure>((x@, n as nat)),
        Err(e) => m is Err && e.reports(m->Err_0),
    }
}

/// A value that was taken from the front of a buffer agrees with what the
/// grammar gives of the bytes `before`: on success the bytes of the value are
/// gone from the front and the rest, `after`, is as it was; on failure the
/// buffer is as it was.
pub open spec fn taken<T: View>(
    r: Result<T, RespError>,
    before: Seq<u8>,
    after: Seq<u8>,
    m: Result<(T::V, nat), Failure>,
) -> bool {
    match r {
        Ok(x) => m is Ok && m->Ok_0.0 == x@ && m->Ok_0.1 <= before.len() && after == before.skip(
            m->Ok_0.1 as int,
        ),
        Err(e) => m is Err && e.reports(m->Err_0) && after == before,
    }
}

/// What can be sent as a frame.
pub trait RespEncode {
    /// The frame that is sent.
    spec fn value(&self) -> Value;

    /// The canonical wire form of the frame.
    fn encode(self) -> (out: Vec<u8>)
        ensures
            out@ == wire(self.value()),
    ;
}

/// What can be read from the front of a buffer.
pub trait RespDecode: Sized + View {
    /// The marker that opens the wire form.
    const PREFIX: &'static str;

    /// What a run of bytes gives: the value that opens it and the bytes it takes.
    spec fn grammar(bytes: Seq<u8>) -> Result<(Self::V, nat), Failure>;

    /// What a run of bytes gives as the length of the value that opens it.
    spec fn length_grammar(bytes: Seq<u8>) -> Result<nat, Failure>;

    /// Takes one value from the front of the buffer. Bytes that end within
    /// the value are `NotComplete`, and the buffer then stays as it is.
    fn decode(buf: &mut BytesMut) -> (r: Result<Self, RespError>)
        ensures
            taken(r, buffered(*old(buf)), buffered(*final(buf)), Self::grammar(buffered(*old(buf)))),
    ;

    /// The number of bytes that the value at the front of `buf` takes.
    fn expect_length(buf: &[u8]) -> (r: Result<usize, RespError>)
        ensures
            agrees_length(r, Self::length_grammar(buf@)),
    ;
}

/// Takes the bytes of `expect` from the front of the buffer if it opens with them.
pub fn extract_fixed_data(buf: &mut BytesMut, expect: &str) -> (r: Result<(), RespError>)
    ensures
        match r {
            Ok(_) => fixed_data(buffered(*old(buf)), expect.spec_bytes()) is Ok && buffered(
                *final(buf),
            ) == buffered(*old(buf)).skip(expect.spec_bytes().len() as int),
            Err(e) => fixed_data(buffered(*old(buf)), expect.spec_bytes()) is Err && e.reports(
                fixed_data(buffered(*old(buf)), expect.spec_bytes())->Err_0,
            ) && buffered(*final(buf)) == buffered(*old(buf)),
        },
{
    let pattern = expect.as_bytes();
    match expect_fixed(buffer_bytes(buf), pattern) {
        Ok(_) => {
            buffer_advance(buf, pattern.len());
            Ok(())
        },
        Err(e) => Err(e),
    }
}

/// The UTF-8 bytes of each marker, as the functions below take them.
pub proof fn lemma_marker_bytes()
    ensures
        "+".spec_bytes() == seq![43u8],
        "-".spec_bytes() == seq![45u8],
        ":".spec_bytes() == seq![58u8],
        "$".spec_bytes() == seq![36u8],
        "*".spec_bytes() == seq![42u8],
        "_".spec_bytes() == seq![95u8],
        "#".spec_bytes() == seq![35u8],
        ",".spec_bytes() == seq![44u8],
        "%".spec_bytes() == seq![37u8],
        "~".spec_bytes() == seq![126u8],
{
    broadcast use vstd::string::is_ascii_spec_bytes;

    reveal_strlit("+");
    reveal_strlit("-");
    reveal_strlit(":");
    reveal_strlit("$");
    reveal_strlit("*");
    reveal_strlit("_");
    reveal_strlit("#");
    reveal_strlit(",");
    reveal_strlit("%");
    reveal_strlit("~");
    assert(vstd::string::is_ascii("+"));
    assert(vstd::string::is_ascii("-"));
    assert(vstd::string::is_ascii(":"));
    assert(vstd::string::is_ascii("$"));
    assert(vstd::string::is_ascii("*"));
    assert(vstd::string::is_ascii("_"));
    assert(vstd::string::is_ascii("#"));
    assert(vstd::string::is_ascii(","));
    assert(vstd::string::is_ascii("%"));
    assert(vstd::string::is_ascii("~"));
    assert("+".spec_bytes() =~= seq![43u8]);
    assert("-".spec_bytes() =~= seq![45u8]);
    assert(":".spec_bytes() =~= seq![58u8]);
    assert("$".spec_bytes() =~= seq![36u8]);
    assert("*".spec_bytes() =~= seq![42u8]);
    assert("_".spec_bytes() =~= seq![95u8]);
    assert("#".spec_bytes() =~= seq![35u8]);
    assert(",".spec_bytes() =~= seq![44u8]);
    assert("%".spec_bytes() =~= seq![37u8]);
    assert("~".spec_bytes() =~= seq![126u8]);
}

/// The index of the `nth` line terminator that starts at `from` or later.
pub open spec fn nth_crlf(s: Seq<u8>, from: int, nth: nat) -> Option<int>
    decreases nth,
{
    if nth == 0 {
        None
    } else {
        match first_crlf(s, from) {
            None => None,
            Some(i) => if nth == 1 {
                Some(i)
            } else {
                nth_crlf(s, i + 1, (nth - 1) as nat)
            },
        }
    }
}

/// Finds the `nth` line terminator of `buf`, counting from one and looking
/// from the second byte on, and returns the index at which it starts.
pub fn find_crlf(buf: &[u8], nth: usize) -> (r: Option<usize>)
    ensures
        match r {
            Some(i) => nth_crlf(buf@, 1, nth as nat) == Some(i as int),
            None => nth_crlf(buf@, 1, nth as nat) is None,
        },
        nth == 1 ==> match r {
            Some(i) => first_crlf(buf@, 1) == Some(i as int) && 1 <= i && i + 2 <= buf@.len(),
            None => first_crlf(buf@, 1) is None,
        },
{
    if nth == 0 || buf.len() < 2 {
        return None;
    }
    let mut count: usize = 0;
    let mut i: usize = 1;
    while i < buf.len() - 1
        invariant
            1 <= i,
            i <= buf@.len() - 1,
            count < nth,
            nth_crlf(buf@, 1, nth as nat) == nth_crlf(buf@, i as int, (nth - count) as nat),
        decreases buf@.len() - i,
    {
        if buf[i] == 13u8 && buf[i + 1] == 10u8 {
            count += 1;
            if count == nth {
                return Some(i);
            }
        }
        i += 1;
    }
    None
}

/// Tells whether `buf` opens with the bytes of `pattern`.
pub fn starts_with(buf: &[u8], pattern: &[u8]) -> (r: bool)
    ensures
        r == pattern@.is_prefix_of(buf@),
{
    if pattern.len() > buf.len() {
        return false;
    }
    let mut i: usize = 0;
    while i < pattern.len()
        invariant
            i <= pattern@.len() <= buf@.len(),
            forall|k: int| 0 <= k < i ==> pattern@[k] == buf@[k],
        decreases pattern@.len() - i,
    {
        if pattern[i] != buf[i] {
            assert(buf@.subrange(0, pattern@.len() as int)[i as int] != pattern@[i as int]);
            return false;
        }
        i += 1;
    }
    assert(pattern@ =~= buf@.subrange(0, pattern@.len() as int));
    true
}

/// Finds the end of the line that opens `buf`: the index of its terminator.
/// The line must start with `prefix`, and three bytes are the least a line takes.
pub fn extract_simple_frame_data(buf: &[u8], prefix: &str) -> (r: Result<usize, RespError>)
    ensures
        match r {
            Ok(end) => line_end(buf@, prefix.spec_bytes()) == Ok::<int, Failure>(end as int) && 1
                <= end && end + 2 <= buf@.len() <= usize::MAX,
            Err(e) => line_end(buf@, prefix.spec_bytes()) is Err && e.reports(
                line_end(buf@, prefix.spec_bytes())->Err_0,
            ),
        },
{
    if buf.len() < 3 {
        return Err(RespError::NotComplete);
    }
    if !starts_with(buf, prefix.as_bytes()) {
        return Err(RespError::invalid_frame_type());
    }
    match find_crlf(buf, 1) {
        Some(end) => Ok(end),
        None => Err(RespError::NotComplete),
    }
}

/// Reads the header line of a frame with a length. Returns the index of the
/// header's terminator and the length that the header announces.
pub fn parse_length(buf: &[u8], prefix: &str) -> (r: Result<(usize, usize), RespError>)
    ensures
        match r {
            Ok((end, len)) => length_header(buf@, prefix.spec_bytes()) == Ok::<(int, nat), Failure>(
                (end as int, len as nat),
            ) && 1 <= end && end + 2 <= buf@.len(),
            Err(e) => length_header(buf@, prefix.spec_bytes()) is Err && e.reports(
                length_header(buf@, prefix.spec_bytes())->Err_0,
            ),
        },
{
    let end: usize = match extract_simple_frame_data(buf, prefix) {
        Ok(end) => end,
        Err(e) => {
            return Err(e);
        },
    };
    let start: usize = prefix.as_bytes().len();
    let ghost text = line_text(buf@, prefix.spec_bytes(), end as int);
    let parsed: Option<i64> = if start <= end {
        let sub = slice_subrange(buf, start, end);
        assert(sub@ == text);
        parse_i64(sub)
    } else {
        let empty: [u8; 0] = [];
        assert(empty@ =~= text);
        parse_i64(empty.as_slice())
    };
    match parsed {
        None => Err(RespError::parse_int_error()),
        Some(n) => {
            if n < 0 || n as u64 > usize::MAX as u64 {
                Err(RespError::invalid_frame_length(n))
            } else {
                Ok((end, n as usize))
            }
        },
    }
}

/// The error for the length `len` of a header that is too large.
pub fn length_error(len: usize) -> (e: RespError)
    ensures
        e.reports(Failure::InvalidFrameLength(clipped(len as int))),
{
    if len > isize::MAX as usize {
        RespError::InvalidFrameLength(isize::MAX)
    } else {
        RespError::InvalidFrameLength(len as isize)
    }
}

/// Measures a frame whose header ends at `end` and announces `len`. For the
/// array and set markers the frame holds `len` frames behind its header, for
/// the map marker `len` pairs of a key line and a frame; each of them must lie
/// within `buf`. For any other prefix the result is `len` and a line terminator.
pub fn calc_total_length(buf: &[u8], end: usize, len: usize, prefix: &str) -> (r: Result<
    usize,
    RespError,
>)
    ensures
        agrees_length(r, total_length(buf@, end as int, len as nat, prefix.spec_bytes())),
    decreases buf@.len(), 0nat,
{
    let mark = prefix.as_bytes();
    let of_items: bool = mark.len() == 1 && (mark[0] == 42u8 || mark[0] == 126u8);
    let of_pairs: bool = mark.len() == 1 && mark[0] == 37u8;
    proof {
        assert(of_items <==> (mark@ =~= seq![42u8] || mark@ =~= seq![126u8]));
        assert(of_pairs <==> mark@ =~= seq![37u8]);
    }
    if !of_items && !of_pairs {
        if len > usize::MAX - 2 {
            return Err(length_error(len));
        }
        return Ok(len + 2);
    }
    if buf.len() < 2 || end > buf.len() - 2 {
        return Err(RespError::NotComplete);
    }
    let ghost body = buf@.skip(end + 2);
    let ghost goal = total_length(buf@, end as int, len as nat, prefix.spec_bytes());
    assert(goal == plus(entries_length(body, len as nat, of_pairs), (end + 2) as nat));
    let mut total: usize = end + 2;
    let mut k: usize = 0;
    while k < len
        invariant
            k <= len,
            end + 2 <= total <= buf@.len(),
            body == buf@.skip(end + 2),
            goal == total_length(buf@, end as int, len as nat, prefix.spec_bytes()),
            goal == plus(entries_length(body, len as nat, of_pairs), (end + 2) as nat),
            entries_length(body, len as nat, of_pairs) == plus(
                entries_length(buf@.skip(total as int), (len - k) as nat, of_pairs),
                (total - (end + 2)) as nat,
            ),
        decreases len - k,
    {
        let rest = slice_subrange(buf, total, buf.len());
        assert(rest@ == buf@.skip(total as int));
        proof {
            lemma_entries_length_step(rest@, (len - k) as nat, of_pairs);
        }
        let length: usize = match entry_len(rest, of_pairs) {
            Ok(length) => length,
            Err(e) => {
                return Err(e);
            },
        };
        if length > buf.len() - total {
            return Err(RespError::NotComplete);
        }
        assert(buf@.skip(total as int).skip(length as int) =~= buf@.skip(total + length));
        total = total + length;
        k += 1;
    }
    proof {
        lemma_entries_length_step(buf@.skip(total as int), 0, of_pairs);
    }
    Ok(total)
}

} // verus!
