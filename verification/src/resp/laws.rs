//! What holds of the codec as a whole: a frame that is sent is read back as
//! it was, with the bytes behind it left alone, and no part of it is taken
//! for a frame.

use vstd::prelude::*;
use vstd::utf8::{
    decode_utf8_encode_utf8, encode_utf8, encode_utf8_decode_utf8, encode_utf8_valid_utf8,
};
use crate::resp::decimal::{int_text, is_digit, lemma_int_text, lemma_nat_digits, nat_digits};
use crate::resp::double::is_double_text;
use crate::resp::grammar::{
    aggregate_length, bulk_length, decode_bulk, decode_double, decode_frame, decode_integer,
    decode_items, decode_pairs, decode_text, entries_length, first_crlf, frame_length, insert_pair,
    is_absent, lemma_decode_items_step, lemma_decode_pairs_step, lemma_entries_length_step,
    length_header, line_end, line_length, line_text, total_length, Failure,
};
use crate::resp::map::{kept, lemma_insert_pair_at, lemma_insert_pair_keeps};
use crate::resp::model::{
    crlf, crlf_at, key_lt, keys_ascend, line, line_safe, marker, well_formed, wire, wire_all,
    wire_pairs, Value,
};

verus! {

/// The first line terminator from `from` on is the one at `at`, if none
/// starts between the two.
pub proof fn lemma_first_crlf_found(s: Seq<u8>, from: int, at: int)
    requires
        0 <= from <= at,
        crlf_at(s, at),
        forall|j: int| from <= j < at ==> !crlf_at(s, j),
    ensures
        first_crlf(s, from) == Some(at),
    decreases at - from,
{
    if from < at {
        assert(!crlf_at(s, from));
        lemma_first_crlf_found(s, from + 1, at);
    }
}

/// There is no line terminator from `from` on, if none starts there or later.
pub proof fn lemma_first_crlf_none(s: Seq<u8>, from: int)
    requires
        0 <= from,
        forall|j: int| from <= j ==> !crlf_at(s, j),
    ensures
        first_crlf(s, from) is None,
    decreases s.len() - from,
{
    if from + 1 < s.len() {
        assert(!crlf_at(s, from));
        lemma_first_crlf_none(s, from + 1);
    }
}

/// A line that is followed by any bytes ends where its text ends, and its
/// text is read back as it was.
pub proof fn lemma_line_read(mark: u8, text: Seq<u8>, rest: Seq<u8>)
    requires
        line_safe(text),
    ensures
        line_end(line(mark, text) + rest, seq![mark]) == Ok::<int, Failure>(1 + text.len() as int),
        line_text(line(mark, text) + rest, seq![mark], 1 + text.len() as int) == text,
        (line(mark, text) + rest).len() == text.len() + 3 + rest.len(),
        (line(mark, text) + rest).skip(text.len() as int + 3) == rest,
        (line(mark, text) + rest)[0] == mark,
{
    let s = line(mark, text) + rest;
    let end = 1 + text.len() as int;
    assert(s[end] == 13 && s[end + 1] == 10);
    assert forall|j: int| 1 <= j < end implies !crlf_at(s, j) by {
        if j + 1 < end {
            assert(s[j] == text[j - 1] && s[j + 1] == text[j]);
            assert(!crlf_at(text, j - 1));
        } else {
            assert(s[j + 1] == 13);
        }
    }
    lemma_first_crlf_found(s, 1, end);
    assert(seq![mark] =~= s.subrange(0, 1));
    assert(s.subrange(1, end) =~= text);
    assert(s.skip(text.len() as int + 3) =~= rest);
}

/// A line that is cut short anywhere is not complete.
pub proof fn lemma_line_cut(mark: u8, text: Seq<u8>, k: int)
    requires
        line_safe(text),
        0 <= k < text.len() + 3,
    ensures
        line_end(line(mark, text).take(k), seq![mark]) == Err::<int, Failure>(Failure::NotComplete),
{
    let whole = line(mark, text);
    let s = whole.take(k);
    if k >= 3 {
        assert(seq![mark] =~= s.subrange(0, 1));
        assert forall|j: int| 1 <= j implies !crlf_at(s, j) by {
            if j + 1 < k {
                if j + 1 <= text.len() {
                    assert(s[j] == text[j - 1] && s[j + 1] == text[j]);
                    assert(!crlf_at(text, j - 1));
                } else {
                    assert(s[j + 1] == 13);
                }
            }
        }
        lemma_first_crlf_none(s, 1);
    }
}

/// A text of digits, with or without a minus sign in front, holds no line terminator.
pub proof fn lemma_number_line_safe(s: Seq<u8>)
    requires
        forall|k: int| 0 <= k < s.len() ==> is_digit(#[trigger] s[k]) || s[k] == 45,
    ensures
        line_safe(s),
{
    assert forall|i: int| !crlf_at(s, i) by {
        if 0 <= i && i + 1 < s.len() {
            assert(is_digit(s[i]) || s[i] == 45);
        }
    }
}

/// The header line of a length, followed by any bytes, gives that length.
pub proof fn lemma_header_read(mark: u8, n: nat, rest: Seq<u8>)
    requires
        n <= isize::MAX,
    ensures
        length_header(line(mark, nat_digits(n)) + rest, seq![mark]) == Ok::<(int, nat), Failure>(
            (1 + nat_digits(n).len() as int, n),
        ),
        (line(mark, nat_digits(n)) + rest).len() == nat_digits(n).len() + 3 + rest.len(),
        (line(mark, nat_digits(n)) + rest).skip(nat_digits(n).len() as int + 3) == rest,
        (line(mark, nat_digits(n)) + rest)[0] == mark,
        is_digit((line(mark, nat_digits(n)) + rest)[1]),
        line_safe(nat_digits(n)),
{
    let digits = nat_digits(n);
    lemma_nat_digits(n);
    lemma_number_line_safe(digits);
    lemma_line_read(mark, digits, rest);
    lemma_int_text(n as int);
    assert(int_text(n as int) == digits);
    assert((line(mark, digits) + rest)[1] == digits[0]);
}

/// A line of text that was sent is read back as it was, whatever follows it.
pub proof fn lemma_text_read(mark: u8, text: Seq<char>, rest: Seq<u8>)
    requires
        line_safe(encode_utf8(text)),
    ensures
        decode_text(line(mark, encode_utf8(text)) + rest, mark) == Ok::<(Seq<char>, nat), Failure>(
            (text, line(mark, encode_utf8(text)).len()),
        ),
        line_length(line(mark, encode_utf8(text)) + rest, mark) == Ok::<nat, Failure>(
            line(mark, encode_utf8(text)).len(),
        ),
{
    lemma_line_read(mark, encode_utf8(text), rest);
    encode_utf8_valid_utf8(text);
    encode_utf8_decode_utf8(text);
}

/// An integer that was sent is read back as it was, whatever follows it.
pub proof fn lemma_integer_read(i: i64, rest: Seq<u8>)
    ensures
        decode_integer(line(58, int_text(i as int)) + rest) == Ok::<(i64, nat), Failure>(
            (i, line(58, int_text(i as int)).len()),
        ),
        line_length(line(58, int_text(i as int)) + rest, 58) == Ok::<nat, Failure>(
            line(58, int_text(i as int)).len(),
        ),
        line_safe(int_text(i as int)),
{
    lemma_int_text(i as int);
    lemma_number_line_safe(int_text(i as int));
    lemma_line_read(58, int_text(i as int), rest);
}

/// The text of a double that was sent is read back as it was, whatever follows it.
pub proof fn lemma_double_read(text: Seq<u8>, rest: Seq<u8>)
    requires
        line_safe(text),
        is_double_text(text),
    ensures
        decode_double(line(44, text) + rest) == Ok::<(Seq<u8>, nat), Failure>(
            (text, line(44, text).len()),
        ),
        line_length(line(44, text) + rest, 44) == Ok::<nat, Failure>(line(44, text).len()),
{
    lemma_line_read(44, text, rest);
}

/// A bulk string that was sent is read back as it was, whatever follows it.
pub proof fn lemma_bulk_read(data: Option<Seq<u8>>, rest: Seq<u8>)
    requires
        wire(Value::BulkString(data)).len() <= isize::MAX,
    ensures
        decode_bulk(wire(Value::BulkString(data)) + rest) == Ok::<(Option<Seq<u8>>, nat), Failure>(
            (data, wire(Value::BulkString(data)).len()),
        ),
        bulk_length(wire(Value::BulkString(data)) + rest) == Ok::<nat, Failure>(
            wire(Value::BulkString(data)).len(),
        ),
{
    let w = wire(Value::BulkString(data));
    let s = w + rest;
    match data {
        None => {
            assert(s.take(5) =~= seq![36u8, 45u8, 49u8, 13u8, 10u8]);
        },
        Some(bytes) => {
            let n = bytes.len();
            let tail = bytes + crlf() + rest;
            assert(s =~= line(36, nat_digits(n)) + tail);
            lemma_header_read(36, n, tail);
            assert(s.len() >= 5 ==> s.take(5)[1] == s[1]);
            assert(!is_absent(s, 36));
            let end = 1 + nat_digits(n).len() as int;
            assert(s.subrange(end + 2, end + 2 + n) =~= bytes);
        },
    }
}

/// Every wire form opens with the marker of its kind and takes three bytes or more.
pub proof fn lemma_wire_opens(v: Value)
    ensures
        wire(v).len() >= 3,
        wire(v)[0] == marker(v),
{
}

/// Frames take three bytes or more each.
pub proof fn lemma_wire_all_len(items: Seq<Value>)
    ensures
        wire_all(items).len() >= 3 * items.len(),
    decreases items.len(),
{
    if items.len() > 0 {
        lemma_wire_opens(items.first());
        lemma_wire_all_len(items.drop_first());
    }
}

/// Pairs take six bytes or more each.
pub proof fn lemma_wire_pairs_len(pairs: Seq<(Seq<char>, Value)>)
    ensures
        wire_pairs(pairs).len() >= 6 * pairs.len(),
    decreases pairs.len(),
{
    if pairs.len() > 0 {
        lemma_wire_opens(pairs.first().1);
        lemma_wire_pairs_len(pairs.drop_first());
    }
}

/// An array, set or map whose entries are measured as they were sent is
/// measured as it was sent, and its header gives the way to its entries.
pub proof fn lemma_aggregate_read(mark: u8, n: nat, body: Seq<u8>, rest: Seq<u8>)
    requires
        mark == 42 || mark == 126 || mark == 37,
        n <= isize::MAX,
        entries_length(body + rest, n, mark == 37) == Ok::<nat, Failure>(body.len()),
    ensures
        aggregate_length(line(mark, nat_digits(n)) + body + rest, mark) == Ok::<nat, Failure>(
            (line(mark, nat_digits(n)) + body).len(),
        ),
        !is_absent(line(mark, nat_digits(n)) + body + rest, mark),
        length_header(line(mark, nat_digits(n)) + body + rest, seq![mark]) == Ok::<
            (int, nat),
            Failure,
        >((1 + nat_digits(n).len() as int, n)),
        total_length(
            line(mark, nat_digits(n)) + body + rest,
            1 + nat_digits(n).len() as int,
            n,
            seq![mark],
        ) is Ok,
        (line(mark, nat_digits(n)) + body + rest).skip(nat_digits(n).len() as int + 3) == body
            + rest,
        (line(mark, nat_digits(n)) + body + rest)[0] == mark,
{
    let s = line(mark, nat_digits(n)) + body + rest;
    assert(s =~= line(mark, nat_digits(n)) + (body + rest));
    lemma_header_read(mark, n, body + rest);
    assert(s.len() >= 5 ==> s.take(5)[1] == s[1]);
    assert(seq![mark] == seq![37u8] <==> mark == 37) by {
        assert(seq![mark][0] == mark);
        assert(seq![37u8][0] == 37u8);
    }
    assert(seq![mark] == seq![42u8] <==> mark == 42) by {
        assert(seq![mark][0] == mark);
        assert(seq![42u8][0] == 42u8);
    }
    assert(seq![mark] == seq![126u8] <==> mark == 126) by {
        assert(seq![mark][0] == mark);
        assert(seq![126u8][0] == 126u8);
    }
}

/// What `lemma_frame_read` says of a frame and the bytes behind it.
pub open spec fn reads_back(v: Value, rest: Seq<u8>) -> bool {
    &&& frame_length(wire(v) + rest) == Ok::<nat, Failure>(wire(v).len())
    &&& decode_frame(wire(v) + rest) == Ok::<(Value, nat), Failure>((v, wire(v).len()))
}

/// A frame of one line or of no content is read back as it was.
proof fn lemma_plain_read(v: Value, rest: Seq<u8>)
    requires
        well_formed(v),
        wire(v).len() <= isize::MAX,
        !(v is Array),
        !(v is RespSet),
        !(v is RespMap),
    ensures
        reads_back(v, rest),
{
    let s = wire(v) + rest;
    lemma_wire_opens(v);
    assert(s[0] == marker(v));
    match v {
        Value::SimpleString(text) => {
            lemma_text_read(43, text, rest);
        },
        Value::Error(text) => {
            lemma_text_read(45, text, rest);
        },
        Value::Integer(i) => {
            lemma_integer_read(i, rest);
        },
        Value::BulkString(data) => {
            lemma_bulk_read(data, rest);
        },
        Value::Null => {
            assert(seq![95u8, 13u8, 10u8] =~= s.subrange(0, 3));
        },
        Value::Boolean(b) => {
            if b {
                assert(seq![35u8, 116u8, 13u8, 10u8] =~= s.subrange(0, 4));
            } else {
                assert(seq![35u8, 102u8, 13u8, 10u8] =~= s.subrange(0, 4));
                assert(s.subrange(0, 4)[1] == 102u8);
                assert(!(seq![35u8, 116u8, 13u8, 10u8] =~= s.subrange(0, 4)));
            }
        },
        Value::Double(text) => {
            lemma_double_read(text, rest);
        },
        _ => {},
    }
}

/// An array whose frames are read back as they were is read back as it was.
proof fn lemma_array_read(items: Seq<Value>, rest: Seq<u8>)
    requires
        wire(Value::Array(items)).len() <= isize::MAX,
        items.len() > 0 ==> entries_length(wire_all(items) + rest, items.len(), false) == Ok::<
            nat,
            Failure,
        >(wire_all(items).len()),
        items.len() > 0 ==> decode_items(wire_all(items) + rest, items.len(), Seq::empty()) == Ok::<
            (Seq<Value>, nat),
            Failure,
        >((items, wire_all(items).len())),
    ensures
        reads_back(Value::Array(items), rest),
{
    let v = Value::Array(items);
    let s = wire(v) + rest;
    if items.len() == 0 {
        assert(s.take(5) =~= seq![42u8, 45u8, 49u8, 13u8, 10u8]);
        assert(items =~= Seq::<Value>::empty());
        assert(s[0] == 42);
    } else {
        lemma_wire_all_len(items);
        lemma_aggregate_read(42, items.len(), wire_all(items), rest);
    }
}

/// A set whose frames are read back as they were is read back as it was.
proof fn lemma_set_read(items: Seq<Value>, rest: Seq<u8>)
    requires
        wire(Value::RespSet(items)).len() <= isize::MAX,
        entries_length(wire_all(items) + rest, items.len(), false) == Ok::<nat, Failure>(
            wire_all(items).len(),
        ),
        decode_items(wire_all(items) + rest, items.len(), Seq::empty()) == Ok::<
            (Seq<Value>, nat),
            Failure,
        >((items, wire_all(items).len())),
    ensures
        reads_back(Value::RespSet(items), rest),
{
    lemma_wire_all_len(items);
    lemma_aggregate_read(126, items.len(), wire_all(items), rest);
}

/// A map whose pairs are read back as they were is read back as it was.
proof fn lemma_map_read(pairs: Seq<(Seq<char>, Value)>, rest: Seq<u8>)
    requires
        wire(Value::RespMap(pairs)).len() <= isize::MAX,
        entries_length(wire_pairs(pairs) + rest, pairs.len(), true) == Ok::<nat, Failure>(
            wire_pairs(pairs).len(),
        ),
        decode_pairs(wire_pairs(pairs) + rest, pairs.len(), Seq::empty()) == Ok::<
            (Seq<(Seq<char>, Value)>, nat),
            Failure,
        >((pairs, wire_pairs(pairs).len())),
    ensures
        reads_back(Value::RespMap(pairs), rest),
{
    lemma_wire_pairs_len(pairs);
    lemma_aggregate_read(37, pairs.len(), wire_pairs(pairs), rest);
}

/// A frame that was sent is measured and read back as it was, whatever follows it.
#[verifier::rlimit(60)]
#[verifier::spinoff_prover]
pub proof fn lemma_frame_read(v: Value, rest: Seq<u8>)
    requires
        well_formed(v),
        wire(v).len() <= isize::MAX,
    ensures
        frame_length(wire(v) + rest) == Ok::<nat, Failure>(wire(v).len()),
        decode_frame(wire(v) + rest) == Ok::<(Value, nat), Failure>((v, wire(v).len())),
    decreases v, 0nat,
{
    match v {
        Value::Array(items) => {
            if items.len() > 0 {
                lemma_items_read(items, rest, Seq::empty());
                assert(Seq::<Value>::empty() + items =~= items);
            }
            lemma_array_read(items, rest);
        },
        Value::RespSet(items) => {
            lemma_items_read(items, rest, Seq::empty());
            assert(Seq::<Value>::empty() + items =~= items);
            lemma_set_read(items, rest);
        },
        Value::RespMap(pairs) => {
            assert(Seq::<(Seq<char>, Value)>::empty() + pairs =~= pairs);
            lemma_pairs_read(pairs, rest, Seq::empty());
            lemma_map_read(pairs, rest);
        },
        _ => {
            lemma_plain_read(v, rest);
        },
    }
}

/// Frames that were sent one after the other are measured and read back as
/// they were, behind the frames read before them.
#[verifier::rlimit(60)]
#[verifier::spinoff_prover]
pub proof fn lemma_items_read(items: Seq<Value>, rest: Seq<u8>, done: Seq<Value>)
    requires
        forall|i: int| 0 <= i < items.len() ==> well_formed(#[trigger] items[i]),
        wire_all(items).len() <= isize::MAX,
    ensures
        entries_length(wire_all(items) + rest, items.len(), false) == Ok::<nat, Failure>(
            wire_all(items).len(),
        ),
        decode_items(wire_all(items) + rest, items.len(), done) == Ok::<(Seq<Value>, nat), Failure>(
            (done + items, wire_all(items).len()),
        ),
    decreases items, 1nat,
{
    let s = wire_all(items) + rest;
    lemma_entries_length_step(s, items.len(), false);
    lemma_decode_items_step(s, items.len(), done);
    if items.len() == 0 {
        assert(done + items =~= done);
    } else {
        let first = items.first();
        let others = items.drop_first();
        let tail = wire_all(others) + rest;
        assert(s =~= wire(first) + tail);
        assert(well_formed(first));
        assert forall|i: int| 0 <= i < others.len() implies well_formed(#[trigger] others[i]) by {
            assert(others[i] == items[i + 1]);
        }
        lemma_frame_read(first, tail);
        assert(s.skip(wire(first).len() as int) =~= tail);
        lemma_items_read(others, rest, done.push(first));
        assert(done.push(first) + others =~= done + items);
    }
}

/// Pairs that were sent one after the other in the order of their keys are
/// measured and read back as they were, behind the pairs read before them.
#[verifier::rlimit(60)]
#[verifier::spinoff_prover]
pub proof fn lemma_pairs_read(
    pairs: Seq<(Seq<char>, Value)>,
    rest: Seq<u8>,
    done: Seq<(Seq<char>, Value)>,
)
    requires
        forall|i: int|
            0 <= i < pairs.len() ==> line_safe(encode_utf8((#[trigger] pairs[i]).0))
                && well_formed(pairs[i].1),
        keys_ascend(done + pairs),
        wire_pairs(pairs).len() <= isize::MAX,
    ensures
        entries_length(wire_pairs(pairs) + rest, pairs.len(), true) == Ok::<nat, Failure>(
            wire_pairs(pairs).len(),
        ),
        decode_pairs(wire_pairs(pairs) + rest, pairs.len(), done) == Ok::<
            (Seq<(Seq<char>, Value)>, nat),
            Failure,
        >((done + pairs, wire_pairs(pairs).len())),
    decreases pairs, 1nat,
{
    let s = wire_pairs(pairs) + rest;
    lemma_entries_length_step(s, pairs.len(), true);
    lemma_decode_pairs_step(s, pairs.len(), done);
    if pairs.len() == 0 {
        assert(done + pairs =~= done);
    } else {
        let first = pairs.first();
        let others = pairs.drop_first();
        let key_line = line(43, encode_utf8(first.0));
        let tail = wire_pairs(others) + rest;
        let behind = wire(first.1) + tail;
        assert(s =~= key_line + behind);
        assert(line_safe(encode_utf8(first.0)) && well_formed(first.1));
        assert forall|i: int| 0 <= i < others.len() implies line_safe(
            encode_utf8((#[trigger] others[i]).0),
        ) && well_formed(others[i].1) by {
            assert(others[i] == pairs[i + 1]);
        }
        lemma_text_read(43, first.0, behind);
        lemma_line_read(43, encode_utf8(first.0), behind);
        assert(s.skip(key_line.len() as int) =~= behind);
        lemma_frame_read(first.1, tail);
        assert(s.skip((key_line.len() + wire(first.1).len()) as int) =~= tail);
        assert forall|k: int| 0 <= k < done.len() implies key_lt(#[trigger] done[k].0, first.0) by {
            assert((done + pairs)[k] == done[k]);
            assert((done + pairs)[done.len() as int] == first);
        }
        lemma_insert_pair_at(done, first.0, first.1, done.len() as int);
        assert(done.insert(done.len() as int, first) =~= done.push(first));
        assert(done.push(first) + others =~= done + pairs);
        lemma_pairs_read(others, rest, done.push(first));
    }
}

/// The measure of a frame says that the `held` bytes are not all of it:
/// either more bytes are needed to measure it, or it is longer than they are.
pub open spec fn cut_short(r: Result<nat, Failure>, held: int) -> bool {
    match r {
        Err(e) => e == Failure::NotComplete,
        Ok(m) => m > held,
    }
}

/// A line that is cut short anywhere is not complete, as text or as anything else.
pub proof fn lemma_line_cut_all(mark: u8, text: Seq<u8>, k: int)
    requires
        line_safe(text),
        0 <= k < text.len() + 3,
    ensures
        line_length(line(mark, text).take(k), mark) == Err::<nat, Failure>(Failure::NotComplete),
        decode_text(line(mark, text).take(k), mark) == Err::<(Seq<char>, nat), Failure>(
            Failure::NotComplete,
        ),
        length_header(line(mark, text).take(k), seq![mark]) == Err::<(int, nat), Failure>(
            Failure::NotComplete,
        ),
        k > 0 ==> line(mark, text).take(k)[0] == mark,
        k > 1 && text.len() > 0 ==> line(mark, text).take(k)[1] == text[0],
{
    lemma_line_cut(mark, text, k);
}

/// A bulk string that is cut short anywhere is not complete.
pub proof fn lemma_bulk_cut(data: Option<Seq<u8>>, k: int)
    requires
        wire(Value::BulkString(data)).len() <= isize::MAX,
        0 <= k < wire(Value::BulkString(data)).len(),
    ensures
        decode_bulk(wire(Value::BulkString(data)).take(k)) == Err::<
            (Option<Seq<u8>>, nat),
            Failure,
        >(Failure::NotComplete),
        cut_short(bulk_length(wire(Value::BulkString(data)).take(k)), k),
{
    let w = wire(Value::BulkString(data));
    let s = w.take(k);
    match data {
        None => {
            lemma_number_line_safe(seq![45u8, 49u8]);
            lemma_line_cut_all(36, seq![45u8, 49u8], k);
        },
        Some(bytes) => {
            let n = bytes.len();
            let digits = nat_digits(n);
            let head = line(36, digits);
            lemma_nat_digits(n);
            lemma_number_line_safe(digits);
            if k < head.len() {
                assert(s =~= head.take(k));
                lemma_line_cut_all(36, digits, k);
                assert(s.len() >= 5 ==> s.take(5)[1] == s[1]);
            } else {
                let tail = (bytes + crlf()).take(k - head.len());
                assert(s =~= head + tail);
                lemma_header_read(36, n, tail);
                assert(s.len() >= 5 ==> s.take(5)[1] == s[1]);
            }
        },
    }
}

/// An array, set or map that is cut short is not complete, if its entries
/// are not complete where the cut falls among them.
pub proof fn lemma_aggregate_cut(mark: u8, n: nat, body: Seq<u8>, k: int)
    requires
        mark == 42 || mark == 126 || mark == 37,
        n <= isize::MAX,
        0 <= k < nat_digits(n).len() + 3 + body.len(),
        k >= nat_digits(n).len() + 3 ==> entries_length(
            body.take(k - (nat_digits(n).len() + 3)),
            n,
            mark == 37,
        ) == Err::<nat, Failure>(Failure::NotComplete),
    ensures
        !is_absent((line(mark, nat_digits(n)) + body).take(k), mark),
        length_header((line(mark, nat_digits(n)) + body).take(k), seq![mark]) == Err::<
            (int, nat),
            Failure,
        >(Failure::NotComplete) || (length_header(
            (line(mark, nat_digits(n)) + body).take(k),
            seq![mark],
        ) == Ok::<(int, nat), Failure>((1 + nat_digits(n).len() as int, n)) && total_length(
            (line(mark, nat_digits(n)) + body).take(k),
            1 + nat_digits(n).len() as int,
            n,
            seq![mark],
        ) == Err::<nat, Failure>(Failure::NotComplete)),
        k > 0 ==> (line(mark, nat_digits(n)) + body).take(k)[0] == mark,
{
    let digits = nat_digits(n);
    let head = line(mark, digits);
    let s = (head + body).take(k);
    lemma_nat_digits(n);
    lemma_number_line_safe(digits);
    if k < head.len() {
        assert(s =~= head.take(k));
        lemma_line_cut_all(mark, digits, k);
        assert(s.len() >= 5 ==> s.take(5)[1] == s[1]);
    } else {
        let tail = body.take(k - head.len());
        assert(s =~= head + tail);
        lemma_header_read(mark, n, tail);
        assert(s.len() >= 5 ==> s.take(5)[1] == s[1]);
        assert(seq![mark] == seq![37u8] <==> mark == 37) by {
            assert(seq![mark][0] == mark);
            assert(seq![37u8][0] == 37u8);
        }
        assert(seq![mark] == seq![42u8] <==> mark == 42) by {
            assert(seq![mark][0] == mark);
            assert(seq![42u8][0] == 42u8);
        }
        assert(seq![mark] == seq![126u8] <==> mark == 126) by {
            assert(seq![mark][0] == mark);
            assert(seq![126u8][0] == 126u8);
        }
    }
}

/// A frame that is cut short anywhere is not complete: its measure says so,
/// and reading it says so.
#[verifier::rlimit(60)]
#[verifier::spinoff_prover]
pub proof fn lemma_frame_cut(v: Value, k: int)
    requires
        well_formed(v),
        wire(v).len() <= isize::MAX,
        0 <= k < wire(v).len(),
    ensures
        cut_short(frame_length(wire(v).take(k)), k),
        decode_frame(wire(v).take(k)) == Err::<(Value, nat), Failure>(Failure::NotComplete),
    decreases v, 0nat,
{
    let s = wire(v).take(k);
    lemma_wire_opens(v);
    if k > 0 {
        assert(s[0] == marker(v));
        match v {
            Value::SimpleString(text) => {
                lemma_line_cut_all(43, encode_utf8(text), k);
            },
            Value::Error(text) => {
                lemma_line_cut_all(45, encode_utf8(text), k);
            },
            Value::Integer(i) => {
                lemma_int_text(i as int);
                lemma_number_line_safe(int_text(i as int));
                lemma_line_cut(58, int_text(i as int), k);
            },
            Value::BulkString(data) => {
                lemma_bulk_cut(data, k);
            },
            Value::Null => {},
            Value::Boolean(b) => {},
            Value::Double(text) => {
                lemma_line_cut(44, text, k);
            },
            Value::Array(items) => {
                if items.len() == 0 {
                    lemma_number_line_safe(seq![45u8, 49u8]);
                    lemma_line_cut_all(42, seq![45u8, 49u8], k);
                } else {
                    let n = items.len();
                    lemma_wire_all_len(items);
                    if k >= nat_digits(n).len() + 3 {
                        lemma_items_cut(items, k - (nat_digits(n).len() + 3));
                    }
                    lemma_aggregate_cut(42, n, wire_all(items), k);
                }
            },
            Value::RespSet(items) => {
                let n = items.len();
                lemma_wire_all_len(items);
                if k >= nat_digits(n).len() + 3 {
                    lemma_items_cut(items, k - (nat_digits(n).len() + 3));
                }
                lemma_aggregate_cut(126, n, wire_all(items), k);
            },
            Value::RespMap(pairs) => {
                let n = pairs.len();
                lemma_wire_pairs_len(pairs);
                if k >= nat_digits(n).len() + 3 {
                    lemma_pairs_cut(pairs, k - (nat_digits(n).len() + 3));
                }
                lemma_aggregate_cut(37, n, wire_pairs(pairs), k);
            },
        }
    }
}

/// Frames sent one after the other and cut short anywhere are not complete.
#[verifier::rlimit(60)]
#[verifier::spinoff_prover]
pub proof fn lemma_items_cut(items: Seq<Value>, k: int)
    requires
        forall|i: int| 0 <= i < items.len() ==> well_formed(#[trigger] items[i]),
        wire_all(items).len() <= isize::MAX,
        0 <= k < wire_all(items).len(),
    ensures
        entries_length(wire_all(items).take(k), items.len(), false) == Err::<nat, Failure>(
            Failure::NotComplete,
        ),
    decreases items, 1nat,
{
    let s = wire_all(items).take(k);
    lemma_entries_length_step(s, items.len(), false);
    let first = items.first();
    let others = items.drop_first();
    let tail = wire_all(others);
    assert(well_formed(first));
    assert forall|i: int| 0 <= i < others.len() implies well_formed(#[trigger] others[i]) by {
        assert(others[i] == items[i + 1]);
    }
    if k < wire(first).len() {
        assert(s =~= wire(first).take(k));
        lemma_frame_cut(first, k);
    } else {
        let held = tail.take(k - wire(first).len());
        assert(s =~= wire(first) + held);
        lemma_frame_read(first, held);
        assert(s.skip(wire(first).len() as int) =~= held);
        lemma_items_cut(others, k - wire(first).len());
    }
}

/// Pairs sent one after the other and cut short anywhere are not complete.
#[verifier::rlimit(60)]
#[verifier::spinoff_prover]
pub proof fn lemma_pairs_cut(pairs: Seq<(Seq<char>, Value)>, k: int)
    requires
        forall|i: int|
            0 <= i < pairs.len() ==> line_safe(encode_utf8((#[trigger] pairs[i]).0))
                && well_formed(pairs[i].1),
        wire_pairs(pairs).len() <= isize::MAX,
        0 <= k < wire_pairs(pairs).len(),
    ensures
        entries_length(wire_pairs(pairs).take(k), pairs.len(), true) == Err::<nat, Failure>(
            Failure::NotComplete,
        ),
    decreases pairs, 1nat,
{
    let s = wire_pairs(pairs).take(k);
    lemma_entries_length_step(s, pairs.len(), true);
    let first = pairs.first();
    let others = pairs.drop_first();
    let key_line = line(43, encode_utf8(first.0));
    let value = wire(first.1);
    let tail = wire_pairs(others);
    assert(line_safe(encode_utf8(first.0)) && well_formed(first.1));
    assert forall|i: int| 0 <= i < others.len() implies line_safe(
        encode_utf8((#[trigger] others[i]).0),
    ) && well_formed(others[i].1) by {
        assert(others[i] == pairs[i + 1]);
    }
    if k < key_line.len() {
        assert(s =~= key_line.take(k));
        lemma_line_cut_all(43, encode_utf8(first.0), k);
    } else if k < key_line.len() + value.len() {
        let held = value.take(k - key_line.len());
        assert(s =~= key_line + held);
        lemma_line_read(43, encode_utf8(first.0), held);
        assert(s.skip(key_line.len() as int) =~= held);
        lemma_frame_cut(first.1, k - key_line.len());
    } else {
        let held = tail.take(k - key_line.len() - value.len());
        assert(s =~= key_line + (value + held));
        lemma_line_read(43, encode_utf8(first.0), value + held);
        assert(s.skip(key_line.len() as int) =~= value + held);
        lemma_frame_read(first.1, held);
        assert(s.skip((key_line.len() + value.len()) as int) =~= held);
        lemma_pairs_cut(others, k - key_line.len() - value.len());
    }
}

/// The first line terminator from `from` on starts within the bytes, and
/// none starts before it.
pub proof fn lemma_first_crlf_is_first(s: Seq<u8>, from: int)
    requires
        first_crlf(s, from) is Some,
    ensures
        from <= first_crlf(s, from)->0,
        crlf_at(s, first_crlf(s, from)->0),
        forall|j: int| from <= j < first_crlf(s, from)->0 ==> !crlf_at(s, j),
    decreases s.len() - from,
{
    if !(from < 0 || from + 1 >= s.len()) && !(s[from] == 13 && s[from + 1] == 10) {
        lemma_first_crlf_is_first(s, from + 1);
    }
}

/// The text of a line that was read holds no line terminator, and the line
/// lies within the bytes.
pub proof fn lemma_line_found(s: Seq<u8>, mark: u8)
    requires
        line_end(s, seq![mark]) is Ok,
    ensures
        line_safe(line_text(s, seq![mark], line_end(s, seq![mark])->Ok_0)),
        1 <= line_end(s, seq![mark])->Ok_0,
        line_end(s, seq![mark])->Ok_0 + 2 <= s.len(),
{
    let end = line_end(s, seq![mark])->Ok_0;
    lemma_first_crlf_is_first(s, 1);
    let text = line_text(s, seq![mark], end);
    assert forall|i: int| !crlf_at(text, i) by {
        if 0 <= i && i + 1 < text.len() {
            assert(text[i] == s[i + 1] && text[i + 1] == s[i + 2]);
            assert(!crlf_at(s, i + 1));
        }
    }
}

/// A run of one marker is the run of a given marker only if the markers are the same.
proof fn lemma_mark_is(mark: u8)
    ensures
        seq![mark] == seq![37u8] <==> mark == 37,
        seq![mark] == seq![42u8] <==> mark == 42,
        seq![mark] == seq![126u8] <==> mark == 126,
{
    assert(seq![mark][0] == mark);
    assert(seq![37u8][0] == 37u8);
    assert(seq![42u8][0] == 42u8);
    assert(seq![126u8][0] == 126u8);
}

/// The pairs are such as a well-formed map holds.
pub open spec fn pairs_well_formed(pairs: Seq<(Seq<char>, Value)>) -> bool {
    keys_ascend(pairs) && forall|i: int|
        0 <= i < pairs.len() ==> line_safe(encode_utf8((#[trigger] pairs[i]).0)) && well_formed(
            pairs[i].1,
        )
}

/// Every frame of the sequence is well-formed.
pub open spec fn all_well_formed(items: Seq<Value>) -> bool {
    forall|i: int| 0 <= i < items.len() ==> well_formed(#[trigger] items[i])
}

/// A frame of one line or of no content that was read is well-formed and
/// lies within the bytes.
proof fn lemma_plain_decoded(s: Seq<u8>)
    requires
        decode_frame(s) is Ok,
        s.len() > 0,
        s.len() <= usize::MAX,
        s[0] != 42 && s[0] != 126 && s[0] != 37,
    ensures
        well_formed(decode_frame(s)->Ok_0.0),
        3 <= decode_frame(s)->Ok_0.1 <= s.len(),
        frame_length(s) == Ok::<nat, Failure>(decode_frame(s)->Ok_0.1),
{
    if s[0] == 43 || s[0] == 45 {
        lemma_line_found(s, s[0]);
        let text = line_text(s, seq![s[0]], line_end(s, seq![s[0]])->Ok_0);
        decode_utf8_encode_utf8(text);
    } else if s[0] == 58 {
        lemma_line_found(s, 58);
    } else if s[0] == 44 {
        lemma_line_found(s, 44);
    } else if s[0] == 36 {
        if !is_absent(s, 36) {
            lemma_line_found(s, 36);
        }
    }
}

/// What was read is well-formed and lies within the bytes that were read.
#[verifier::rlimit(60)]
#[verifier::spinoff_prover]
pub proof fn lemma_decoded_well_formed(s: Seq<u8>)
    requires
        decode_frame(s) is Ok,
        s.len() <= usize::MAX,
    ensures
        well_formed(decode_frame(s)->Ok_0.0),
        3 <= decode_frame(s)->Ok_0.1 <= s.len(),
        frame_length(s) == Ok::<nat, Failure>(decode_frame(s)->Ok_0.1),
    decreases s.len(), 0nat,
{
    if s[0] == 42 {
        if !is_absent(s, 42) {
            lemma_line_found(s, 42);
            let header = length_header(s, seq![42u8])->Ok_0;
            lemma_decoded_items(s.skip(header.0 + 2), header.1, Seq::empty());
            lemma_mark_is(42);
        }
    } else if s[0] == 126 {
        lemma_line_found(s, 126);
        let header = length_header(s, seq![126u8])->Ok_0;
        lemma_decoded_items(s.skip(header.0 + 2), header.1, Seq::empty());
        lemma_mark_is(126);
    } else if s[0] == 37 {
        lemma_line_found(s, 37);
        let header = length_header(s, seq![37u8])->Ok_0;
        lemma_decoded_pairs(s.skip(header.0 + 2), header.1, Seq::empty());
        lemma_mark_is(37);
    } else {
        lemma_plain_decoded(s);
    }
}

/// Frames that were read one after the other are well-formed and lie
/// within the bytes that were read.
#[verifier::rlimit(60)]
#[verifier::spinoff_prover]
pub proof fn lemma_decoded_items(s: Seq<u8>, count: nat, done: Seq<Value>)
    requires
        decode_items(s, count, done) is Ok,
        all_well_formed(done),
        s.len() <= usize::MAX,
    ensures
        all_well_formed(decode_items(s, count, done)->Ok_0.0),
        decode_items(s, count, done)->Ok_0.1 <= s.len(),
        entries_length(s, count, false) == Ok::<nat, Failure>(decode_items(s, count, done)->Ok_0.1),
    decreases s.len(), count + 1,
{
    lemma_decode_items_step(s, count, done);
    lemma_entries_length_step(s, count, false);
    if count > 0 {
        let first = decode_frame(s)->Ok_0;
        lemma_decoded_well_formed(s);
        let next = done.push(first.0);
        assert forall|i: int| 0 <= i < next.len() implies well_formed(#[trigger] next[i]) by {
            if i < done.len() {
                assert(next[i] == done[i]);
            }
        }
        lemma_decoded_items(s.skip(first.1 as int), (count - 1) as nat, next);
    }
}

/// Pairs that were read one after the other are such as a well-formed map
/// holds, and lie within the bytes that were read.
#[verifier::rlimit(60)]
#[verifier::spinoff_prover]
pub proof fn lemma_decoded_pairs(s: Seq<u8>, count: nat, done: Seq<(Seq<char>, Value)>)
    requires
        decode_pairs(s, count, done) is Ok,
        pairs_well_formed(done),
        s.len() <= usize::MAX,
    ensures
        pairs_well_formed(decode_pairs(s, count, done)->Ok_0.0),
        decode_pairs(s, count, done)->Ok_0.1 <= s.len(),
        entries_length(s, count, true) == Ok::<nat, Failure>(decode_pairs(s, count, done)->Ok_0.1),
    decreases s.len(), count + 1,
{
    lemma_decode_pairs_step(s, count, done);
    lemma_entries_length_step(s, count, true);
    if count > 0 {
        let key = decode_text(s, 43)->Ok_0;
        lemma_line_found(s, 43);
        let text = line_text(s, seq![43u8], line_end(s, seq![43u8])->Ok_0);
        decode_utf8_encode_utf8(text);
        let behind = s.skip(key.1 as int);
        let value = decode_frame(behind)->Ok_0;
        lemma_decoded_well_formed(behind);
        let next = insert_pair(done, key.0, value.0);
        lemma_insert_pair_keeps(done, key.0, value.0);
        assert forall|i: int| 0 <= i < next.len() implies line_safe(
            encode_utf8((#[trigger] next[i]).0),
        ) && well_formed(next[i].1) by {
            let p = next[i];
            assert(next.contains(p));
            assert(kept(done, key.0, value.0, p));
            if p != (key.0, value.0) {
                let k = choose|k: int| 0 <= k < done.len() && done[k] == p;
                assert(line_safe(encode_utf8(done[k].0)));
            }
        }
        lemma_decoded_pairs(s.skip((key.1 + value.1) as int), (count - 1) as nat, next);
    }
}

/// What is read is well-formed: its lines of text hold no line terminator,
/// its doubles are numbers and the keys of its maps ascend. It is read from
/// within the bytes at hand, and takes exactly as many of them as the
/// measure of the frame says.
pub proof fn decoded_is_well_formed(s: Seq<u8>)
    requires
        s.len() <= usize::MAX,
    ensures
        decode_frame(s) is Ok ==> well_formed(decode_frame(s)->Ok_0.0) && decode_frame(s)->Ok_0.1
            <= s.len() && frame_length(s) == Ok::<nat, Failure>(decode_frame(s)->Ok_0.1),
{
    if decode_frame(s) is Ok {
        lemma_decoded_well_formed(s);
    }
}

/// Round trip: a well-formed frame that is sent and then read is the frame
/// that was sent, the absent bulk string and the absent array among them,
/// and reading takes all the bytes that sending gave.
pub proof fn round_trip(v: Value)
    requires
        well_formed(v),
        wire(v).len() <= isize::MAX,
    ensures
        decode_frame(wire(v)) == Ok::<(Value, nat), Failure>((v, wire(v).len())),
        frame_length(wire(v)) == Ok::<nat, Failure>(wire(v).len()),
{
    lemma_frame_read(v, Seq::empty());
    assert(wire(v) + Seq::<u8>::empty() =~= wire(v));
}

/// Two well-formed frames with the same wire form are the same frame.
pub proof fn wire_is_injective(a: Value, b: Value)
    requires
        well_formed(a),
        well_formed(b),
        wire(a).len() <= isize::MAX,
        wire(a) == wire(b),
    ensures
        a == b,
{
    round_trip(a);
    round_trip(b);
}

/// Trailing bytes: reading a frame that is followed by other bytes gives
/// the frame and takes exactly as many bytes as the measure says, which are
/// the bytes of the frame; the bytes behind them are left as they are.
pub proof fn trailing_bytes_untouched(v: Value, rest: Seq<u8>)
    requires
        well_formed(v),
        wire(v).len() <= isize::MAX,
    ensures
        decode_frame(wire(v) + rest) == Ok::<(Value, nat), Failure>((v, wire(v).len())),
        frame_length(wire(v) + rest) == Ok::<nat, Failure>(wire(v).len()),
        (wire(v) + rest).skip(wire(v).len() as int) == rest,
{
    lemma_frame_read(v, rest);
    assert((wire(v) + rest).skip(wire(v).len() as int) =~= rest);
}

/// Partial buffer: reading any strict prefix of the bytes of a frame says
/// that the frame is not complete, and never gives a frame or another error.
pub proof fn strict_prefix_not_complete(v: Value, k: int)
    requires
        well_formed(v),
        wire(v).len() <= isize::MAX,
        0 <= k < wire(v).len(),
    ensures
        decode_frame(wire(v).take(k)) == Err::<(Value, nat), Failure>(Failure::NotComplete),
{
    lemma_frame_cut(v, k);
}

} // verus!
