//! Round trip: what the encoder writes, the decoder reads back.
use vstd::prelude::*;
use vstd::utf8::encode_utf8;
use crate::double::lemma_double_text_has_no_cr;
use crate::error::ErrorKind;
use crate::grammar::{
    count_header, decoded, entries_span, entries_value, entry_span, frame_span, frame_value,
    frames_span, frames_value, header_text, lemma_frame_span, lemma_frame_value, line_span,
    payload, sentinel_span,
};
use crate::line::{crlf_at, first_crlf, lemma_first_crlf_here, simple_frame_end, CR, LF};
use crate::model::{
    crlf, is_line_text, keys_ascending, lemma_map_of_sorted, line, null_header, wire_entries,
    wire_frames, Frame, ARRAY_PREFIX, BOOLEAN_PREFIX, BULK_STRING_PREFIX, DOUBLE_PREFIX,
    FALSE_BYTE, INTEGER_PREFIX, MAP_PREFIX, NULL_PREFIX, SET_PREFIX, SIMPLE_ERROR_PREFIX,
    SIMPLE_STRING_PREFIX, TRUE_BYTE,
};
use crate::number::{
    decimal, is_digit, lemma_count_of_decimal, lemma_decimal, lemma_integer_of_signed_decimal,
    signed_decimal, MINUS,
};
use crate::text::{is_ascii_bytes, lemma_text_of_ascii, lemma_text_of_encoded, text_of};

verus! {

/// A line at the front of a buffer ends where its text ends, and what follows
/// the line is what was put behind it.
pub proof fn lemma_line(prefix: u8, text: Seq<u8>, rest: Seq<u8>)
    requires
        prefix != CR,
        is_line_text(text),
    ensures
        ({
            let s = line(prefix, text) + rest;
            &&& line(prefix, text).len() == text.len() + 3
            &&& s.len() == text.len() + 3 + rest.len()
            &&& s[0] == prefix
            &&& first_crlf(s) == Some(1 + text.len() as int)
            &&& simple_frame_end(s, seq![prefix]) == Ok::<int, ErrorKind>(1 + text.len() as int)
            &&& header_text(s, 1, 1 + text.len() as int) == text
            &&& payload(s) == text
            &&& s.skip(text.len() as int + 3) == rest
        }),
{
    let s = line(prefix, text) + rest;
    let end = 1 + text.len() as int;
    assert(s[0] == prefix);
    assert(forall|i: int| 0 <= i < text.len() ==> s[1 + i] == text[i]);
    assert(s[end] == CR && s[end + 1] == LF);
    assert forall|j: int| 0 <= j < end implies !crlf_at(s, j) by {
        if crlf_at(s, j) {
            if j == 0 {
            } else if j + 1 < end {
                assert(s[j] == text[j - 1] && s[j + 1] == text[j]);
                assert(crlf_at(text, j - 1));
            } else {
            }
        }
    }
    lemma_first_crlf_here(s, end);
    assert(seq![prefix] =~= s.subrange(0, 1));
    assert(header_text(s, 1, end) =~= text);
    assert(s.skip(text.len() as int + 3) =~= rest);
}

/// The digits of a number can stand in a line, and they are no null header.
pub proof fn lemma_decimal_line(n: nat)
    ensures
        is_line_text(decimal(n)),
        decimal(n) != null_header(),
        is_ascii_bytes(decimal(n)),
{
    lemma_decimal(n);
    let d = decimal(n);
    assert forall|i: int| 0 <= i < d.len() implies #[trigger] d[i] != CR && d[i] < 128 by {
        assert(is_digit(d[i]));
    }
    assert(is_digit(d[0]));
    assert(null_header()[0] == MINUS);
}

/// A header line that counts `n` reads as `n`, and is no null.
pub proof fn lemma_header(prefix: u8, n: nat, rest: Seq<u8>)
    requires
        prefix != CR,
        n <= usize::MAX,
    ensures
        ({
            let s = line(prefix, decimal(n)) + rest;
            let end = 1 + decimal(n).len() as int;
            &&& s.len() == end + 2 + rest.len()
            &&& s[0] == prefix
            &&& count_header(s, seq![prefix]) == Ok::<(int, nat), ErrorKind>((end, n))
            &&& sentinel_span(s, prefix) == Err::<nat, ErrorKind>(ErrorKind::InvalidFrameType)
            &&& s.skip(end + 2) == rest
        }),
{
    lemma_decimal_line(n);
    lemma_line(prefix, decimal(n), rest);
    lemma_count_of_decimal(n);
}

/// Round trip, for the frames of a container: what the encoder writes for the
/// frames from index `from` on reads back as those frames, and takes exactly
/// the bytes written.
pub proof fn lemma_round_trip_frames(items: Seq<Frame>, from: int, rest: Seq<u8>)
    requires
        0 <= from <= items.len(),
        forall|i: int| 0 <= i < items.len() ==> (#[trigger] items[i]).valid(),
    ensures
        frames_span(wire_frames(items, from) + rest, (items.len() - from) as nat) == Ok::<
            nat,
            ErrorKind,
        >(wire_frames(items, from).len()),
        frames_value(wire_frames(items, from) + rest, (items.len() - from) as nat) == Ok::<
            Seq<Frame>,
            ErrorKind,
        >(items.skip(from)),
    decreases items, items.len() - from,
{
    let s = wire_frames(items, from) + rest;
    if from < items.len() {
        let first = items[from].wire();
        let tail = wire_frames(items, from + 1) + rest;
        assert(s =~= first + tail);
        law_round_trip(items[from], tail);
        lemma_round_trip_frames(items, from + 1, rest);
        assert(s.skip(first.len() as int) =~= tail);
        assert(seq![items[from]] + items.skip(from + 1) =~= items.skip(from));
    } else {
        assert(items.skip(from) =~= Seq::<Frame>::empty());
    }
}

/// What the round trip says of one frame and of what follows it in the buffer.
pub open spec fn reads_back(v: Frame, rest: Seq<u8>) -> bool {
    &&& frame_span(v.wire() + rest) == Ok::<nat, ErrorKind>(v.wire().len())
    &&& frame_value(v.wire() + rest) == Ok::<Frame, ErrorKind>(v)
}

/// One entry of a map reads back where its value does: the key line is a
/// simple string that holds the key, and the value follows it.
proof fn lemma_round_trip_entry(key: Seq<char>, value: Frame, tail: Seq<u8>)
    requires
        is_line_text(encode_utf8(key)),
        reads_back(value, tail),
    ensures
        ({
            let s = line(SIMPLE_STRING_PREFIX, encode_utf8(key)) + value.wire() + tail;
            let k = encode_utf8(key).len() + 3;
            &&& line_span(s, SIMPLE_STRING_PREFIX) == Ok::<nat, ErrorKind>(k)
            &&& text_of(payload(s)) == key
            &&& k + value.wire().len() <= s.len()
            &&& s.skip(k as int) == value.wire() + tail
            &&& s.skip((k + value.wire().len()) as int) == tail
            &&& entry_span(s) == Ok::<nat, ErrorKind>(k + value.wire().len())
        }),
{
    let key_line = line(SIMPLE_STRING_PREFIX, encode_utf8(key));
    let s = key_line + value.wire() + tail;
    let k = encode_utf8(key).len() + 3;
    assert(s =~= key_line + (value.wire() + tail));
    lemma_line(SIMPLE_STRING_PREFIX, encode_utf8(key), value.wire() + tail);
    lemma_text_of_encoded(key);
    assert(s.skip((k + value.wire().len()) as int) =~= tail);
}

/// Round trip, for the entries of a map: what the encoder writes for the
/// entries from index `from` on reads back as those entries, and takes exactly
/// the bytes written.
pub proof fn lemma_round_trip_entries(entries: Seq<(Seq<char>, Frame)>, from: int, rest: Seq<u8>)
    requires
        0 <= from <= entries.len(),
        forall|i: int|
            0 <= i < entries.len() ==> is_line_text(encode_utf8((#[trigger] entries[i]).0))
                && entries[i].1.valid(),
    ensures
        entries_span(wire_entries(entries, from) + rest, (entries.len() - from) as nat) == Ok::<
            nat,
            ErrorKind,
        >(wire_entries(entries, from).len()),
        entries_value(wire_entries(entries, from) + rest, (entries.len() - from) as nat) == Ok::<
            Seq<(Seq<char>, Frame)>,
            ErrorKind,
        >(entries.skip(from)),
    decreases entries, entries.len() - from,
{
    let s = wire_entries(entries, from) + rest;
    if from < entries.len() {
        let key = entries[from].0;
        let value = entries[from].1;
        let tail = wire_entries(entries, from + 1) + rest;
        assert(decreases_to!(entries => entries[from]));
        assert(decreases_to!(entries[from] => entries[from].1));
        law_round_trip(value, tail);
        lemma_round_trip_entries(entries, from + 1, rest);
        lemma_round_trip_entry(key, value, tail);
        assert(s =~= line(SIMPLE_STRING_PREFIX, encode_utf8(key)) + value.wire() + tail);
        assert(seq![entries[from]] + entries.skip(from + 1) =~= entries.skip(from));
    } else {
        assert(entries.skip(from) =~= Seq::<(Seq<char>, Frame)>::empty());
    }
}

proof fn lemma_round_trip_simple_string(text: Seq<char>, rest: Seq<u8>)
    requires
        Frame::SimpleString(text).valid(),
    ensures
        reads_back(Frame::SimpleString(text), rest),
{
    let s = Frame::SimpleString(text).wire() + rest;
    lemma_line(SIMPLE_STRING_PREFIX, encode_utf8(text), rest);
    lemma_text_of_encoded(text);
    lemma_frame_span(s);
    lemma_frame_value(s);
}

proof fn lemma_round_trip_simple_error(text: Seq<char>, rest: Seq<u8>)
    requires
        Frame::Error(text).valid(),
    ensures
        reads_back(Frame::Error(text), rest),
{
    let s = Frame::Error(text).wire() + rest;
    lemma_line(SIMPLE_ERROR_PREFIX, encode_utf8(text), rest);
    lemma_text_of_encoded(text);
    lemma_frame_span(s);
    lemma_frame_value(s);
}

proof fn lemma_round_trip_integer(value: i64, rest: Seq<u8>)
    ensures
        reads_back(Frame::Integer(value), rest),
{
    let s = Frame::Integer(value).wire() + rest;
    let text = signed_decimal(value as int);
    lemma_signed_decimal_line(value as int);
    lemma_line(INTEGER_PREFIX, text, rest);
    lemma_text_of_ascii(text);
    lemma_integer_of_signed_decimal(value);
    lemma_frame_span(s);
    lemma_frame_value(s);
}

proof fn lemma_round_trip_bulk_string(bytes: Seq<u8>, rest: Seq<u8>)
    requires
        Frame::BulkString(bytes).valid(),
    ensures
        reads_back(Frame::BulkString(bytes), rest),
{
    let s = Frame::BulkString(bytes).wire() + rest;
    let tail = bytes + crlf() + rest;
    assert(s =~= line(BULK_STRING_PREFIX, decimal(bytes.len())) + tail);
    lemma_header(BULK_STRING_PREFIX, bytes.len(), tail);
    let end = 1 + decimal(bytes.len()).len() as int;
    assert(header_text(s, end + 2, end + 2 + bytes.len()) =~= bytes);
    lemma_frame_span(s);
    lemma_frame_value(s);
}

proof fn lemma_round_trip_nulls(rest: Seq<u8>)
    ensures
        reads_back(Frame::NullBulkString, rest),
        reads_back(Frame::NullArray, rest),
        reads_back(Frame::Null, rest),
{
    lemma_null_header_line();
    lemma_line(BULK_STRING_PREFIX, null_header(), rest);
    lemma_frame_span(Frame::NullBulkString.wire() + rest);
    lemma_frame_value(Frame::NullBulkString.wire() + rest);
    lemma_line(ARRAY_PREFIX, null_header(), rest);
    lemma_frame_span(Frame::NullArray.wire() + rest);
    lemma_frame_value(Frame::NullArray.wire() + rest);
    lemma_line(NULL_PREFIX, Seq::empty(), rest);
    lemma_frame_span(Frame::Null.wire() + rest);
    lemma_frame_value(Frame::Null.wire() + rest);
}

proof fn lemma_round_trip_boolean(value: bool, rest: Seq<u8>)
    ensures
        reads_back(Frame::Boolean(value), rest),
{
    let s = Frame::Boolean(value).wire() + rest;
    lemma_line(BOOLEAN_PREFIX, seq![if value { TRUE_BYTE } else { FALSE_BYTE }], rest);
    assert(seq![TRUE_BYTE][0] != seq![FALSE_BYTE][0]);
    lemma_frame_span(s);
    lemma_frame_value(s);
}

proof fn lemma_round_trip_double(text: Seq<u8>, rest: Seq<u8>)
    requires
        Frame::Double(text).valid(),
    ensures
        reads_back(Frame::Double(text), rest),
{
    let s = Frame::Double(text).wire() + rest;
    lemma_double_text_has_no_cr(text);
    lemma_line(DOUBLE_PREFIX, text, rest);
    lemma_frame_span(s);
    lemma_frame_value(s);
}

/// An array or a set reads back where its frames do.
proof fn lemma_round_trip_sequence(prefix: u8, items: Seq<Frame>, rest: Seq<u8>)
    requires
        prefix == ARRAY_PREFIX || prefix == SET_PREFIX,
        items.len() <= usize::MAX,
        frames_span(wire_frames(items, 0) + rest, items.len()) == Ok::<nat, ErrorKind>(
            wire_frames(items, 0).len(),
        ),
        frames_value(wire_frames(items, 0) + rest, items.len()) == Ok::<Seq<Frame>, ErrorKind>(
            items,
        ),
    ensures
        prefix == ARRAY_PREFIX ==> reads_back(Frame::Array(items), rest),
        prefix == SET_PREFIX ==> reads_back(Frame::RespSet(items), rest),
{
    let tail = wire_frames(items, 0) + rest;
    let s = line(prefix, decimal(items.len())) + tail;
    assert(Frame::Array(items).wire() + rest =~= line(ARRAY_PREFIX, decimal(items.len())) + tail);
    assert(Frame::RespSet(items).wire() + rest =~= line(SET_PREFIX, decimal(items.len())) + tail);
    lemma_header(prefix, items.len(), tail);
    lemma_frame_span(s);
    lemma_frame_value(s);
}

/// A map reads back where its entries do and its keys ascend.
proof fn lemma_round_trip_map(entries: Seq<(Seq<char>, Frame)>, rest: Seq<u8>)
    requires
        entries.len() <= usize::MAX,
        keys_ascending(entries),
        entries_span(wire_entries(entries, 0) + rest, entries.len()) == Ok::<nat, ErrorKind>(
            wire_entries(entries, 0).len(),
        ),
        entries_value(wire_entries(entries, 0) + rest, entries.len()) == Ok::<
            Seq<(Seq<char>, Frame)>,
            ErrorKind,
        >(entries),
    ensures
        reads_back(Frame::RespMap(entries), rest),
{
    let tail = wire_entries(entries, 0) + rest;
    let s = line(MAP_PREFIX, decimal(entries.len())) + tail;
    assert(Frame::RespMap(entries).wire() + rest =~= s);
    lemma_header(MAP_PREFIX, entries.len(), tail);
    lemma_map_of_sorted(entries);
    lemma_frame_span(s);
    lemma_frame_value(s);
}

/// Round trip: the bytes that the encoder writes for a valid frame read back
/// as that frame, and the reading takes exactly those bytes, whatever follows
/// them in the buffer.
///
/// Which frames are valid says [`Frame::valid`]. Of the values that can be
/// built, only text with a line terminator inside is not: the line ends there,
/// so a simple string, an error or a map key of that kind reads back cut short.
pub proof fn law_round_trip(v: Frame, rest: Seq<u8>)
    requires
        v.valid(),
    ensures
        frame_span(v.wire() + rest) == Ok::<nat, ErrorKind>(v.wire().len()),
        frame_value(v.wire() + rest) == Ok::<Frame, ErrorKind>(v),
        decoded(v.wire() + rest) == Ok::<(Frame, nat), ErrorKind>((v, v.wire().len())),
    decreases v, 0nat,
{
    match v {
        Frame::SimpleString(text) => {
            lemma_round_trip_simple_string(text, rest);
        },
        Frame::Error(text) => {
            lemma_round_trip_simple_error(text, rest);
        },
        Frame::Integer(value) => {
            lemma_round_trip_integer(value, rest);
        },
        Frame::BulkString(bytes) => {
            lemma_round_trip_bulk_string(bytes, rest);
        },
        Frame::NullBulkString => {
            lemma_round_trip_nulls(rest);
        },
        Frame::Array(items) => {
            assert(decreases_to!(v => v->Array_0));
            lemma_round_trip_frames(items, 0, rest);
            assert(items.skip(0) =~= items);
            lemma_round_trip_sequence(ARRAY_PREFIX, items, rest);
        },
        Frame::Null => {
            lemma_round_trip_nulls(rest);
        },
        Frame::NullArray => {
            lemma_round_trip_nulls(rest);
        },
        Frame::Boolean(value) => {
            lemma_round_trip_boolean(value, rest);
        },
        Frame::Double(text) => {
            lemma_round_trip_double(text, rest);
        },
        Frame::RespMap(entries) => {
            assert(decreases_to!(v => v->RespMap_0));
            lemma_round_trip_entries(entries, 0, rest);
            assert(entries.skip(0) =~= entries);
            lemma_round_trip_map(entries, rest);
        },
        Frame::RespSet(items) => {
            assert(decreases_to!(v => v->RespSet_0));
            lemma_round_trip_frames(items, 0, rest);
            assert(items.skip(0) =~= items);
            lemma_round_trip_sequence(SET_PREFIX, items, rest);
        },
    }
}

/// The text of an integer can stand in a line and is plain ASCII.
pub proof fn lemma_signed_decimal_line(i: int)
    ensures
        is_line_text(signed_decimal(i)),
        is_ascii_bytes(signed_decimal(i)),
{
    let n = if i < 0 {
        (-i) as nat
    } else {
        i as nat
    };
    lemma_decimal(n);
    let d = decimal(n);
    let t = signed_decimal(i);
    assert forall|k: int| 0 <= k < t.len() implies #[trigger] t[k] != CR && t[k] < 128 by {
        if k > 0 {
            assert(t[k] == d[k - 1]);
            assert(is_digit(d[k - 1]));
        }
    }
}

/// The header `-1` can stand in a line.
pub proof fn lemma_null_header_line()
    ensures
        is_line_text(null_header()),
{
}

} // verus!
