//! The decoder: the frame at the front of a buffer as a value, taken out of
//! the buffer only once all of it is there and all of it is well-formed.
use vstd::prelude::*;
use vstd::slice::{slice_subrange, slice_to_vec};
use vstd::string::StringSliceAdditionalSpecFns;
use bytes::BytesMut;
use crate::buffer::{buffer_advance, buffer_bytes, buffer_slice};
use crate::double::RespDouble;
use crate::error::{describe, ErrorKind, RespError};
use crate::frame::{
    frames_view, BulkString, RespArray, RespFrame, RespMap, RespNull, RespNullArray,
    RespNullBulkString, RespSet, SimpleError, SimpleString,
};
use crate::grammar::{
    after, boolean_frame_value, bulk_frame_value, bulk_span, double_frame_value, entries_span,
    entries_value, entry_span, frame_span, frame_value, frames_span, frames_value,
    integer_frame_value, lemma_frame_span, lemma_frame_value, line_span, map_span, map_value,
    null_frame_value, null_span, payload, prepend, sentinel_span, sequence_span, sequence_value,
};
use crate::length::{
    bulk_length, frame_length, is_span, lemma_prefixes, line_length, map_length, null_length,
    parse_length, sentinel_length, sequence_length,
};
use crate::line::{extract_simple_frame_data, first_crlf, CR, CRLF_LEN, LF};
use crate::model::{
    map_of, Frame, ARRAY_PREFIX, BOOLEAN_PREFIX, BULK_STRING_PREFIX, DOUBLE_PREFIX, FALSE_BYTE,
    INTEGER_PREFIX, MAP_PREFIX, NULL_PREFIX, SET_PREFIX, SIMPLE_ERROR_PREFIX,
    SIMPLE_STRING_PREFIX, TRUE_BYTE,
};
use crate::text::{parse_integer, text_from_bytes, text_of};

verus! {

/// What reading the front of a slice gives, for a frame whose span and value
/// are `span` and `value`: the error of the span, else the error of the value,
/// else the value together with the span.
spec fn is_reading<T: View>(
    r: Result<(T, usize), RespError>,
    span: Result<nat, ErrorKind>,
    value: Result<T::V, ErrorKind>,
) -> bool {
    match span {
        Err(kind) => r matches Err(e) && e.kind() == kind,
        Ok(n) => match value {
            Err(kind) => r matches Err(e) && e.kind() == kind,
            Ok(v) => r matches Ok(p) && p.0@ == v && p.1 == n,
        },
    }
}

/// What decoding does to a buffer that held `before` and holds `after`, for a
/// frame whose span and value are `span` and `value`: on any error the buffer
/// is as it was, and on success the span has left its front.
pub open spec fn is_decoding<T: View>(
    before: Seq<u8>,
    after: Seq<u8>,
    r: Result<T, RespError>,
    span: Result<nat, ErrorKind>,
    value: Result<T::V, ErrorKind>,
) -> bool {
    match span {
        Err(kind) => r matches Err(e) && e.kind() == kind && after == before,
        Ok(n) => match value {
            Err(kind) => r matches Err(e) && e.kind() == kind && after == before,
            Ok(v) => r matches Ok(f) && f@ == v && n <= before.len() && after == before.skip(
                n as int,
            ),
        },
    }
}

/// A frame type that can be read from bytes.
pub trait RespDecode: Sized + View {
    /// The byte that every frame of this type starts with, as text; empty for
    /// the type that stands for all of them.
    const PREFIX: &'static str;

    /// How far the frame of this type at the front of `s` reaches.
    spec fn span(s: Seq<u8>) -> Result<nat, ErrorKind>;

    /// The value of the frame of this type at the front of `s`, where `s`
    /// holds all of it.
    spec fn value(s: Seq<u8>) -> Result<Self::V, ErrorKind>;

    /// Takes one frame from the front of the buffer. The buffer loses exactly
    /// the bytes of that frame, and it loses nothing where an error comes
    /// back: a frame that is not complete yet, or not well-formed, stays.
    fn decode(buf: &mut BytesMut) -> (r: Result<Self, RespError>)
        ensures
            is_decoding(
                buffer_bytes(*old(buf)),
                buffer_bytes(*final(buf)),
                r,
                Self::span(buffer_bytes(*old(buf))),
                Self::value(buffer_bytes(*old(buf))),
            ),
    ;

    /// The number of bytes that the frame at the front of `buf` takes, or
    /// `NotComplete` where the buffer ends before the frame does.
    fn expect_length(buf: &[u8]) -> (r: Result<usize, RespError>)
        ensures
            is_span(r, Self::span(buf@)),
            r matches Ok(n) ==> n <= buf.len(),
    ;
}

/// Takes what was read from the front of the buffer, where reading succeeded.
fn commit<T: View>(buf: &mut BytesMut, reading: Result<(T, usize), RespError>) -> (r: Result<
    T,
    RespError,
>)
    requires
        reading matches Ok(p) ==> p.1 <= buffer_bytes(*old(buf)).len(),
    ensures
        match reading {
            Ok(p) => r matches Ok(f) && f == p.0 && buffer_bytes(*final(buf)) == buffer_bytes(
                *old(buf),
            ).skip(p.1 as int),
            Err(e) => r matches Err(x) && x == e && buffer_bytes(*final(buf)) == buffer_bytes(
                *old(buf),
            ),
        },
{
    match reading {
        Ok((value, n)) => {
            buffer_advance(buf, n);
            Ok(value)
        },
        Err(e) => Err(e),
    }
}

/// The payload of a one-line frame whose line ends at `end`.
fn payload_of(s: &[u8], end: usize) -> (r: &[u8])
    requires
        first_crlf(s@) == Some(end as int),
        end <= s.len(),
    ensures
        r@ == payload(s@),
{
    let r = if 1 <= end {
        slice_subrange(s, 1, end)
    } else {
        slice_subrange(s, 0, 0)
    };
    assert(r@ =~= payload(s@));
    r
}

/// Reads a line of text behind the given prefix.
fn read_text(s: &[u8], prefix: &str) -> (r: Result<(String, usize), RespError>)
    requires
        prefix.spec_bytes().len() == 1,
    ensures
        match line_span(s@, prefix.spec_bytes()[0]) {
            Ok(n) => r matches Ok(p) && p.0@ == text_of(payload(s@)) && p.1 == n && n <= s.len(),
            Err(kind) => r matches Err(e) && e.kind() == kind,
        },
{
    assert(prefix.spec_bytes() =~= seq![prefix.spec_bytes()[0]]);
    match extract_simple_frame_data(s, prefix) {
        Ok(end) => {
            let text = text_from_bytes(payload_of(s, end));
            Ok((text, end + CRLF_LEN))
        },
        Err(e) => Err(e),
    }
}

fn read_simple_string(s: &[u8]) -> (r: Result<(SimpleString, usize), RespError>)
    ensures
        is_reading(r, SimpleString::span(s@), SimpleString::value(s@)),
        r matches Ok(p) ==> p.1 <= s.len(),
{
    proof {
        lemma_prefixes();
    }
    match read_text(s, "+") {
        Ok((text, n)) => Ok((SimpleString::new(text), n)),
        Err(e) => Err(e),
    }
}

fn read_simple_error(s: &[u8]) -> (r: Result<(SimpleError, usize), RespError>)
    ensures
        is_reading(r, SimpleError::span(s@), SimpleError::value(s@)),
        r matches Ok(p) ==> p.1 <= s.len(),
{
    proof {
        lemma_prefixes();
    }
    match read_text(s, "-") {
        Ok((text, n)) => Ok((SimpleError::new(text), n)),
        Err(e) => Err(e),
    }
}

fn read_integer(s: &[u8]) -> (r: Result<(i64, usize), RespError>)
    ensures
        is_reading(r, i64::span(s@), i64::value(s@)),
        r matches Ok(p) ==> p.1 <= s.len(),
{
    proof {
        lemma_prefixes();
    }
    match read_text(s, ":") {
        Ok((text, n)) => match parse_integer(text.as_str()) {
            Ok(value) => Ok((value, n)),
            Err(e) => Err(RespError::ParseIntError(e)),
        },
        Err(e) => Err(e),
    }
}

fn read_boolean(s: &[u8]) -> (r: Result<(bool, usize), RespError>)
    ensures
        is_reading(r, bool::span(s@), bool::value(s@)),
        r matches Ok(p) ==> p.1 <= s.len(),
{
    proof {
        lemma_prefixes();
    }
    match extract_simple_frame_data(s, "#") {
        Ok(end) => {
            let text = payload_of(s, end);
            if text.len() == 1 && text[0] == TRUE_BYTE {
                assert(text@ =~= seq![TRUE_BYTE]);
                Ok((true, end + CRLF_LEN))
            } else if text.len() == 1 && text[0] == FALSE_BYTE {
                assert(text@ =~= seq![FALSE_BYTE]);
                Ok((false, end + CRLF_LEN))
            } else {
                assert(text@ != seq![TRUE_BYTE] && text@ != seq![FALSE_BYTE]) by {
                    if text@ == seq![TRUE_BYTE] || text@ == seq![FALSE_BYTE] {
                        assert(text@.len() == 1);
                    }
                }
                Err(RespError::InvalidFrame(describe("t or f", text)))
            }
        },
        Err(e) => Err(e),
    }
}

fn read_double(s: &[u8]) -> (r: Result<(RespDouble, usize), RespError>)
    ensures
        is_reading(r, RespDouble::span(s@), RespDouble::value(s@)),
        r matches Ok(p) ==> p.1 <= s.len(),
{
    proof {
        lemma_prefixes();
    }
    match extract_simple_frame_data(s, ",") {
        Ok(end) => {
            let text = payload_of(s, end);
            match RespDouble::from_bytes(text) {
                Some(value) => Ok((value, end + CRLF_LEN)),
                None => Err(RespError::ParseFloatError(text_from_bytes(text))),
            }
        },
        Err(e) => Err(e),
    }
}

fn read_null(s: &[u8]) -> (r: Result<(RespNull, usize), RespError>)
    ensures
        is_reading(r, RespNull::span(s@), RespNull::value(s@)),
        r matches Ok(p) ==> p.1 <= s.len(),
{
    match null_length(s) {
        Ok(n) => if s[1] == CR && s[2] == LF {
            Ok((RespNull, n))
        } else {
            Err(RespError::InvalidFrame(describe("a line terminator", s)))
        },
        Err(e) => Err(e),
    }
}

fn read_null_bulk_string(s: &[u8]) -> (r: Result<(RespNullBulkString, usize), RespError>)
    ensures
        is_reading(r, RespNullBulkString::span(s@), RespNullBulkString::value(s@)),
        r matches Ok(p) ==> p.1 <= s.len(),
{
    proof {
        lemma_prefixes();
    }
    match sentinel_length(s, "$") {
        Ok(n) => Ok((RespNullBulkString, n)),
        Err(e) => Err(e),
    }
}

fn read_null_array(s: &[u8]) -> (r: Result<(RespNullArray, usize), RespError>)
    ensures
        is_reading(r, RespNullArray::span(s@), RespNullArray::value(s@)),
        r matches Ok(p) ==> p.1 <= s.len(),
{
    proof {
        lemma_prefixes();
    }
    match sentinel_length(s, "*") {
        Ok(n) => Ok((RespNullArray, n)),
        Err(e) => Err(e),
    }
}

fn read_bulk_string(s: &[u8]) -> (r: Result<(BulkString, usize), RespError>)
    ensures
        is_reading(r, BulkString::span(s@), BulkString::value(s@)),
        r matches Ok(p) ==> p.1 <= s.len(),
{
    proof {
        lemma_prefixes();
    }
    let n = match bulk_length(s) {
        Ok(n) => n,
        Err(e) => {
            return Err(e);
        },
    };
    match parse_length(s, "$") {
        Ok((end, length)) => {
            let bytes = slice_subrange(s, end + CRLF_LEN, end + CRLF_LEN + length);
            assert(bytes@ =~= bulk_frame_value(s@));
            Ok((BulkString::new(slice_to_vec(bytes)), n))
        },
        Err(e) => Err(e),
    }
}

/// A list of values with more values in front.
spec fn prepend_all<A>(front: Seq<A>, rest: Result<Seq<A>, ErrorKind>) -> Result<
    Seq<A>,
    ErrorKind,
> {
    match rest {
        Ok(values) => Ok(front + values),
        Err(kind) => Err(kind),
    }
}

proof fn lemma_prepend_all_step<A>(front: Seq<A>, next: A, rest: Result<Seq<A>, ErrorKind>)
    ensures
        prepend_all(front, prepend(next, rest)) == prepend_all(front.push(next), rest),
{
    match rest {
        Ok(values) => {
            assert(front + (seq![next] + values) =~= front.push(next) + values);
        },
        Err(_) => {},
    }
}

/// Reads the frames of an array (`prefix` is `*`) or of a set (`~`).
fn read_frames(s: &[u8], prefix: &str) -> (r: Result<(Vec<RespFrame>, usize), RespError>)
    requires
        prefix.spec_bytes() == seq![ARRAY_PREFIX] || prefix.spec_bytes() == seq![SET_PREFIX],
    ensures
        match sequence_span(s@, prefix.spec_bytes()[0]) {
            Err(kind) => r matches Err(e) && e.kind() == kind,
            Ok(n) => match sequence_value(s@, prefix.spec_bytes()[0]) {
                Err(kind) => r matches Err(e) && e.kind() == kind,
                Ok(v) => r matches Ok(p) && frames_view(p.0) == v && p.1 == n && n <= s.len(),
            },
        },
    decreases s@.len(), 1nat,
{
    assert(prefix.spec_bytes() =~= seq![prefix.spec_bytes()[0]]);
    let total = match sequence_length(s, prefix) {
        Ok(n) => n,
        Err(e) => {
            return Err(e);
        },
    };
    let (end, count) = match parse_length(s, prefix) {
        Ok(header) => header,
        Err(e) => {
            return Err(e);
        },
    };
    let base = end + CRLF_LEN;
    let ghost tag = prefix.spec_bytes()[0];
    let ghost start = s@.skip(base as int);
    let mut items: Vec<RespFrame> = Vec::new();
    let mut pos: usize = base;
    let mut i: usize = 0;
    assert(prepend_all(frames_view(items), frames_value(start, count as nat)) == frames_value(
        start,
        count as nat,
    )) by {
        assert(frames_view(items) =~= Seq::<Frame>::empty());
        match frames_value(start, count as nat) {
            Ok(values) => {
                assert(frames_view(items) + values =~= values);
            },
            Err(_) => {},
        }
    }
    while i < count
        invariant
            base == end + CRLF_LEN,
            base <= pos <= s.len(),
            i <= count,
            start == s@.skip(base as int),
            tag == prefix.spec_bytes()[0],
            sequence_span(s@, tag) == Ok::<nat, ErrorKind>(total as nat),
            sequence_span(s@, tag) == after(base as int, frames_span(start, count as nat)),
            sequence_value(s@, tag) == frames_value(start, count as nat),
            frames_span(start, count as nat) == after(
                pos - base,
                frames_span(s@.skip(pos as int), (count - i) as nat),
            ),
            frames_value(start, count as nat) == prepend_all(
                frames_view(items),
                frames_value(s@.skip(pos as int), (count - i) as nat),
            ),
        decreases count - i,
    {
        let data = slice_subrange(s, pos, s.len());
        assert(data@ =~= s@.skip(pos as int));
        match read_frame(data) {
            Ok((item, n)) => {
                let ghost front = frames_view(items);
                let ghost item_view = item@;
                proof {
                    assert(data@.skip(n as int) =~= s@.skip(pos + n));
                    lemma_prepend_all_step(
                        front,
                        item_view,
                        frames_value(data@.skip(n as int), (count - i - 1) as nat),
                    );
                }
                items.push(item);
                assert(frames_view(items) =~= front.push(item_view));
                pos += n;
            },
            Err(e) => {
                return Err(e);
            },
        }
        i += 1;
    }
    assert(frames_view(items) + Seq::<Frame>::empty() =~= frames_view(items));
    Ok((items, pos))
}

/// Reads a map: its entries are put into the map one after the other.
fn read_map(s: &[u8]) -> (r: Result<(RespMap, usize), RespError>)
    ensures
        is_reading(r, RespMap::span(s@), RespMap::value(s@)),
        r matches Ok(p) ==> p.1 <= s.len(),
    decreases s@.len(), 1nat,
{
    proof {
        lemma_prefixes();
    }
    let total = match map_length(s) {
        Ok(n) => n,
        Err(e) => {
            return Err(e);
        },
    };
    let (end, count) = match parse_length(s, "%") {
        Ok(header) => header,
        Err(e) => {
            return Err(e);
        },
    };
    let base = end + CRLF_LEN;
    let ghost start = s@.skip(base as int);
    let mut map = RespMap::new();
    let ghost mut pairs: Seq<(Seq<char>, Frame)> = Seq::empty();
    let mut pos: usize = base;
    let mut i: usize = 0;
    assert(prepend_all(pairs, entries_value(start, count as nat)) == entries_value(
        start,
        count as nat,
    )) by {
        match entries_value(start, count as nat) {
            Ok(values) => {
                assert(pairs + values =~= values);
            },
            Err(_) => {},
        }
    }
    while i < count
        invariant
            base == end + CRLF_LEN,
            base <= pos <= s.len(),
            i <= count,
            start == s@.skip(base as int),
            map_span(s@) == Ok::<nat, ErrorKind>(total as nat),
            map_span(s@) == after(base as int, entries_span(start, count as nat)),
            map_value(s@) == (match entries_value(start, count as nat) {
                Ok(all) => Ok::<Seq<(Seq<char>, Frame)>, ErrorKind>(map_of(all)),
                Err(kind) => Err(kind),
            }),
            map@ == map_of(pairs),
            entries_span(start, count as nat) == after(
                pos - base,
                entries_span(s@.skip(pos as int), (count - i) as nat),
            ),
            entries_value(start, count as nat) == prepend_all(
                pairs,
                entries_value(s@.skip(pos as int), (count - i) as nat),
            ),
            "+".spec_bytes() == seq![SIMPLE_STRING_PREFIX],
        decreases count - i,
    {
        let data = slice_subrange(s, pos, s.len());
        assert(data@ =~= s@.skip(pos as int));
        let ghost rest = entry_span(data@);
        assert(rest == match line_span(data@, SIMPLE_STRING_PREFIX) {
            Ok(k) => if k <= data@.len() {
                after(k as int, frame_span(data@.skip(k as int)))
            } else {
                Err(ErrorKind::NotComplete)
            },
            Err(kind) => Err(kind),
        });
        let (key, k) = match read_text(data, "+") {
            Ok(line) => line,
            Err(e) => {
                return Err(e);
            },
        };
        let item = slice_subrange(data, k, data.len());
        assert(item@ =~= data@.skip(k as int));
        match read_frame(item) {
            Ok((value, n)) => {
                proof {
                    assert(data@.skip((k + n) as int) =~= s@.skip(pos + k + n));
                    lemma_prepend_all_step(
                        pairs,
                        (key@, value@),
                        entries_value(data@.skip((k + n) as int), (count - i - 1) as nat),
                    );
                    assert(pairs.push((key@, value@)).drop_last() =~= pairs);
                    pairs = pairs.push((key@, value@));
                }
                map.insert(key, value);
                pos += k + n;
            },
            Err(e) => {
                return Err(e);
            },
        }
        i += 1;
    }
    assert(pairs + Seq::<(Seq<char>, Frame)>::empty() =~= pairs);
    Ok((map, pos))
}

/// Reads the frame at the front of `s`, whatever its type.
fn read_frame(s: &[u8]) -> (r: Result<(RespFrame, usize), RespError>)
    ensures
        is_reading(r, frame_span(s@), frame_value(s@)),
        r matches Ok(p) ==> p.1 <= s.len(),
    decreases s@.len(), 2nat,
{
    proof {
        lemma_prefixes();
        lemma_frame_span(s@);
    }
    if s.len() == 0 {
        return Err(RespError::NotComplete);
    }
    proof {
        lemma_frame_value(s@);
    }
    let b = s[0];
    if b == SIMPLE_STRING_PREFIX {
        match read_simple_string(s) {
            Ok((value, n)) => Ok((RespFrame::SimpleString(value), n)),
            Err(e) => Err(e),
        }
    } else if b == SIMPLE_ERROR_PREFIX {
        match read_simple_error(s) {
            Ok((value, n)) => Ok((RespFrame::Error(value), n)),
            Err(e) => Err(e),
        }
    } else if b == INTEGER_PREFIX {
        match read_integer(s) {
            Ok((value, n)) => Ok((RespFrame::Integer(value), n)),
            Err(e) => Err(e),
        }
    } else if b == BOOLEAN_PREFIX {
        match read_boolean(s) {
            Ok((value, n)) => Ok((RespFrame::Boolean(value), n)),
            Err(e) => Err(e),
        }
    } else if b == DOUBLE_PREFIX {
        match read_double(s) {
            Ok((value, n)) => Ok((RespFrame::Double(value), n)),
            Err(e) => Err(e),
        }
    } else if b == NULL_PREFIX {
        match read_null(s) {
            Ok((value, n)) => Ok((RespFrame::Null(value), n)),
            Err(e) => Err(e),
        }
    } else if b == BULK_STRING_PREFIX {
        match sentinel_length(s, "$") {
            Ok(n) => Ok((RespFrame::NullBulkString(RespNullBulkString), n)),
            Err(e) => match e {
                RespError::InvalidFrameType(_) => match read_bulk_string(s) {
                    Ok((value, n)) => Ok((RespFrame::BulkString(value), n)),
                    Err(e) => Err(e),
                },
                _ => Err(e),
            },
        }
    } else if b == ARRAY_PREFIX {
        match sentinel_length(s, "*") {
            Ok(n) => Ok((RespFrame::NullArray(RespNullArray), n)),
            Err(e) => match e {
                RespError::InvalidFrameType(_) => match read_frames(s, "*") {
                    Ok((items, n)) => {
                        let value = RespArray::new(items);
                        assert(value@ =~= frames_view(value.0));
                        Ok((RespFrame::Array(value), n))
                    },
                    Err(e) => Err(e),
                },
                _ => Err(e),
            },
        }
    } else if b == SET_PREFIX {
        match read_frames(s, "~") {
            Ok((items, n)) => Ok((RespFrame::RespSet(RespSet::new(items)), n)),
            Err(e) => Err(e),
        }
    } else if b == MAP_PREFIX {
        match read_map(s) {
            Ok((value, n)) => Ok((RespFrame::RespMap(value), n)),
            Err(e) => Err(e),
        }
    } else {
        Err(RespError::InvalidFrameType(describe("a frame", s)))
    }
}

impl RespDecode for RespFrame {
    const PREFIX: &'static str = "";

    open spec fn span(s: Seq<u8>) -> Result<nat, ErrorKind> {
        frame_span(s)
    }

    open spec fn value(s: Seq<u8>) -> Result<Frame, ErrorKind> {
        frame_value(s)
    }

    fn decode(buf: &mut BytesMut) -> (r: Result<Self, RespError>) {
        let reading = read_frame(buffer_slice(buf));
        commit(buf, reading)
    }

    fn expect_length(buf: &[u8]) -> (r: Result<usize, RespError>) {
        frame_length(buf)
    }
}

impl RespDecode for SimpleString {
    const PREFIX: &'static str = "+";

    open spec fn span(s: Seq<u8>) -> Result<nat, ErrorKind> {
        line_span(s, SIMPLE_STRING_PREFIX)
    }

    open spec fn value(s: Seq<u8>) -> Result<Seq<char>, ErrorKind> {
        Ok(text_of(payload(s)))
    }

    fn decode(buf: &mut BytesMut) -> (r: Result<Self, RespError>) {
        let reading = read_simple_string(buffer_slice(buf));
        commit(buf, reading)
    }

    fn expect_length(buf: &[u8]) -> (r: Result<usize, RespError>) {
        proof {
            lemma_prefixes();
        }
        line_length(buf, "+")
    }
}

impl RespDecode for SimpleError {
    const PREFIX: &'static str = "-";

    open spec fn span(s: Seq<u8>) -> Result<nat, ErrorKind> {
        line_span(s, SIMPLE_ERROR_PREFIX)
    }

    open spec fn value(s: Seq<u8>) -> Result<Seq<char>, ErrorKind> {
        Ok(text_of(payload(s)))
    }

    fn decode(buf: &mut BytesMut) -> (r: Result<Self, RespError>) {
        let reading = read_simple_error(buffer_slice(buf));
        commit(buf, reading)
    }

    fn expect_length(buf: &[u8]) -> (r: Result<usize, RespError>) {
        proof {
            lemma_prefixes();
        }
        line_length(buf, "-")
    }
}

impl RespDecode for i64 {
    const PREFIX: &'static str = ":";

    open spec fn span(s: Seq<u8>) -> Result<nat, ErrorKind> {
        line_span(s, INTEGER_PREFIX)
    }

    open spec fn value(s: Seq<u8>) -> Result<i64, ErrorKind> {
        integer_frame_value(s)
    }

    fn decode(buf: &mut BytesMut) -> (r: Result<Self, RespError>) {
        let reading = read_integer(buffer_slice(buf));
        commit(buf, reading)
    }

    fn expect_length(buf: &[u8]) -> (r: Result<usize, RespError>) {
        proof {
            lemma_prefixes();
        }
        line_length(buf, ":")
    }
}

impl RespDecode for bool {
    const PREFIX: &'static str = "#";

    open spec fn span(s: Seq<u8>) -> Result<nat, ErrorKind> {
        line_span(s, BOOLEAN_PREFIX)
    }

    open spec fn value(s: Seq<u8>) -> Result<bool, ErrorKind> {
        boolean_frame_value(s)
    }

    fn decode(buf: &mut BytesMut) -> (r: Result<Self, RespError>) {
        let reading = read_boolean(buffer_slice(buf));
        commit(buf, reading)
    }

    fn expect_length(buf: &[u8]) -> (r: Result<usize, RespError>) {
        proof {
            lemma_prefixes();
        }
        line_length(buf, "#")
    }
}

impl RespDecode for RespDouble {
    const PREFIX: &'static str = ",";

    open spec fn span(s: Seq<u8>) -> Result<nat, ErrorKind> {
        line_span(s, DOUBLE_PREFIX)
    }

    open spec fn value(s: Seq<u8>) -> Result<Seq<u8>, ErrorKind> {
        double_frame_value(s)
    }

    fn decode(buf: &mut BytesMut) -> (r: Result<Self, RespError>) {
        let reading = read_double(buffer_slice(buf));
        commit(buf, reading)
    }

    fn expect_length(buf: &[u8]) -> (r: Result<usize, RespError>) {
        proof {
            lemma_prefixes();
        }
        line_length(buf, ",")
    }
}

impl RespDecode for RespNull {
    const PREFIX: &'static str = "_";

    open spec fn span(s: Seq<u8>) -> Result<nat, ErrorKind> {
        null_span(s)
    }

    open spec fn value(s: Seq<u8>) -> Result<(), ErrorKind> {
        null_frame_value(s)
    }

    fn decode(buf: &mut BytesMut) -> (r: Result<Self, RespError>) {
        let reading = read_null(buffer_slice(buf));
        commit(buf, reading)
    }

    fn expect_length(buf: &[u8]) -> (r: Result<usize, RespError>) {
        null_length(buf)
    }
}

impl RespDecode for RespNullBulkString {
    const PREFIX: &'static str = "$";

    open spec fn span(s: Seq<u8>) -> Result<nat, ErrorKind> {
        sentinel_span(s, BULK_STRING_PREFIX)
    }

    open spec fn value(s: Seq<u8>) -> Result<(), ErrorKind> {
        Ok(())
    }

    fn decode(buf: &mut BytesMut) -> (r: Result<Self, RespError>) {
        let reading = read_null_bulk_string(buffer_slice(buf));
        commit(buf, reading)
    }

    fn expect_length(buf: &[u8]) -> (r: Result<usize, RespError>) {
        proof {
            lemma_prefixes();
        }
        sentinel_length(buf, "$")
    }
}

impl RespDecode for RespNullArray {
    const PREFIX: &'static str = "*";

    open spec fn span(s: Seq<u8>) -> Result<nat, ErrorKind> {
        sentinel_span(s, ARRAY_PREFIX)
    }

    open spec fn value(s: Seq<u8>) -> Result<(), ErrorKind> {
        Ok(())
    }

    fn decode(buf: &mut BytesMut) -> (r: Result<Self, RespError>) {
        let reading = read_null_array(buffer_slice(buf));
        commit(buf, reading)
    }

    fn expect_length(buf: &[u8]) -> (r: Result<usize, RespError>) {
        proof {
            lemma_prefixes();
        }
        sentinel_length(buf, "*")
    }
}

impl RespDecode for BulkString {
    const PREFIX: &'static str = "$";

    open spec fn span(s: Seq<u8>) -> Result<nat, ErrorKind> {
        bulk_span(s)
    }

    open spec fn value(s: Seq<u8>) -> Result<Seq<u8>, ErrorKind> {
        Ok(bulk_frame_value(s))
    }

    fn decode(buf: &mut BytesMut) -> (r: Result<Self, RespError>) {
        let reading = read_bulk_string(buffer_slice(buf));
        commit(buf, reading)
    }

    fn expect_length(buf: &[u8]) -> (r: Result<usize, RespError>) {
        bulk_length(buf)
    }
}

impl RespDecode for RespArray {
    const PREFIX: &'static str = "*";

    open spec fn span(s: Seq<u8>) -> Result<nat, ErrorKind> {
        sequence_span(s, ARRAY_PREFIX)
    }

    open spec fn value(s: Seq<u8>) -> Result<Seq<Frame>, ErrorKind> {
        sequence_value(s, ARRAY_PREFIX)
    }

    fn decode(buf: &mut BytesMut) -> (r: Result<Self, RespError>) {
        proof {
            lemma_prefixes();
        }
        let reading = match read_frames(buffer_slice(buf), "*") {
            Ok((items, n)) => {
                let value = RespArray::new(items);
                assert(value@ =~= frames_view(value.0));
                Ok((value, n))
            },
            Err(e) => Err(e),
        };
        commit(buf, reading)
    }

    fn expect_length(buf: &[u8]) -> (r: Result<usize, RespError>) {
        proof {
            lemma_prefixes();
        }
        sequence_length(buf, "*")
    }
}

impl RespDecode for RespSet {
    const PREFIX: &'static str = "~";

    open spec fn span(s: Seq<u8>) -> Result<nat, ErrorKind> {
        sequence_span(s, SET_PREFIX)
    }

    open spec fn value(s: Seq<u8>) -> Result<Seq<Frame>, ErrorKind> {
        sequence_value(s, SET_PREFIX)
    }

    fn decode(buf: &mut BytesMut) -> (r: Result<Self, RespError>) {
        proof {
            lemma_prefixes();
        }
        let reading = match read_frames(buffer_slice(buf), "~") {
            Ok((items, n)) => Ok((RespSet::new(items), n)),
            Err(e) => Err(e),
        };
        commit(buf, reading)
    }

    fn expect_length(buf: &[u8]) -> (r: Result<usize, RespError>) {
        proof {
            lemma_prefixes();
        }
        sequence_length(buf, "~")
    }
}

impl RespDecode for RespMap {
    const PREFIX: &'static str = "%";

    open spec fn span(s: Seq<u8>) -> Result<nat, ErrorKind> {
        map_span(s)
    }

    open spec fn value(s: Seq<u8>) -> Result<Seq<(Seq<char>, Frame)>, ErrorKind> {
        map_value(s)
    }

    fn decode(buf: &mut BytesMut) -> (r: Result<Self, RespError>) {
        let reading = read_map(buffer_slice(buf));
        commit(buf, reading)
    }

    fn expect_length(buf: &[u8]) -> (r: Result<usize, RespError>) {
        map_length(buf)
    }
}

} // verus!
