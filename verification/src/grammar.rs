//! What the bytes at the front of a buffer mean: how far a frame reaches, and
//! which value it holds.
use vstd::prelude::*;
use vstd::utf8::encode_utf8;
use crate::double::{is_double_text, with_sign};
use crate::error::ErrorKind;
use crate::line::{first_crlf, simple_frame_end, CR, LF};
use crate::model::{
    map_of, null_header, Frame, ARRAY_PREFIX, BOOLEAN_PREFIX, BULK_STRING_PREFIX, DOUBLE_PREFIX,
    FALSE_BYTE, INTEGER_PREFIX, MAP_PREFIX, NULL_PREFIX, SET_PREFIX, SIMPLE_ERROR_PREFIX,
    SIMPLE_STRING_PREFIX, TRUE_BYTE,
};
use crate::number::{count_value, integer_value};
use crate::text::text_of;

verus! {

/// A span moved behind `base` bytes that came before it.
pub open spec fn after(base: int, span: Result<nat, ErrorKind>) -> Result<nat, ErrorKind> {
    match span {
        Ok(n) => Ok((base + n) as nat),
        Err(kind) => Err(kind),
    }
}

/// A list of values with one more value in front.
pub open spec fn prepend<A>(first: A, rest: Result<Seq<A>, ErrorKind>) -> Result<
    Seq<A>,
    ErrorKind,
> {
    match rest {
        Ok(values) => Ok(seq![first] + values),
        Err(kind) => Err(kind),
    }
}

/// The text between a prefix of the given length and the line end at `end`.
/// Empty where the line ends inside the prefix.
pub open spec fn header_text(s: Seq<u8>, prefix_len: int, end: int) -> Seq<u8> {
    if 0 <= prefix_len <= end <= s.len() {
        s.subrange(prefix_len, end)
    } else {
        Seq::empty()
    }
}

/// The payload of a frame that is one line: what stands between its prefix
/// byte and its line end.
pub open spec fn payload(s: Seq<u8>) -> Seq<u8> {
    match first_crlf(s) {
        Some(end) => header_text(s, 1, end),
        None => Seq::empty(),
    }
}

/// The frames that are one line: simple string, simple error, integer,
/// boolean, double.
pub open spec fn is_line_prefix(b: u8) -> bool {
    ||| b == SIMPLE_STRING_PREFIX
    ||| b == SIMPLE_ERROR_PREFIX
    ||| b == INTEGER_PREFIX
    ||| b == BOOLEAN_PREFIX
    ||| b == DOUBLE_PREFIX
}

/// How far a one-line frame with the given prefix reaches: to behind its line
/// terminator.
pub open spec fn line_span(s: Seq<u8>, prefix: u8) -> Result<nat, ErrorKind> {
    match simple_frame_end(s, seq![prefix]) {
        Ok(end) => Ok((end + 2) as nat),
        Err(kind) => Err(kind),
    }
}

/// How far the null reaches: three bytes, once they are there.
pub open spec fn null_span(s: Seq<u8>) -> Result<nat, ErrorKind> {
    if s.len() < 3 {
        Err(ErrorKind::NotComplete)
    } else if s[0] != NULL_PREFIX {
        Err(ErrorKind::InvalidFrameType)
    } else {
        Ok(3)
    }
}

/// How far a null bulk string or a null array reaches: a header line that reads
/// `-1`. A header that reads anything else is a frame of another type.
pub open spec fn sentinel_span(s: Seq<u8>, prefix: u8) -> Result<nat, ErrorKind> {
    match simple_frame_end(s, seq![prefix]) {
        Ok(end) => if header_text(s, 1, end) == null_header() {
            Ok((end + 2) as nat)
        } else {
            Err(ErrorKind::InvalidFrameType)
        },
        Err(kind) => Err(kind),
    }
}

/// The header of a frame with a length or a count: where its line ends, and the
/// number it writes.
pub open spec fn count_header(s: Seq<u8>, prefix: Seq<u8>) -> Result<(int, nat), ErrorKind> {
    match simple_frame_end(s, prefix) {
        Ok(end) => match count_value(header_text(s, prefix.len() as int, end)) {
            Some(count) => Ok((end, count)),
            None => Err(ErrorKind::InvalidFrameLength),
        },
        Err(kind) => Err(kind),
    }
}

/// How far a bulk string reaches: its header line, as many bytes as the header
/// says, and two more for the terminator. Incomplete until all of them are
/// there.
pub open spec fn bulk_span(s: Seq<u8>) -> Result<nat, ErrorKind> {
    match count_header(s, seq![BULK_STRING_PREFIX]) {
        Ok((end, length)) => if end + 2 + length + 2 <= s.len() {
            Ok((end + 2 + length + 2) as nat)
        } else {
            Err(ErrorKind::NotComplete)
        },
        Err(kind) => Err(kind),
    }
}

/// How far the frame at the front of `s` reaches, whatever its type.
#[verifier::opaque]
pub open spec fn frame_span(s: Seq<u8>) -> Result<nat, ErrorKind>
    decreases s.len(), 2nat,
{
    if s.len() == 0 {
        Err(ErrorKind::NotComplete)
    } else if is_line_prefix(s[0]) {
        line_span(s, s[0])
    } else if s[0] == NULL_PREFIX {
        null_span(s)
    } else if s[0] == BULK_STRING_PREFIX {
        match sentinel_span(s, BULK_STRING_PREFIX) {
            Err(ErrorKind::InvalidFrameType) => bulk_span(s),
            span => span,
        }
    } else if s[0] == ARRAY_PREFIX {
        match sentinel_span(s, ARRAY_PREFIX) {
            Err(ErrorKind::InvalidFrameType) => sequence_span(s, ARRAY_PREFIX),
            span => span,
        }
    } else if s[0] == SET_PREFIX {
        sequence_span(s, SET_PREFIX)
    } else if s[0] == MAP_PREFIX {
        map_span(s)
    } else {
        Err(ErrorKind::InvalidFrameType)
    }
}

/// How far an array or a set reaches: its header line and as many frames as
/// the header counts.
pub open spec fn sequence_span(s: Seq<u8>, prefix: u8) -> Result<nat, ErrorKind>
    decreases s.len(), 1nat,
{
    match count_header(s, seq![prefix]) {
        Ok((end, count)) => if 0 <= end && end + 2 <= s.len() {
            after(end + 2, frames_span(s.skip(end + 2), count))
        } else {
            Err(ErrorKind::NotComplete)
        },
        Err(kind) => Err(kind),
    }
}

/// How far a map reaches: its header line and as many entries as the header
/// counts.
pub open spec fn map_span(s: Seq<u8>) -> Result<nat, ErrorKind>
    decreases s.len(), 1nat,
{
    match count_header(s, seq![MAP_PREFIX]) {
        Ok((end, count)) => if 0 <= end && end + 2 <= s.len() {
            after(end + 2, entries_span(s.skip(end + 2), count))
        } else {
            Err(ErrorKind::NotComplete)
        },
        Err(kind) => Err(kind),
    }
}

/// How far `count` frames reach that stand one after the other. The first one
/// that is incomplete or malformed decides.
pub open spec fn frames_span(s: Seq<u8>, count: nat) -> Result<nat, ErrorKind>
    decreases s.len(), count + 3,
{
    if count == 0 {
        Ok(0)
    } else {
        match frame_span(s) {
            Ok(n) => if n <= s.len() {
                after(n as int, frames_span(s.skip(n as int), (count - 1) as nat))
            } else {
                Err(ErrorKind::NotComplete)
            },
            Err(kind) => Err(kind),
        }
    }
}

/// How far one entry of a map reaches: a simple string for the key, then a
/// frame of any type for the value.
pub open spec fn entry_span(s: Seq<u8>) -> Result<nat, ErrorKind>
    decreases s.len(), 3nat,
{
    match line_span(s, SIMPLE_STRING_PREFIX) {
        Ok(k) => if k <= s.len() {
            after(k as int, frame_span(s.skip(k as int)))
        } else {
            Err(ErrorKind::NotComplete)
        },
        Err(kind) => Err(kind),
    }
}

/// How far `count` entries reach that stand one after the other.
pub open spec fn entries_span(s: Seq<u8>, count: nat) -> Result<nat, ErrorKind>
    decreases s.len(), count + 4,
{
    if count == 0 {
        Ok(0)
    } else {
        match entry_span(s) {
            Ok(n) => if n <= s.len() {
                after(n as int, entries_span(s.skip(n as int), (count - 1) as nat))
            } else {
                Err(ErrorKind::NotComplete)
            },
            Err(kind) => Err(kind),
        }
    }
}

/// What `calc_total_length` answers for a header that ends at `end` and counts
/// `count`: for an array or a set the header and `count` frames, for a map the
/// header and `count` entries, and for any other prefix the count and one
/// terminator.
pub open spec fn total_length(s: Seq<u8>, end: int, count: nat, prefix: Seq<u8>) -> Result<
    nat,
    ErrorKind,
> {
    if !(0 <= end && end + 2 <= s.len()) {
        Err(ErrorKind::NotComplete)
    } else if prefix == seq![ARRAY_PREFIX] || prefix == seq![SET_PREFIX] {
        after(end + 2, frames_span(s.skip(end + 2), count))
    } else if prefix == seq![MAP_PREFIX] {
        after(end + 2, entries_span(s.skip(end + 2), count))
    } else {
        Ok(count + 2)
    }
}

/// The integer that an integer frame holds.
pub open spec fn integer_frame_value(s: Seq<u8>) -> Result<i64, ErrorKind> {
    match integer_value(encode_utf8(text_of(payload(s)))) {
        Some(value) => Ok(value),
        None => Err(ErrorKind::ParseIntError),
    }
}

/// The boolean that a boolean frame holds: `t` or `f`, nothing else.
pub open spec fn boolean_frame_value(s: Seq<u8>) -> Result<bool, ErrorKind> {
    if payload(s) == seq![TRUE_BYTE] {
        Ok(true)
    } else if payload(s) == seq![FALSE_BYTE] {
        Ok(false)
    } else {
        Err(ErrorKind::InvalidFrame)
    }
}

/// The text that a double frame holds, with its sign written.
pub open spec fn double_frame_value(s: Seq<u8>) -> Result<Seq<u8>, ErrorKind> {
    if is_double_text(payload(s)) {
        Ok(with_sign(payload(s)))
    } else {
        Err(ErrorKind::ParseFloatError)
    }
}

/// The three bytes of a null are its prefix and the line terminator.
pub open spec fn null_frame_value(s: Seq<u8>) -> Result<(), ErrorKind> {
    if s.len() >= 3 && s[1] == CR && s[2] == LF {
        Ok(())
    } else {
        Err(ErrorKind::InvalidFrame)
    }
}

/// The bytes that a bulk string holds: as many as its header says, from behind
/// the header line. The two bytes behind them are not looked at.
pub open spec fn bulk_frame_value(s: Seq<u8>) -> Seq<u8> {
    match count_header(s, seq![BULK_STRING_PREFIX]) {
        Ok((end, length)) => header_text(s, end + 2, end + 2 + length),
        Err(_) => Seq::empty(),
    }
}

/// The value of the frame at the front of `s`, where `s` holds all of it.
#[verifier::opaque]
pub open spec fn frame_value(s: Seq<u8>) -> Result<Frame, ErrorKind>
    decreases s.len(), 2nat,
{
    if s.len() == 0 {
        Err(ErrorKind::NotComplete)
    } else if s[0] == SIMPLE_STRING_PREFIX {
        Ok(Frame::SimpleString(text_of(payload(s))))
    } else if s[0] == SIMPLE_ERROR_PREFIX {
        Ok(Frame::Error(text_of(payload(s))))
    } else if s[0] == INTEGER_PREFIX {
        match integer_frame_value(s) {
            Ok(value) => Ok(Frame::Integer(value)),
            Err(kind) => Err(kind),
        }
    } else if s[0] == BOOLEAN_PREFIX {
        match boolean_frame_value(s) {
            Ok(value) => Ok(Frame::Boolean(value)),
            Err(kind) => Err(kind),
        }
    } else if s[0] == DOUBLE_PREFIX {
        match double_frame_value(s) {
            Ok(text) => Ok(Frame::Double(text)),
            Err(kind) => Err(kind),
        }
    } else if s[0] == NULL_PREFIX {
        match null_frame_value(s) {
            Ok(_) => Ok(Frame::Null),
            Err(kind) => Err(kind),
        }
    } else if s[0] == BULK_STRING_PREFIX {
        if sentinel_span(s, BULK_STRING_PREFIX) is Ok {
            Ok(Frame::NullBulkString)
        } else {
            Ok(Frame::BulkString(bulk_frame_value(s)))
        }
    } else if s[0] == ARRAY_PREFIX {
        if sentinel_span(s, ARRAY_PREFIX) is Ok {
            Ok(Frame::NullArray)
        } else {
            match sequence_value(s, ARRAY_PREFIX) {
                Ok(items) => Ok(Frame::Array(items)),
                Err(kind) => Err(kind),
            }
        }
    } else if s[0] == SET_PREFIX {
        match sequence_value(s, SET_PREFIX) {
            Ok(items) => Ok(Frame::RespSet(items)),
            Err(kind) => Err(kind),
        }
    } else if s[0] == MAP_PREFIX {
        match map_value(s) {
            Ok(entries) => Ok(Frame::RespMap(entries)),
            Err(kind) => Err(kind),
        }
    } else {
        Err(ErrorKind::InvalidFrameType)
    }
}

/// The frames that an array or a set holds, in their order.
pub open spec fn sequence_value(s: Seq<u8>, prefix: u8) -> Result<Seq<Frame>, ErrorKind>
    decreases s.len(), 1nat,
{
    match count_header(s, seq![prefix]) {
        Ok((end, count)) => if 0 <= end && end + 2 <= s.len() {
            frames_value(s.skip(end + 2), count)
        } else {
            Err(ErrorKind::NotComplete)
        },
        Err(kind) => Err(kind),
    }
}

/// The entries that a map holds: its pairs put into a map one after the other,
/// so that they stand in the order of their keys and the last value given for
/// a key stays.
pub open spec fn map_value(s: Seq<u8>) -> Result<Seq<(Seq<char>, Frame)>, ErrorKind>
    decreases s.len(), 1nat,
{
    match count_header(s, seq![MAP_PREFIX]) {
        Ok((end, count)) => if 0 <= end && end + 2 <= s.len() {
            match entries_value(s.skip(end + 2), count) {
                Ok(pairs) => Ok(map_of(pairs)),
                Err(kind) => Err(kind),
            }
        } else {
            Err(ErrorKind::NotComplete)
        },
        Err(kind) => Err(kind),
    }
}

/// The values of `count` frames that stand one after the other. The first one
/// that has no value decides.
pub open spec fn frames_value(s: Seq<u8>, count: nat) -> Result<Seq<Frame>, ErrorKind>
    decreases s.len(), count + 3,
{
    if count == 0 {
        Ok(Seq::empty())
    } else {
        match (frame_span(s), frame_value(s)) {
            (Ok(n), Ok(value)) => if n <= s.len() {
                prepend(value, frames_value(s.skip(n as int), (count - 1) as nat))
            } else {
                Err(ErrorKind::NotComplete)
            },
            (Err(kind), _) => Err(kind),
            (_, Err(kind)) => Err(kind),
        }
    }
}

/// The pairs of `count` entries that stand one after the other, as they are
/// written.
pub open spec fn entries_value(s: Seq<u8>, count: nat) -> Result<
    Seq<(Seq<char>, Frame)>,
    ErrorKind,
>
    decreases s.len(), count + 3,
{
    if count == 0 {
        Ok(Seq::empty())
    } else {
        match line_span(s, SIMPLE_STRING_PREFIX) {
            Ok(k) => if k <= s.len() {
                match (frame_span(s.skip(k as int)), frame_value(s.skip(k as int))) {
                    (Ok(n), Ok(value)) => if k + n <= s.len() {
                        prepend(
                            (text_of(payload(s)), value),
                            entries_value(s.skip((k + n) as int), (count - 1) as nat),
                        )
                    } else {
                        Err(ErrorKind::NotComplete)
                    },
                    (Err(kind), _) => Err(kind),
                    (_, Err(kind)) => Err(kind),
                }
            } else {
                Err(ErrorKind::NotComplete)
            },
            Err(kind) => Err(kind),
        }
    }
}

/// What decoding the front of `s` gives: the value of the frame there and how
/// many bytes it takes. The length check speaks first, so that a frame whose
/// end has not arrived is incomplete whatever its first bytes hold.
pub open spec fn decoded(s: Seq<u8>) -> Result<(Frame, nat), ErrorKind> {
    match frame_span(s) {
        Ok(n) => match frame_value(s) {
            Ok(value) => Ok((value, n)),
            Err(kind) => Err(kind),
        },
        Err(kind) => Err(kind),
    }
}

/// The span of a frame, by its first byte.
pub proof fn lemma_frame_span(s: Seq<u8>)
    ensures
        s.len() == 0 ==> frame_span(s) == Err::<nat, ErrorKind>(ErrorKind::NotComplete),
        s.len() > 0 && is_line_prefix(s[0]) ==> frame_span(s) == line_span(s, s[0]),
        s.len() > 0 && s[0] == NULL_PREFIX ==> frame_span(s) == null_span(s),
        s.len() > 0 && s[0] == BULK_STRING_PREFIX ==> frame_span(s) == (match sentinel_span(
            s,
            BULK_STRING_PREFIX,
        ) {
            Err(ErrorKind::InvalidFrameType) => bulk_span(s),
            span => span,
        }),
        s.len() > 0 && s[0] == ARRAY_PREFIX ==> frame_span(s) == (match sentinel_span(
            s,
            ARRAY_PREFIX,
        ) {
            Err(ErrorKind::InvalidFrameType) => sequence_span(s, ARRAY_PREFIX),
            span => span,
        }),
        s.len() > 0 && s[0] == SET_PREFIX ==> frame_span(s) == sequence_span(s, SET_PREFIX),
        s.len() > 0 && s[0] == MAP_PREFIX ==> frame_span(s) == map_span(s),
        s.len() > 0 && !is_line_prefix(s[0]) && s[0] != NULL_PREFIX && s[0] != BULK_STRING_PREFIX
            && s[0] != ARRAY_PREFIX && s[0] != SET_PREFIX && s[0] != MAP_PREFIX ==> frame_span(s)
            == Err::<nat, ErrorKind>(ErrorKind::InvalidFrameType),
{
    reveal_with_fuel(frame_span, 1);
}

/// A value of one type as a frame.
pub open spec fn framed<A>(value: Result<A, ErrorKind>, wrap: spec_fn(A) -> Frame) -> Result<
    Frame,
    ErrorKind,
> {
    match value {
        Ok(v) => Ok(wrap(v)),
        Err(kind) => Err(kind),
    }
}

/// The value of a frame, by its first byte.
pub proof fn lemma_frame_value(s: Seq<u8>)
    requires
        s.len() > 0,
    ensures
        s[0] == SIMPLE_STRING_PREFIX ==> frame_value(s) == Ok::<Frame, ErrorKind>(
            Frame::SimpleString(text_of(payload(s))),
        ),
        s[0] == SIMPLE_ERROR_PREFIX ==> frame_value(s) == Ok::<Frame, ErrorKind>(
            Frame::Error(text_of(payload(s))),
        ),
        s[0] == INTEGER_PREFIX ==> frame_value(s) == framed(
            integer_frame_value(s),
            |v: i64| Frame::Integer(v),
        ),
        s[0] == BOOLEAN_PREFIX ==> frame_value(s) == framed(
            boolean_frame_value(s),
            |v: bool| Frame::Boolean(v),
        ),
        s[0] == DOUBLE_PREFIX ==> frame_value(s) == framed(
            double_frame_value(s),
            |v: Seq<u8>| Frame::Double(v),
        ),
        s[0] == NULL_PREFIX ==> frame_value(s) == framed(null_frame_value(s), |v: ()| Frame::Null),
        s[0] == BULK_STRING_PREFIX ==> frame_value(s) == Ok::<Frame, ErrorKind>(
            if sentinel_span(s, BULK_STRING_PREFIX) is Ok {
                Frame::NullBulkString
            } else {
                Frame::BulkString(bulk_frame_value(s))
            },
        ),
        s[0] == ARRAY_PREFIX ==> frame_value(s) == (if sentinel_span(s, ARRAY_PREFIX) is Ok {
            Ok::<Frame, ErrorKind>(Frame::NullArray)
        } else {
            framed(sequence_value(s, ARRAY_PREFIX), |v: Seq<Frame>| Frame::Array(v))
        }),
        s[0] == SET_PREFIX ==> frame_value(s) == framed(
            sequence_value(s, SET_PREFIX),
            |v: Seq<Frame>| Frame::RespSet(v),
        ),
        s[0] == MAP_PREFIX ==> frame_value(s) == framed(
            map_value(s),
            |v: Seq<(Seq<char>, Frame)>| Frame::RespMap(v),
        ),
        !is_line_prefix(s[0]) && s[0] != NULL_PREFIX && s[0] != BULK_STRING_PREFIX && s[0]
            != ARRAY_PREFIX && s[0] != SET_PREFIX && s[0] != MAP_PREFIX ==> frame_value(s)
            == Err::<Frame, ErrorKind>(ErrorKind::InvalidFrameType),
{
    reveal_with_fuel(frame_value, 1);
}

} // verus!
