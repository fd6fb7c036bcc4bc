//! The encoder: a frame as its bytes on the wire.
use vstd::prelude::*;
use vstd::string::StringSliceAdditionalSpecFns;
use std::ops::Deref;
use crate::double::{is_signed_double_text, RespDouble};
use crate::frame::{
    frames_view, BulkString, RespArray, RespFrame, RespMap, RespNull, RespNullArray,
    RespNullBulkString, RespSet, SimpleError, SimpleString,
};
use crate::line::{CR, LF};
use crate::model::{
    crlf, keys_ascending, line, null_header, wire_entries, wire_frames, Frame, ARRAY_PREFIX, BOOLEAN_PREFIX,
    BULK_STRING_PREFIX, DOUBLE_PREFIX, FALSE_BYTE, INTEGER_PREFIX, MAP_PREFIX, NULL_PREFIX,
    SET_PREFIX, SIMPLE_ERROR_PREFIX, SIMPLE_STRING_PREFIX, TRUE_BYTE,
};
use crate::number::{decimal, push_decimal, push_signed_decimal, signed_decimal, MINUS};

verus! {

/// Room that the encoder of a container asks for at the start.
const BUF_CAP: usize = 4096;

/// A value that has an encoding.
pub trait RespEncode: Sized {
    /// The bytes that encode the value.
    spec fn encoding(self) -> Seq<u8>;

    /// Encodes the value. This never fails.
    fn encode(self) -> (out: Vec<u8>)
        ensures
            out@ == self.encoding(),
    ;
}

/// Appends one line: the prefix, the text, the terminator.
fn write_line(out: &mut Vec<u8>, prefix: u8, text: &[u8])
    ensures
        final(out)@ == old(out)@ + line(prefix, text@),
{
    out.push(prefix);
    out.extend_from_slice(text);
    out.push(CR);
    out.push(LF);
    assert(out@ =~= old(out)@ + line(prefix, text@));
}

/// Appends a header line: the prefix, the number in decimal, the terminator.
fn write_header(out: &mut Vec<u8>, prefix: u8, count: usize)
    ensures
        final(out)@ == old(out)@ + line(prefix, decimal(count as nat)),
{
    out.push(prefix);
    push_decimal(out, count as u64);
    out.push(CR);
    out.push(LF);
    assert(out@ =~= old(out)@ + line(prefix, decimal(count as nat)));
}

/// Appends an integer frame: the sign is always written, and written once.
fn write_integer(out: &mut Vec<u8>, value: i64)
    ensures
        final(out)@ == old(out)@ + Frame::Integer(value).wire(),
{
    out.push(INTEGER_PREFIX);
    push_signed_decimal(out, value);
    out.push(CR);
    out.push(LF);
    assert(out@ =~= old(out)@ + line(INTEGER_PREFIX, signed_decimal(value as int)));
}

/// Appends a bulk string: the length on a line of its own, then the bytes as
/// they are, then a terminator.
fn write_bulk(out: &mut Vec<u8>, bytes: &[u8])
    ensures
        final(out)@ == old(out)@ + Frame::BulkString(bytes@).wire(),
{
    write_header(out, BULK_STRING_PREFIX, bytes.len());
    out.extend_from_slice(bytes);
    out.push(CR);
    out.push(LF);
    assert(out@ =~= old(out)@ + (line(BULK_STRING_PREFIX, decimal(bytes@.len())) + bytes@
        + crlf()));
}

/// Appends the header that reads `-1`, behind the given prefix.
fn write_null_header(out: &mut Vec<u8>, prefix: u8)
    ensures
        final(out)@ == old(out)@ + line(prefix, null_header()),
{
    out.push(prefix);
    out.push(MINUS);
    out.push(49);
    out.push(CR);
    out.push(LF);
    assert(out@ =~= old(out)@ + line(prefix, null_header()));
}

/// Appends the frames of a container, each with its own encoding, in their
/// order.
fn write_frames(frames: &Vec<RespFrame>, out: &mut Vec<u8>)
    ensures
        final(out)@ == old(out)@ + wire_frames(frames_view(*frames), 0),
    decreases frames_view(*frames), 1nat,
{
    let ghost items = frames_view(*frames);
    let mut i: usize = 0;
    while i < frames.len()
        invariant
            i <= frames.len(),
            items == frames_view(*frames),
            out@ + wire_frames(items, i as int) == old(out)@ + wire_frames(items, 0),
        decreases frames.len() - i,
    {
        let ghost before = out@;
        assert(items[i as int] == frames[i as int]@);
        write_frame(&frames[i], out);
        assert(out@ + wire_frames(items, i + 1) =~= before + wire_frames(items, i as int));
        i += 1;
    }
    assert(out@ =~= out@ + wire_frames(items, i as int));
}

/// Appends the encoding of a frame.
fn write_frame(frame: &RespFrame, out: &mut Vec<u8>)
    ensures
        final(out)@ == old(out)@ + frame@.wire(),
        frame@ is RespMap ==> keys_ascending(frame@->RespMap_0),
    decreases frame@, 0nat,
{
    match frame {
        RespFrame::SimpleString(s) => {
            write_line(out, SIMPLE_STRING_PREFIX, s.deref().as_str().as_bytes());
        },
        RespFrame::Error(e) => {
            write_line(out, SIMPLE_ERROR_PREFIX, e.deref().as_str().as_bytes());
        },
        RespFrame::Integer(i) => {
            write_integer(out, *i);
        },
        RespFrame::BulkString(b) => {
            write_bulk(out, b.deref().as_slice());
        },
        RespFrame::NullBulkString(_) => {
            write_null_header(out, BULK_STRING_PREFIX);
        },
        RespFrame::Array(a) => {
            assert(a@ =~= frames_view(a.0));
            write_header(out, ARRAY_PREFIX, a.0.len());
            assert(decreases_to!(frame@ => frame@->Array_0));
            write_frames(&a.0, out);
            assert(out@ =~= old(out)@ + frame@.wire());
        },
        RespFrame::Null(_) => {
            let text: Vec<u8> = Vec::new();
            write_line(out, NULL_PREFIX, text.as_slice());
            assert(text@ =~= Seq::<u8>::empty());
        },
        RespFrame::NullArray(_) => {
            write_null_header(out, ARRAY_PREFIX);
        },
        RespFrame::Boolean(b) => {
            let mut text: Vec<u8> = Vec::new();
            text.push(if *b { TRUE_BYTE } else { FALSE_BYTE });
            write_line(out, BOOLEAN_PREFIX, text.as_slice());
            assert(text@ =~= seq![if *b { TRUE_BYTE } else { FALSE_BYTE }]);
        },
        RespFrame::Double(d) => {
            write_line(out, DOUBLE_PREFIX, d.as_bytes());
        },
        RespFrame::RespMap(m) => {
            write_header(out, MAP_PREFIX, m.len());
            let ghost entries = m@;
            let ghost start = out@;
            let mut i: usize = 0;
            while i < m.len()
                invariant
                    i <= entries.len(),
                    entries == m@,
                    frame@ == Frame::RespMap(entries),
                    out@ + wire_entries(entries, i as int) == start + wire_entries(entries, 0),
                decreases entries.len() - i,
            {
                let ghost before = out@;
                let (key, value) = m.entry(i);
                assert(decreases_to!(frame@ => frame@->RespMap_0));
                assert(decreases_to!(entries => entries[i as int]));
                assert(decreases_to!(entries[i as int] => entries[i as int].1));
                write_line(out, SIMPLE_STRING_PREFIX, key.as_str().as_bytes());
                write_frame(value, out);
                assert(out@ + wire_entries(entries, i + 1) =~= before + wire_entries(
                    entries,
                    i as int,
                ));
                i += 1;
            }
            assert(out@ =~= out@ + wire_entries(entries, i as int));
            assert(out@ =~= old(out)@ + frame@.wire());
        },
        RespFrame::RespSet(s) => {
            let frames = s.deref();
            assert(decreases_to!(frame@ => frame@->RespSet_0));
            write_header(out, SET_PREFIX, frames.len());
            write_frames(frames, out);
            assert(out@ =~= old(out)@ + frame@.wire());
        },
    }
}

impl RespEncode for RespFrame {
    open spec fn encoding(self) -> Seq<u8> {
        self@.wire()
    }

    fn encode(self) -> (out: Vec<u8>) {
        let mut out = Vec::new();
        write_frame(&self, &mut out);
        out
    }
}

impl RespEncode for SimpleString {
    open spec fn encoding(self) -> Seq<u8> {
        Frame::SimpleString(self@).wire()
    }

    fn encode(self) -> (out: Vec<u8>) {
        let mut out = Vec::new();
        write_line(&mut out, SIMPLE_STRING_PREFIX, self.deref().as_str().as_bytes());
        out
    }
}

impl RespEncode for SimpleError {
    open spec fn encoding(self) -> Seq<u8> {
        Frame::Error(self@).wire()
    }

    fn encode(self) -> (out: Vec<u8>) {
        let mut out = Vec::new();
        write_line(&mut out, SIMPLE_ERROR_PREFIX, self.deref().as_str().as_bytes());
        out
    }
}

impl RespEncode for i64 {
    open spec fn encoding(self) -> Seq<u8> {
        Frame::Integer(self).wire()
    }

    fn encode(self) -> (out: Vec<u8>) {
        let mut out = Vec::new();
        write_integer(&mut out, self);
        out
    }
}

impl RespEncode for BulkString {
    open spec fn encoding(self) -> Seq<u8> {
        Frame::BulkString(self@).wire()
    }

    fn encode(self) -> (out: Vec<u8>) {
        let mut out = Vec::new();
        write_bulk(&mut out, self.deref().as_slice());
        out
    }
}

impl RespEncode for RespNullBulkString {
    open spec fn encoding(self) -> Seq<u8> {
        Frame::NullBulkString.wire()
    }

    fn encode(self) -> (out: Vec<u8>) {
        let mut out = Vec::new();
        write_null_header(&mut out, BULK_STRING_PREFIX);
        out
    }
}

impl RespEncode for RespArray {
    open spec fn encoding(self) -> Seq<u8> {
        Frame::Array(self@).wire()
    }

    fn encode(self) -> (out: Vec<u8>) {
        let mut out = Vec::with_capacity(BUF_CAP);
        write_frame(&RespFrame::Array(self), &mut out);
        out
    }
}

impl RespEncode for RespNull {
    open spec fn encoding(self) -> Seq<u8> {
        Frame::Null.wire()
    }

    fn encode(self) -> (out: Vec<u8>) {
        let mut out = Vec::new();
        write_frame(&RespFrame::Null(self), &mut out);
        out
    }
}

impl RespEncode for RespNullArray {
    open spec fn encoding(self) -> Seq<u8> {
        Frame::NullArray.wire()
    }

    fn encode(self) -> (out: Vec<u8>) {
        let mut out = Vec::new();
        write_null_header(&mut out, ARRAY_PREFIX);
        out
    }
}

impl RespEncode for bool {
    open spec fn encoding(self) -> Seq<u8> {
        Frame::Boolean(self).wire()
    }

    fn encode(self) -> (out: Vec<u8>) {
        let mut out = Vec::new();
        write_frame(&RespFrame::Boolean(self), &mut out);
        out
    }
}

impl RespEncode for RespDouble {
    open spec fn encoding(self) -> Seq<u8> {
        Frame::Double(self@).wire()
    }

    /// The text is written with its sign.
    fn encode(self) -> (out: Vec<u8>)
        ensures
            is_signed_double_text(self@),
    {
        let mut out = Vec::with_capacity(32);
        write_line(&mut out, DOUBLE_PREFIX, self.as_bytes());
        out
    }
}

impl RespEncode for RespMap {
    open spec fn encoding(self) -> Seq<u8> {
        Frame::RespMap(self@).wire()
    }

    /// The entries are written in the ascending order of their keys.
    fn encode(self) -> (out: Vec<u8>)
        ensures
            keys_ascending(self@),
    {
        let mut out = Vec::with_capacity(BUF_CAP);
        write_frame(&RespFrame::RespMap(self), &mut out);
        out
    }
}

impl RespEncode for RespSet {
    open spec fn encoding(self) -> Seq<u8> {
        Frame::RespSet(self@).wire()
    }

    fn encode(self) -> (out: Vec<u8>) {
        let mut out = Vec::with_capacity(BUF_CAP);
        write_frame(&RespFrame::RespSet(self), &mut out);
        out
    }
}

} // verus!
