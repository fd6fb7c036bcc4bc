//! The length check: how many bytes the frame at the front of a buffer takes,
//! found without building any value.
use vstd::prelude::*;
use vstd::slice::slice_subrange;
use vstd::string::StringSliceAdditionalSpecFns;
use vstd::utf8::{encode_utf8, is_ascii_chars, is_ascii_chars_encode_utf8};
use crate::error::{describe, ErrorKind, RespError};
use crate::grammar::{
    after, bulk_span, count_header, entries_span, entry_span, frame_span, frames_span, header_text,
    lemma_frame_span, line_span, map_span, null_span, sentinel_span, sequence_span, total_length,
};
use crate::line::{extract_simple_frame_data, simple_frame_end, CRLF_LEN};
use crate::model::{
    null_header, ARRAY_PREFIX, BOOLEAN_PREFIX, BULK_STRING_PREFIX, DOUBLE_PREFIX, INTEGER_PREFIX,
    MAP_PREFIX, NULL_PREFIX, SET_PREFIX, SIMPLE_ERROR_PREFIX, SIMPLE_STRING_PREFIX,
};
use crate::number::{parse_count, MINUS};

verus! {

/// The answer `r` of a length check is the span `span`: the same number, or an
/// error of the same kind.
pub open spec fn is_span(r: Result<usize, RespError>, span: Result<nat, ErrorKind>) -> bool {
    match span {
        Ok(n) => r matches Ok(m) && m == n,
        Err(kind) => r matches Err(e) && e.kind() == kind,
    }
}

/// A prefix of one ASCII character is one byte on the wire.
pub proof fn lemma_prefix_bytes(prefix: &str, b: u8)
    requires
        prefix@.len() == 1,
        prefix@[0] == b as char,
        b < 128,
    ensures
        prefix.spec_bytes() == seq![b],
{
    assert(is_ascii_chars(prefix@));
    is_ascii_chars_encode_utf8(prefix@);
    assert(encode_utf8(prefix@) =~= seq![b]);
}

/// The ten prefixes of the protocol, each one byte on the wire.
pub proof fn lemma_prefixes()
    ensures
        "+".spec_bytes() == seq![SIMPLE_STRING_PREFIX],
        "-".spec_bytes() == seq![SIMPLE_ERROR_PREFIX],
        ":".spec_bytes() == seq![INTEGER_PREFIX],
        "#".spec_bytes() == seq![BOOLEAN_PREFIX],
        ",".spec_bytes() == seq![DOUBLE_PREFIX],
        "_".spec_bytes() == seq![NULL_PREFIX],
        "$".spec_bytes() == seq![BULK_STRING_PREFIX],
        "*".spec_bytes() == seq![ARRAY_PREFIX],
        "~".spec_bytes() == seq![SET_PREFIX],
        "%".spec_bytes() == seq![MAP_PREFIX],
{
    reveal_strlit("+");
    reveal_strlit("-");
    reveal_strlit(":");
    reveal_strlit("#");
    reveal_strlit(",");
    reveal_strlit("_");
    reveal_strlit("$");
    reveal_strlit("*");
    reveal_strlit("~");
    reveal_strlit("%");
    lemma_prefix_bytes("+", SIMPLE_STRING_PREFIX);
    lemma_prefix_bytes("-", SIMPLE_ERROR_PREFIX);
    lemma_prefix_bytes(":", INTEGER_PREFIX);
    lemma_prefix_bytes("#", BOOLEAN_PREFIX);
    lemma_prefix_bytes(",", DOUBLE_PREFIX);
    lemma_prefix_bytes("_", NULL_PREFIX);
    lemma_prefix_bytes("$", BULK_STRING_PREFIX);
    lemma_prefix_bytes("*", ARRAY_PREFIX);
    lemma_prefix_bytes("~", SET_PREFIX);
    lemma_prefix_bytes("%", MAP_PREFIX);
}

/// Reads the header of a frame that starts with `prefix` and carries a length
/// or a count. Returns the index at which the header line ends and the number
/// that the header writes.
pub fn parse_length(buf: &[u8], prefix: &str) -> (r: Result<(usize, usize), RespError>)
    ensures
        match count_header(buf@, prefix.spec_bytes()) {
            Ok((end, count)) => r matches Ok(p) && p.0 == end && p.1 == count && end + CRLF_LEN
                <= buf.len(),
            Err(kind) => r matches Err(e) && e.kind() == kind,
        },
{
    let end = match extract_simple_frame_data(buf, prefix) {
        Ok(end) => end,
        Err(e) => {
            return Err(e);
        },
    };
    let start = prefix.len();
    let text = if start <= end {
        slice_subrange(buf, start, end)
    } else {
        slice_subrange(buf, 0, 0)
    };
    assert(text@ =~= header_text(buf@, start as int, end as int));
    match parse_count(text) {
        Some(count) => Ok((end, count)),
        None => Err(RespError::InvalidFrameLength(describe("a length", text))),
    }
}

/// How far a one-line frame with the given prefix reaches.
pub(crate) fn line_length(buf: &[u8], prefix: &str) -> (r: Result<usize, RespError>)
    ensures
        match simple_frame_end(buf@, prefix.spec_bytes()) {
            Ok(end) => r matches Ok(n) && n == end + CRLF_LEN && n <= buf.len(),
            Err(kind) => r matches Err(e) && e.kind() == kind,
        },
{
    match extract_simple_frame_data(buf, prefix) {
        Ok(end) => Ok(end + CRLF_LEN),
        Err(e) => Err(e),
    }
}

/// How far the null reaches.
pub(crate) fn null_length(buf: &[u8]) -> (r: Result<usize, RespError>)
    ensures
        is_span(r, null_span(buf@)),
        r matches Ok(n) ==> n <= buf.len(),
{
    if buf.len() < 3 {
        Err(RespError::NotComplete)
    } else if buf[0] != NULL_PREFIX {
        Err(RespError::InvalidFrameType(describe("Null", buf)))
    } else {
        Ok(3)
    }
}

/// How far a null bulk string (`prefix` is `$`) or a null array (`*`) reaches.
pub(crate) fn sentinel_length(buf: &[u8], prefix: &str) -> (r: Result<usize, RespError>)
    requires
        prefix.spec_bytes().len() == 1,
    ensures
        is_span(r, sentinel_span(buf@, prefix.spec_bytes()[0])),
        r matches Ok(n) ==> n <= buf.len(),
{
    assert(prefix.spec_bytes() =~= seq![prefix.spec_bytes()[0]]);
    let end = match extract_simple_frame_data(buf, prefix) {
        Ok(end) => end,
        Err(e) => {
            return Err(e);
        },
    };
    if end == 3 && buf[1] == MINUS && buf[2] == 49 {
        assert(header_text(buf@, 1, end as int) =~= null_header());
        Ok(end + CRLF_LEN)
    } else {
        assert(header_text(buf@, 1, end as int) != null_header()) by {
            if header_text(buf@, 1, end as int) == null_header() {
                assert(header_text(buf@, 1, end as int).len() == 2);
                assert(header_text(buf@, 1, end as int)[0] == buf@[1]);
                assert(header_text(buf@, 1, end as int)[1] == buf@[2]);
            }
        }
        Err(RespError::InvalidFrameType(describe("a null", buf)))
    }
}

/// How far a bulk string reaches.
pub(crate) fn bulk_length(buf: &[u8]) -> (r: Result<usize, RespError>)
    ensures
        is_span(r, bulk_span(buf@)),
        r matches Ok(n) ==> n <= buf.len(),
{
    proof {
        lemma_prefixes();
    }
    let (end, length) = match parse_length(buf, "$") {
        Ok(header) => header,
        Err(e) => {
            return Err(e);
        },
    };
    let rest = buf.len() - (end + CRLF_LEN);
    if rest < CRLF_LEN || length > rest - CRLF_LEN {
        Err(RespError::NotComplete)
    } else {
        Ok(end + CRLF_LEN + length + CRLF_LEN)
    }
}

/// Adds up the frames or entries that follow a header. `end` is where the
/// header line of `buf` ends and `len` the number that it writes. For an array
/// (`*`) or a set (`~`) the result is the header and `len` frames; for a map
/// (`%`) the header and `len` entries, each a simple string and a frame; for
/// any other prefix `len` and one terminator. The first frame that is
/// incomplete or malformed ends the walk with its error.
pub fn calc_total_length(buf: &[u8], end: usize, len: usize, prefix: &str) -> (r: Result<
    usize,
    RespError,
>)
    requires
        end + CRLF_LEN <= buf.len(),
        len + CRLF_LEN <= usize::MAX || prefix.spec_bytes() == seq![ARRAY_PREFIX]
            || prefix.spec_bytes() == seq![SET_PREFIX] || prefix.spec_bytes() == seq![MAP_PREFIX],
    ensures
        is_span(r, total_length(buf@, end as int, len as nat, prefix.spec_bytes())),
        (prefix.spec_bytes() == seq![ARRAY_PREFIX] || prefix.spec_bytes() == seq![SET_PREFIX]
            || prefix.spec_bytes() == seq![MAP_PREFIX]) ==> (r matches Ok(n) ==> n <= buf.len()),
    decreases buf@.len(), 0nat,
{
    let p = prefix.as_bytes();
    let base = end + CRLF_LEN;
    let mut total: usize = base;
    let mut i: usize = 0;
    if p.len() == 1 && (p[0] == ARRAY_PREFIX || p[0] == SET_PREFIX) {
        assert(p@ =~= seq![p@[0]]);
        while i < len
            invariant
                base == end + CRLF_LEN,
                base <= total <= buf.len(),
                i <= len,
                total_length(buf@, end as int, len as nat, prefix.spec_bytes()) == after(
                    base as int,
                    frames_span(buf@.skip(base as int), len as nat),
                ),
                frames_span(buf@.skip(base as int), len as nat) == after(
                    total - base,
                    frames_span(buf@.skip(total as int), (len - i) as nat),
                ),
            decreases len - i,
        {
            let data = slice_subrange(buf, total, buf.len());
            assert(data@ =~= buf@.skip(total as int));
            match frame_length(data) {
                Ok(n) => {
                    assert(data@.skip(n as int) =~= buf@.skip(total + n));
                    total += n;
                },
                Err(e) => {
                    return Err(e);
                },
            }
            i += 1;
        }
        Ok(total)
    } else if p.len() == 1 && p[0] == MAP_PREFIX {
        assert(p@ =~= seq![p@[0]]);
        while i < len
            invariant
                base == end + CRLF_LEN,
                base <= total <= buf.len(),
                i <= len,
                total_length(buf@, end as int, len as nat, prefix.spec_bytes()) == after(
                    base as int,
                    entries_span(buf@.skip(base as int), len as nat),
                ),
                entries_span(buf@.skip(base as int), len as nat) == after(
                    total - base,
                    entries_span(buf@.skip(total as int), (len - i) as nat),
                ),
            decreases len - i,
        {
            let data = slice_subrange(buf, total, buf.len());
            assert(data@ =~= buf@.skip(total as int));
            proof {
                lemma_prefixes();
            }
            let ghost rest = entry_span(data@);
            assert(rest == match line_span(data@, SIMPLE_STRING_PREFIX) {
                Ok(k) => if k <= data@.len() {
                    after(k as int, frame_span(data@.skip(k as int)))
                } else {
                    Err(ErrorKind::NotComplete)
                },
                Err(kind) => Err(kind),
            });
            let k = match line_length(data, "+") {
                Ok(k) => k,
                Err(e) => {
                    return Err(e);
                },
            };
            let value = slice_subrange(data, k, data.len());
            assert(value@ =~= data@.skip(k as int));
            match frame_length(value) {
                Ok(n) => {
                    assert(data@.skip(k + n) =~= buf@.skip(total + k + n));
                    total += k + n;
                },
                Err(e) => {
                    return Err(e);
                },
            }
            i += 1;
        }
        Ok(total)
    } else {
        assert(p@ != seq![ARRAY_PREFIX] && p@ != seq![SET_PREFIX] && p@ != seq![MAP_PREFIX]) by {
            if p@ == seq![ARRAY_PREFIX] || p@ == seq![SET_PREFIX] || p@ == seq![MAP_PREFIX] {
                assert(p@.len() == 1);
            }
        }
        Ok(len + CRLF_LEN)
    }
}

/// How far an array (`prefix` is `*`) or a set (`~`) reaches.
pub(crate) fn sequence_length(buf: &[u8], prefix: &str) -> (r: Result<usize, RespError>)
    requires
        prefix.spec_bytes() == seq![ARRAY_PREFIX] || prefix.spec_bytes() == seq![SET_PREFIX],
    ensures
        is_span(r, sequence_span(buf@, prefix.spec_bytes()[0])),
        r matches Ok(n) ==> n <= buf.len(),
    decreases buf@.len(), 1nat,
{
    assert(prefix.spec_bytes() =~= seq![prefix.spec_bytes()[0]]);
    let (end, count) = match parse_length(buf, prefix) {
        Ok(header) => header,
        Err(e) => {
            return Err(e);
        },
    };
    calc_total_length(buf, end, count, prefix)
}

/// How far a map reaches.
pub(crate) fn map_length(buf: &[u8]) -> (r: Result<usize, RespError>)
    ensures
        is_span(r, map_span(buf@)),
        r matches Ok(n) ==> n <= buf.len(),
    decreases buf@.len(), 1nat,
{
    proof {
        lemma_prefixes();
        assert(seq![MAP_PREFIX][0] != seq![ARRAY_PREFIX][0]);
        assert(seq![MAP_PREFIX][0] != seq![SET_PREFIX][0]);
    }
    let (end, count) = match parse_length(buf, "%") {
        Ok(header) => header,
        Err(e) => {
            return Err(e);
        },
    };
    calc_total_length(buf, end, count, "%")
}

/// How far the frame at the front of `buf` reaches, whatever its type: the
/// number of bytes that hold one whole frame. Nothing is built and nothing is
/// changed. The answer never counts a byte that the buffer does not hold.
pub(crate) fn frame_length(buf: &[u8]) -> (r: Result<usize, RespError>)
    ensures
        is_span(r, frame_span(buf@)),
        r matches Ok(n) ==> n <= buf.len(),
    decreases buf@.len(), 2nat,
{
    proof {
        lemma_prefixes();
        lemma_frame_span(buf@);
    }
    if buf.len() == 0 {
        return Err(RespError::NotComplete);
    }
    let b = buf[0];
    if b == SIMPLE_STRING_PREFIX {
        line_length(buf, "+")
    } else if b == SIMPLE_ERROR_PREFIX {
        line_length(buf, "-")
    } else if b == INTEGER_PREFIX {
        line_length(buf, ":")
    } else if b == BOOLEAN_PREFIX {
        line_length(buf, "#")
    } else if b == DOUBLE_PREFIX {
        line_length(buf, ",")
    } else if b == NULL_PREFIX {
        null_length(buf)
    } else if b == BULK_STRING_PREFIX {
        match sentinel_length(buf, "$") {
            Ok(n) => Ok(n),
            Err(e) => match e {
                RespError::InvalidFrameType(_) => bulk_length(buf),
                _ => Err(e),
            },
        }
    } else if b == ARRAY_PREFIX {
        match sentinel_length(buf, "*") {
            Ok(n) => Ok(n),
            Err(e) => match e {
                RespError::InvalidFrameType(_) => sequence_length(buf, "*"),
                _ => Err(e),
            },
        }
    } else if b == SET_PREFIX {
        sequence_length(buf, "~")
    } else if b == MAP_PREFIX {
        map_length(buf)
    } else {
        Err(RespError::InvalidFrameType(describe("a frame", buf)))
    }
}

} // verus!
