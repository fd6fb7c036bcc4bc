//! Completeness: a frame is decided by its own bytes. The length check counts
//! no byte that is missing, and what follows a frame in the buffer changes
//! neither how far it reaches nor what it holds.
use vstd::prelude::*;
use crate::error::ErrorKind;
use crate::grammar::{
    after, bulk_frame_value, bulk_span, count_header, decoded, entries_span, entries_value,
    entry_span, frame_span, frame_value, frames_span, frames_value, header_text, is_line_prefix,
    lemma_frame_span, lemma_frame_value, line_span, map_span, map_value, payload, sentinel_span,
    sequence_span, sequence_value,
};
use crate::line::{crlf_at, first_crlf, lemma_first_crlf, lemma_first_crlf_here, simple_frame_end};
use crate::model::{
    ARRAY_PREFIX, BULK_STRING_PREFIX, MAP_PREFIX, NULL_PREFIX, SET_PREFIX, SIMPLE_STRING_PREFIX,
};

verus! {
/// A one-line frame that is complete lies within the buffer.
pub proof fn lemma_line_span_within(s: Seq<u8>, prefix: u8)
    ensures
        line_span(s, prefix) matches Ok(n) ==> 0 < n <= s.len(),
{
    lemma_first_crlf(s);
}

/// A header that reads as a count ends within the buffer.
pub proof fn lemma_count_header_within(s: Seq<u8>, prefix: Seq<u8>)
    ensures
        count_header(s, prefix) matches Ok(h) ==> 0 <= h.0 && h.0 + 2 <= s.len(),
{
    lemma_first_crlf(s);
}

/// Frames that are complete lie within the buffer.
pub proof fn lemma_frames_span_within(s: Seq<u8>, count: nat)
    ensures
        frames_span(s, count) matches Ok(n) ==> n <= s.len(),
    decreases s.len(), count + 3,
{
    if count > 0 {
        law_span_within(s);
        match frame_span(s) {
            Ok(n) => {
                if n <= s.len() {
                    lemma_frames_span_within(s.skip(n as int), (count - 1) as nat);
                }
            },
            Err(_) => {},
        }
    }
}

/// Entries that are complete lie within the buffer.
pub proof fn lemma_entries_span_within(s: Seq<u8>, count: nat)
    ensures
        entries_span(s, count) matches Ok(n) ==> n <= s.len(),
    decreases s.len(), count + 4,
{
    if count > 0 {
        lemma_line_span_within(s, SIMPLE_STRING_PREFIX);
        match line_span(s, SIMPLE_STRING_PREFIX) {
            Ok(k) => {
                law_span_within(s.skip(k as int));
            },
            Err(_) => {},
        }
        match entry_span(s) {
            Ok(n) => {
                if n <= s.len() {
                    lemma_entries_span_within(s.skip(n as int), (count - 1) as nat);
                }
            },
            Err(_) => {},
        }
    }
}

/// The length check never counts a byte that is not there: a span that it
/// answers is at least one byte and at most what the buffer holds.
pub proof fn law_span_within(s: Seq<u8>)
    ensures
        frame_span(s) matches Ok(n) ==> 0 < n <= s.len(),
    decreases s.len(), 2nat,
{
    lemma_frame_span(s);
    if s.len() > 0 {
        lemma_first_crlf(s);
        if s[0] == ARRAY_PREFIX || s[0] == SET_PREFIX {
            lemma_count_header_within(s, seq![s[0]]);
            match count_header(s, seq![s[0]]) {
                Ok((end, count)) => {
                    lemma_frames_span_within(s.skip(end + 2), count);
                },
                Err(_) => {},
            }
        } else if s[0] == MAP_PREFIX {
            lemma_count_header_within(s, seq![MAP_PREFIX]);
            match count_header(s, seq![MAP_PREFIX]) {
                Ok((end, count)) => {
                    lemma_entries_span_within(s.skip(end + 2), count);
                },
                Err(_) => {},
            }
        }
    }
}

/// The first line terminator of a buffer is the first one of every longer
/// buffer, and the other way round where it lies within the shorter one.
pub proof fn lemma_first_crlf_prefix(s: Seq<u8>, x: Seq<u8>)
    ensures
        first_crlf(s) is Some ==> first_crlf(s + x) == first_crlf(s),
        first_crlf(s + x) is Some && first_crlf(s + x)->Some_0 + 2 <= s.len() ==> first_crlf(s)
            == first_crlf(s + x),
{
    let t = s + x;
    lemma_first_crlf(s);
    lemma_first_crlf(t);
    assert(forall|j: int| 0 <= j < s.len() ==> t[j] == s[j]);
    match first_crlf(s) {
        Some(e) => {
            assert(crlf_at(t, e));
            assert forall|j: int| 0 <= j < e implies !crlf_at(t, j) by {
                if crlf_at(t, j) {
                    assert(crlf_at(s, j));
                }
            }
            lemma_first_crlf_here(t, e);
        },
        None => {},
    }
    match first_crlf(t) {
        Some(e) => {
            if e + 2 <= s.len() {
                assert(crlf_at(s, e));
                assert forall|j: int| 0 <= j < e implies !crlf_at(s, j) by {
                    if crlf_at(s, j) {
                        assert(crlf_at(t, j));
                    }
                }
                lemma_first_crlf_here(s, e);
            }
        },
        None => {},
    }
}

/// The header line of a buffer ends where that of every longer buffer ends.
pub proof fn lemma_simple_frame_end_prefix(s: Seq<u8>, x: Seq<u8>, prefix: Seq<u8>)
    ensures
        simple_frame_end(s, prefix) is Ok ==> simple_frame_end(s + x, prefix) == simple_frame_end(
            s,
            prefix,
        ) && 0 <= simple_frame_end(s, prefix)->Ok_0 && simple_frame_end(s, prefix)->Ok_0 + 2
            <= s.len(),
        simple_frame_end(s + x, prefix) is Ok && simple_frame_end(s + x, prefix)->Ok_0 + 2
            <= s.len() && 3 <= s.len() && prefix.len() <= s.len() ==> simple_frame_end(s, prefix)
            == simple_frame_end(s + x, prefix),
{
    let t = s + x;
    lemma_first_crlf_prefix(s, x);
    lemma_first_crlf(s);
    if prefix.len() <= s.len() {
        assert(s.subrange(0, prefix.len() as int) =~= t.subrange(0, prefix.len() as int));
    }
}

/// The text of a header is the same in every longer buffer.
pub proof fn lemma_header_text_prefix(s: Seq<u8>, x: Seq<u8>, from: int, to: int)
    requires
        to <= s.len(),
    ensures
        header_text(s + x, from, to) == header_text(s, from, to),
{
    assert(header_text(s + x, from, to) =~= header_text(s, from, to));
}

/// What follows a frame does not change a one-line frame.
pub proof fn lemma_line_prefix(s: Seq<u8>, x: Seq<u8>, prefix: u8)
    ensures
        line_span(s, prefix) is Ok ==> line_span(s + x, prefix) == line_span(s, prefix)
            && payload(s + x) == payload(s) && line_span(s, prefix)->Ok_0 <= s.len(),
        line_span(s + x, prefix) is Ok && 3 <= line_span(s + x, prefix)->Ok_0 <= s.len()
            ==> line_span(s, prefix) == line_span(s + x, prefix),
{
    lemma_simple_frame_end_prefix(s, x, seq![prefix]);
    lemma_first_crlf_prefix(s, x);
    match first_crlf(s) {
        Some(e) => {
            lemma_first_crlf(s);
            lemma_header_text_prefix(s, x, 1, e);
        },
        None => {},
    }
}

/// What follows a frame does not change the header of a null bulk string or of
/// a null array.
pub proof fn lemma_sentinel_prefix(s: Seq<u8>, x: Seq<u8>, prefix: u8)
    ensures
        sentinel_span(s, prefix) is Ok ==> sentinel_span(s + x, prefix) == sentinel_span(
            s,
            prefix,
        ) && sentinel_span(s, prefix)->Ok_0 <= s.len(),
        sentinel_span(s, prefix) == Err::<nat, ErrorKind>(ErrorKind::InvalidFrameType)
            && simple_frame_end(s, seq![prefix]) is Ok ==> sentinel_span(s + x, prefix) == Err::<
            nat,
            ErrorKind,
        >(ErrorKind::InvalidFrameType),
        simple_frame_end(s + x, seq![prefix]) is Ok && simple_frame_end(
            s + x,
            seq![prefix],
        )->Ok_0 + 2 <= s.len() && 3 <= s.len() ==> sentinel_span(s, prefix) == sentinel_span(
            s + x,
            prefix,
        ),
{
    lemma_simple_frame_end_prefix(s, x, seq![prefix]);
    match simple_frame_end(s, seq![prefix]) {
        Ok(e) => {
            lemma_header_text_prefix(s, x, 1, e);
        },
        Err(_) => {},
    }
}

/// What follows a frame does not change a header that counts.
pub proof fn lemma_count_header_prefix(s: Seq<u8>, x: Seq<u8>, prefix: u8)
    ensures
        count_header(s, seq![prefix]) is Ok ==> count_header(s + x, seq![prefix]) == count_header(
            s,
            seq![prefix],
        ) && 0 <= count_header(s, seq![prefix])->Ok_0.0 && count_header(s, seq![prefix])->Ok_0.0
            + 2 <= s.len(),
        count_header(s + x, seq![prefix]) is Ok && count_header(s + x, seq![prefix])->Ok_0.0 + 2
            <= s.len() && 3 <= s.len() ==> count_header(s, seq![prefix]) == count_header(
            s + x,
            seq![prefix],
        ),
{
    lemma_simple_frame_end_prefix(s, x, seq![prefix]);
    match simple_frame_end(s, seq![prefix]) {
        Ok(e) => {
            lemma_header_text_prefix(s, x, 1, e);
        },
        Err(_) => {},
    }
}

/// What follows a frame does not change a bulk string.
pub proof fn lemma_bulk_prefix(s: Seq<u8>, x: Seq<u8>)
    ensures
        bulk_span(s) is Ok ==> bulk_span(s + x) == bulk_span(s) && bulk_frame_value(s + x)
            == bulk_frame_value(s) && bulk_span(s)->Ok_0 <= s.len(),
        bulk_span(s + x) is Ok && bulk_span(s + x)->Ok_0 <= s.len() ==> bulk_span(s) == bulk_span(
            s + x,
        ),
{
    lemma_count_header_prefix(s, x, BULK_STRING_PREFIX);
    lemma_count_header_within(s + x, seq![BULK_STRING_PREFIX]);
    match count_header(s, seq![BULK_STRING_PREFIX]) {
        Ok((end, length)) => {
            if end + 2 + length + 2 <= s.len() {
                lemma_header_text_prefix(s, x, end + 2, end + 2 + length);
            }
        },
        Err(_) => {},
    }
}

/// What follows them does not change frames that stand one after the other.
pub proof fn lemma_frames_prefix(s: Seq<u8>, x: Seq<u8>, count: nat)
    ensures
        frames_span(s, count) is Ok ==> frames_span(s + x, count) == frames_span(s, count)
            && frames_value(s + x, count) == frames_value(s, count) && frames_span(
            s,
            count,
        )->Ok_0 <= s.len(),
        frames_span(s + x, count) is Ok && frames_span(s + x, count)->Ok_0 <= s.len()
            ==> frames_span(s, count) == frames_span(s + x, count),
    decreases s.len(), count + 3,
{
    let t = s + x;
    if count > 0 {
        lemma_frame_prefix(s, x);
        law_span_within(s);
        law_span_within(t);
        match frame_span(s) {
            Ok(n) => {
                assert(t.skip(n as int) =~= s.skip(n as int) + x);
                lemma_frames_prefix(s.skip(n as int), x, (count - 1) as nat);
            },
            Err(_) => {},
        }
        match frame_span(t) {
            Ok(n) => {
                lemma_frames_span_within(t.skip(n as int), (count - 1) as nat);
                if n <= s.len() {
                    assert(t.skip(n as int) =~= s.skip(n as int) + x);
                    lemma_frames_prefix(s.skip(n as int), x, (count - 1) as nat);
                }
            },
            Err(_) => {},
        }
    }
}

/// What follows it does not change an entry of a map.
pub proof fn lemma_entry_prefix(s: Seq<u8>, x: Seq<u8>)
    ensures
        entry_span(s) is Ok ==> ({
            let k = line_span(s, SIMPLE_STRING_PREFIX)->Ok_0;
            &&& entry_span(s + x) == entry_span(s)
            &&& entry_span(s)->Ok_0 <= s.len()
            &&& line_span(s, SIMPLE_STRING_PREFIX) is Ok
            &&& k <= s.len()
            &&& line_span(s + x, SIMPLE_STRING_PREFIX) == line_span(s, SIMPLE_STRING_PREFIX)
            &&& payload(s + x) == payload(s)
            &&& frame_span(s.skip(k as int)) is Ok
            &&& frame_span((s + x).skip(k as int)) == frame_span(s.skip(k as int))
            &&& frame_value((s + x).skip(k as int)) == frame_value(s.skip(k as int))
        }),
        entry_span(s + x) is Ok && entry_span(s + x)->Ok_0 <= s.len() ==> entry_span(s)
            == entry_span(s + x),
    decreases s.len(), 3nat,
{
    let t = s + x;
    lemma_line_prefix(s, x, SIMPLE_STRING_PREFIX);
    lemma_line_span_within(s, SIMPLE_STRING_PREFIX);
    lemma_line_span_within(t, SIMPLE_STRING_PREFIX);
    lemma_first_crlf(t);
    match line_span(s, SIMPLE_STRING_PREFIX) {
        Ok(k) => {
            assert(t.skip(k as int) =~= s.skip(k as int) + x);
            lemma_frame_prefix(s.skip(k as int), x);
            law_span_within(s.skip(k as int));
        },
        Err(_) => {},
    }
    match line_span(t, SIMPLE_STRING_PREFIX) {
        Ok(k) => {
            law_span_within(t.skip(k as int));
            assert(t[0] == SIMPLE_STRING_PREFIX) by {
                assert(t.subrange(0, 1)[0] == seq![SIMPLE_STRING_PREFIX][0]);
            }
            if 3 <= k <= s.len() {
                assert(t.skip(k as int) =~= s.skip(k as int) + x);
                lemma_frame_prefix(s.skip(k as int), x);
            }
        },
        Err(_) => {},
    }
}

/// What follows them does not change entries that stand one after the other.
pub proof fn lemma_entries_prefix(s: Seq<u8>, x: Seq<u8>, count: nat)
    ensures
        entries_span(s, count) is Ok ==> entries_span(s + x, count) == entries_span(s, count)
            && entries_value(s + x, count) == entries_value(s, count) && entries_span(
            s,
            count,
        )->Ok_0 <= s.len(),
        entries_span(s + x, count) is Ok && entries_span(s + x, count)->Ok_0 <= s.len()
            ==> entries_span(s, count) == entries_span(s + x, count),
    decreases s.len(), count + 4,
{
    let t = s + x;
    if count > 0 {
        lemma_entry_prefix(s, x);
        match entry_span(s) {
            Ok(n) => {
                assert(t.skip(n as int) =~= s.skip(n as int) + x);
                lemma_entries_prefix(s.skip(n as int), x, (count - 1) as nat);
            },
            Err(_) => {},
        }
        match entry_span(t) {
            Ok(n) => {
                if n <= t.len() {
                    lemma_entries_span_within(t.skip(n as int), (count - 1) as nat);
                }
                if n <= s.len() {
                    assert(t.skip(n as int) =~= s.skip(n as int) + x);
                    lemma_entries_prefix(s.skip(n as int), x, (count - 1) as nat);
                }
            },
            Err(_) => {},
        }
    }
}

/// What follows it does not change an array or a set.
pub proof fn lemma_sequence_prefix(s: Seq<u8>, x: Seq<u8>, prefix: u8)
    ensures
        sequence_span(s, prefix) is Ok ==> sequence_span(s + x, prefix) == sequence_span(
            s,
            prefix,
        ) && sequence_value(s + x, prefix) == sequence_value(s, prefix) && sequence_span(
            s,
            prefix,
        )->Ok_0 <= s.len(),
        sequence_span(s + x, prefix) is Ok && sequence_span(s + x, prefix)->Ok_0 <= s.len()
            ==> sequence_span(s, prefix) == sequence_span(s + x, prefix),
    decreases s.len(), 1nat,
{
    let t = s + x;
    lemma_count_header_prefix(s, x, prefix);
    lemma_count_header_within(t, seq![prefix]);
    match count_header(s, seq![prefix]) {
        Ok((end, count)) => {
            assert(t.skip(end + 2) =~= s.skip(end + 2) + x);
            lemma_frames_prefix(s.skip(end + 2), x, count);
        },
        Err(_) => {},
    }
    match count_header(t, seq![prefix]) {
        Ok((end, count)) => {
            lemma_frames_span_within(t.skip(end + 2), count);
            if end + 2 <= s.len() && 3 <= s.len() {
                assert(t.skip(end + 2) =~= s.skip(end + 2) + x);
                lemma_frames_prefix(s.skip(end + 2), x, count);
            }
        },
        Err(_) => {},
    }
}

/// What follows it does not change a map.
pub proof fn lemma_map_prefix(s: Seq<u8>, x: Seq<u8>)
    ensures
        map_span(s) is Ok ==> map_span(s + x) == map_span(s) && map_value(s + x) == map_value(s)
            && map_span(s)->Ok_0 <= s.len(),
        map_span(s + x) is Ok && map_span(s + x)->Ok_0 <= s.len() ==> map_span(s) == map_span(
            s + x,
        ),
    decreases s.len(), 1nat,
{
    let t = s + x;
    lemma_count_header_prefix(s, x, MAP_PREFIX);
    lemma_count_header_within(t, seq![MAP_PREFIX]);
    match count_header(s, seq![MAP_PREFIX]) {
        Ok((end, count)) => {
            assert(t.skip(end + 2) =~= s.skip(end + 2) + x);
            lemma_entries_prefix(s.skip(end + 2), x, count);
        },
        Err(_) => {},
    }
    match count_header(t, seq![MAP_PREFIX]) {
        Ok((end, count)) => {
            lemma_entries_span_within(t.skip(end + 2), count);
            if end + 2 <= s.len() && 3 <= s.len() {
                assert(t.skip(end + 2) =~= s.skip(end + 2) + x);
                lemma_entries_prefix(s.skip(end + 2), x, count);
            }
        },
        Err(_) => {},
    }
}

/// What follows a frame changes neither its span nor its value, and a span
/// that lies within a shorter buffer is the span of that buffer too.
pub proof fn lemma_frame_prefix(s: Seq<u8>, x: Seq<u8>)
    ensures
        frame_span(s) is Ok ==> frame_span(s + x) == frame_span(s) && frame_value(s + x)
            == frame_value(s),
        frame_span(s + x) is Ok && frame_span(s + x)->Ok_0 <= s.len() ==> frame_span(s)
            == frame_span(s + x),
    decreases s.len(), 2nat,
{
    let t = s + x;
    lemma_frame_span(s);
    lemma_frame_span(t);
    law_span_within(t);
    law_span_within(s);
    if s.len() > 0 {
        assert(t[0] == s[0]);
        lemma_frame_value(s);
        lemma_frame_value(t);
        let b = s[0];
        if is_line_prefix(b) {
            lemma_line_prefix(s, x, b);
            lemma_first_crlf(t);
            lemma_first_crlf(s);
        } else if b == NULL_PREFIX {
        } else if b == BULK_STRING_PREFIX {
            lemma_sentinel_prefix(s, x, BULK_STRING_PREFIX);
            lemma_bulk_prefix(s, x);
            lemma_count_header_within(t, seq![BULK_STRING_PREFIX]);
            lemma_first_crlf(t);
        } else if b == ARRAY_PREFIX {
            lemma_sentinel_prefix(s, x, ARRAY_PREFIX);
            lemma_sequence_prefix(s, x, ARRAY_PREFIX);
            lemma_count_header_within(t, seq![ARRAY_PREFIX]);
            lemma_first_crlf(t);
        } else if b == SET_PREFIX {
            lemma_sequence_prefix(s, x, SET_PREFIX);
        } else if b == MAP_PREFIX {
            lemma_map_prefix(s, x);
        }
    }
}

/// An answer of the length check is final, but for `NotComplete`.
pub open spec fn is_final(span: Result<nat, ErrorKind>) -> bool {
    span != Err::<nat, ErrorKind>(ErrorKind::NotComplete)
}

/// What follows a header that is no count does not make it one.
proof fn lemma_count_header_final(s: Seq<u8>, x: Seq<u8>, prefix: u8)
    ensures
        count_header(s, seq![prefix]) is Err && count_header(s, seq![prefix]) != Err::<
            (int, nat),
            ErrorKind,
        >(ErrorKind::NotComplete) ==> count_header(s + x, seq![prefix]) == count_header(
            s,
            seq![prefix],
        ),
{
    lemma_simple_frame_end_prefix(s, x, seq![prefix]);
    match simple_frame_end(s, seq![prefix]) {
        Ok(e) => {
            lemma_header_text_prefix(s, x, 1, e);
        },
        Err(_) => {
            if s.len() >= 3 {
                assert(s.subrange(0, 1) =~= (s + x).subrange(0, 1));
            }
        },
    }
}

/// What follows malformed frames does not mend them.
proof fn lemma_frames_final(s: Seq<u8>, x: Seq<u8>, count: nat)
    ensures
        is_final(frames_span(s, count)) ==> frames_span(s + x, count) == frames_span(s, count),
    decreases s.len(), count + 3,
{
    let t = s + x;
    if count > 0 {
        lemma_frame_final(s, x);
        lemma_frame_prefix(s, x);
        law_span_within(s);
        match frame_span(s) {
            Ok(n) => {
                assert(t.skip(n as int) =~= s.skip(n as int) + x);
                lemma_frames_final(s.skip(n as int), x, (count - 1) as nat);
                lemma_frames_prefix(s.skip(n as int), x, (count - 1) as nat);
            },
            Err(_) => {},
        }
    }
}

/// What follows a malformed entry does not mend it.
proof fn lemma_entry_final(s: Seq<u8>, x: Seq<u8>)
    ensures
        is_final(entry_span(s)) ==> entry_span(s + x) == entry_span(s),
    decreases s.len(), 3nat,
{
    let t = s + x;
    lemma_line_prefix(s, x, SIMPLE_STRING_PREFIX);
    lemma_line_span_within(s, SIMPLE_STRING_PREFIX);
    lemma_entry_prefix(s, x);
    match line_span(s, SIMPLE_STRING_PREFIX) {
        Ok(k) => {
            assert(t.skip(k as int) =~= s.skip(k as int) + x);
            lemma_frame_final(s.skip(k as int), x);
        },
        Err(_) => {
            if s.len() >= 3 {
                assert(s.subrange(0, 1) =~= t.subrange(0, 1));
            }
        },
    }
}

/// What follows malformed entries does not mend them.
proof fn lemma_entries_final(s: Seq<u8>, x: Seq<u8>, count: nat)
    ensures
        is_final(entries_span(s, count)) ==> entries_span(s + x, count) == entries_span(s, count),
    decreases s.len(), count + 4,
{
    let t = s + x;
    if count > 0 {
        lemma_entry_final(s, x);
        lemma_entry_prefix(s, x);
        match entry_span(s) {
            Ok(n) => {
                assert(t.skip(n as int) =~= s.skip(n as int) + x);
                lemma_entries_final(s.skip(n as int), x, (count - 1) as nat);
                lemma_entries_prefix(s.skip(n as int), x, (count - 1) as nat);
            },
            Err(_) => {},
        }
    }
}

/// What follows a malformed array or set does not mend it.
proof fn lemma_sequence_final(s: Seq<u8>, x: Seq<u8>, prefix: u8)
    ensures
        is_final(sequence_span(s, prefix)) ==> sequence_span(s + x, prefix) == sequence_span(
            s,
            prefix,
        ),
    decreases s.len(), 1nat,
{
    let t = s + x;
    lemma_count_header_prefix(s, x, prefix);
    lemma_count_header_final(s, x, prefix);
    lemma_sequence_prefix(s, x, prefix);
    match count_header(s, seq![prefix]) {
        Ok((end, count)) => {
            assert(t.skip(end + 2) =~= s.skip(end + 2) + x);
            lemma_frames_final(s.skip(end + 2), x, count);
        },
        Err(_) => {},
    }
}

/// What follows a malformed map does not mend it.
proof fn lemma_map_final(s: Seq<u8>, x: Seq<u8>)
    ensures
        is_final(map_span(s)) ==> map_span(s + x) == map_span(s),
    decreases s.len(), 1nat,
{
    let t = s + x;
    lemma_count_header_prefix(s, x, MAP_PREFIX);
    lemma_count_header_final(s, x, MAP_PREFIX);
    lemma_map_prefix(s, x);
    match count_header(s, seq![MAP_PREFIX]) {
        Ok((end, count)) => {
            assert(t.skip(end + 2) =~= s.skip(end + 2) + x);
            lemma_entries_final(s.skip(end + 2), x, count);
        },
        Err(_) => {},
    }
}

/// What follows a malformed bulk string does not mend it.
proof fn lemma_bulk_final(s: Seq<u8>, x: Seq<u8>)
    ensures
        is_final(bulk_span(s)) ==> bulk_span(s + x) == bulk_span(s),
{
    lemma_count_header_final(s, x, BULK_STRING_PREFIX);
    lemma_bulk_prefix(s, x);
}

/// What follows a frame does not change an answer that is final.
proof fn lemma_frame_final(s: Seq<u8>, x: Seq<u8>)
    ensures
        is_final(frame_span(s)) ==> frame_span(s + x) == frame_span(s),
    decreases s.len(), 2nat,
{
    let t = s + x;
    lemma_frame_span(s);
    lemma_frame_span(t);
    lemma_frame_prefix(s, x);
    if s.len() > 0 {
        assert(t[0] == s[0]);
        let b = s[0];
        if is_line_prefix(b) {
            lemma_first_crlf(s);
            if s.len() >= 3 {
                assert(seq![b] =~= s.subrange(0, 1));
            }
        } else if b == NULL_PREFIX {
        } else if b == BULK_STRING_PREFIX {
            lemma_sentinel_prefix(s, x, BULK_STRING_PREFIX);
            lemma_bulk_final(s, x);
            if s.len() >= 3 {
                assert(seq![b] =~= s.subrange(0, 1));
            }
        } else if b == ARRAY_PREFIX {
            lemma_sentinel_prefix(s, x, ARRAY_PREFIX);
            lemma_sequence_final(s, x, ARRAY_PREFIX);
            if s.len() >= 3 {
                assert(seq![b] =~= s.subrange(0, 1));
            }
        } else if b == SET_PREFIX {
            lemma_sequence_final(s, x, SET_PREFIX);
        } else if b == MAP_PREFIX {
            lemma_map_final(s, x);
        }
    }
}

/// Every answer of the length check but `NotComplete` is final: bytes that
/// arrive later change neither the length of a complete frame nor the error of
/// a malformed one.
pub proof fn law_answer_is_final(buf: Seq<u8>, extra: Seq<u8>)
    requires
        is_final(frame_span(buf)),
    ensures
        frame_span(buf + extra) == frame_span(buf),
{
    lemma_frame_final(buf, extra);
}

/// A frame that is complete stays as it is when more bytes arrive: the length
/// check answers the same length, and the frame holds the same value.
pub proof fn law_complete_is_stable(buf: Seq<u8>, extra: Seq<u8>)
    requires
        frame_span(buf) is Ok,
    ensures
        frame_span(buf + extra) == frame_span(buf),
        frame_value(buf + extra) == frame_value(buf),
        decoded(buf + extra) == decoded(buf),
{
    lemma_frame_prefix(buf, extra);
}

/// Completeness is monotone: where the length check found a buffer incomplete
/// and bytes are added at its end, the check finds the longer buffer
/// incomplete still, or answers a length that reaches into the added bytes and
/// not beyond them. (Added bytes that make the frame malformed are left out:
/// then the check reports that.)
pub proof fn law_completeness_monotone(buf: Seq<u8>, extra: Seq<u8>)
    requires
        frame_span(buf) == Err::<nat, ErrorKind>(ErrorKind::NotComplete),
        frame_span(buf + extra) is Ok || frame_span(buf + extra) == Err::<nat, ErrorKind>(
            ErrorKind::NotComplete,
        ),
    ensures
        frame_span(buf + extra) == Err::<nat, ErrorKind>(ErrorKind::NotComplete) || (frame_span(
            buf + extra,
        ) matches Ok(n) && buf.len() < n <= buf.len() + extra.len()),
{
    law_span_within(buf + extra);
    lemma_frame_prefix(buf, extra);
}

} // verus!
