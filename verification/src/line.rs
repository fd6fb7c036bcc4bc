//! Line terminators: where a header or a simple frame ends.
use vstd::prelude::*;
use vstd::string::{StringExecFns, StringSliceAdditionalSpecFns};
use crate::error::{describe, ErrorKind, RespError};

verus! {

/// Carriage return, the first byte of the line terminator.
pub const CR: u8 = 13;

/// Line feed, the second byte of the line terminator.
pub const LF: u8 = 10;

/// Length of the line terminator.
pub const CRLF_LEN: usize = 2;

/// The two bytes at `i` and `i + 1` are both present and are CR, LF.
pub open spec fn crlf_at(s: Seq<u8>, i: int) -> bool {
    0 <= i && i + 1 < s.len() && s[i] == CR && s[i + 1] == LF
}

/// The number of line terminators that start before index `upto`.
pub open spec fn crlf_count(s: Seq<u8>, upto: int) -> nat
    decreases upto,
{
    if upto <= 0 {
        0
    } else {
        crlf_count(s, upto - 1) + if crlf_at(s, upto - 1) { 1nat } else { 0nat }
    }
}

/// `i` is where the `nth` line terminator of `s` starts, counting from 1.
pub open spec fn is_nth_crlf(s: Seq<u8>, nth: nat, i: int) -> bool {
    crlf_at(s, i) && crlf_count(s, i) + 1 == nth
}

/// Where the first line terminator of `s` starts, if `s` holds one whole.
pub open spec fn first_crlf(s: Seq<u8>) -> Option<int> {
    if exists|i: int| is_nth_crlf(s, 1, i) {
        Some(choose|i: int| is_nth_crlf(s, 1, i))
    } else {
        None
    }
}

/// The count never goes down as the bound moves right.
pub proof fn lemma_crlf_count_monotone(s: Seq<u8>, i: int, j: int)
    requires
        i <= j,
    ensures
        crlf_count(s, i) <= crlf_count(s, j),
    decreases j - i,
{
    if i < j {
        lemma_crlf_count_monotone(s, i, j - 1);
    }
}

/// No terminator starts before `i` exactly when the count up to `i` is zero.
pub proof fn lemma_crlf_count_zero(s: Seq<u8>, i: int)
    ensures
        crlf_count(s, i) == 0 <==> (forall|j: int| 0 <= j < i ==> !crlf_at(s, j)),
    decreases i,
{
    if i > 0 {
        lemma_crlf_count_zero(s, i - 1);
        if crlf_count(s, i) == 0 {
            assert forall|j: int| 0 <= j < i implies !crlf_at(s, j) by {
                if j < i - 1 {
                }
            }
        }
    }
}

/// The `nth` terminator starts at one place at most.
pub proof fn lemma_nth_crlf_unique(s: Seq<u8>, nth: nat, i: int, j: int)
    requires
        is_nth_crlf(s, nth, i),
        is_nth_crlf(s, nth, j),
    ensures
        i == j,
{
    if i < j {
        lemma_crlf_count_monotone(s, i + 1, j);
    } else if j < i {
        lemma_crlf_count_monotone(s, j + 1, i);
    }
}

/// A terminator at `i` with none before it is the first one.
pub proof fn lemma_first_crlf_here(s: Seq<u8>, i: int)
    requires
        crlf_at(s, i),
        forall|j: int| 0 <= j < i ==> !crlf_at(s, j),
    ensures
        first_crlf(s) == Some(i),
{
    lemma_crlf_count_zero(s, i);
    assert(is_nth_crlf(s, 1, i));
    let c = choose|c: int| is_nth_crlf(s, 1, c);
    lemma_nth_crlf_unique(s, 1, i, c);
}

/// What `first_crlf` answers, said without the count.
pub proof fn lemma_first_crlf(s: Seq<u8>)
    ensures
        match first_crlf(s) {
            Some(i) => crlf_at(s, i) && forall|j: int| 0 <= j < i ==> !crlf_at(s, j),
            None => forall|j: int| !crlf_at(s, j),
        },
{
    match first_crlf(s) {
        Some(i) => {
            lemma_crlf_count_zero(s, i);
        },
        None => {
            assert forall|j: int| !crlf_at(s, j) by {
                if crlf_at(s, j) {
                    lemma_some_crlf_has_first(s, j);
                }
            }
        },
    }
}

/// If a terminator starts at `j`, a first one exists at or before `j`.
pub proof fn lemma_some_crlf_has_first(s: Seq<u8>, j: int)
    requires
        crlf_at(s, j),
    ensures
        exists|i: int| 0 <= i <= j && is_nth_crlf(s, 1, i),
    decreases j,
{
    if crlf_count(s, j) == 0 {
        assert(is_nth_crlf(s, 1, j));
    } else {
        lemma_crlf_count_zero(s, j);
        let k = choose|k: int| 0 <= k < j && crlf_at(s, k);
        lemma_some_crlf_has_first(s, k);
    }
}

/// Finds the `nth` line terminator of `buf`, counting from 1, and returns the
/// index of its CR. A CR that ends the buffer is no terminator: both bytes have
/// to be there.
pub fn find_crlf(buf: &[u8], nth: usize) -> (r: Option<usize>)
    ensures
        match r {
            Some(i) => is_nth_crlf(buf@, nth as nat, i as int),
            None => forall|i: int| !is_nth_crlf(buf@, nth as nat, i),
        },
{
    if buf.len() < 2 {
        return None;
    }
    let mut count: usize = 0;
    let mut i: usize = 0;
    while i < buf.len() - 1
        invariant
            buf.len() >= 2,
            i <= buf.len() - 1,
            count <= i,
            count as nat == crlf_count(buf@, i as int),
            forall|j: int| 0 <= j < i ==> !is_nth_crlf(buf@, nth as nat, j),
        decreases buf.len() - i,
    {
        if buf[i] == CR && buf[i + 1] == LF {
            count += 1;
            if count == nth {
                return Some(i);
            }
        }
        i += 1;
    }
    None
}

/// Where the header line of a frame with the given prefix ends.
pub open spec fn simple_frame_end(s: Seq<u8>, prefix: Seq<u8>) -> Result<int, ErrorKind> {
    if s.len() < 3 {
        Err(ErrorKind::NotComplete)
    } else if !prefix.is_prefix_of(s) {
        Err(ErrorKind::InvalidFrameType)
    } else {
        match first_crlf(s) {
            Some(end) => Ok(end),
            None => Err(ErrorKind::NotComplete),
        }
    }
}

/// `buf` starts with the bytes of `prefix`.
fn starts_with(buf: &[u8], prefix: &[u8]) -> (r: bool)
    ensures
        r == prefix@.is_prefix_of(buf@),
{
    if prefix.len() > buf.len() {
        return false;
    }
    let mut i: usize = 0;
    while i < prefix.len()
        invariant
            i <= prefix.len() <= buf.len(),
            forall|j: int| 0 <= j < i ==> prefix@[j] == buf@[j],
        decreases prefix.len() - i,
    {
        if prefix[i] != buf[i] {
            assert(!prefix@.is_prefix_of(buf@)) by {
                if prefix@.is_prefix_of(buf@) {
                    assert(buf@.subrange(0, prefix@.len() as int)[i as int] == prefix@[i as int]);
                }
            }
            return false;
        }
        i += 1;
    }
    assert(prefix@ =~= buf@.subrange(0, prefix@.len() as int));
    true
}

/// Finds the end of the first line of a frame that must start with `prefix`:
/// the index of the CR of its terminator.
///
/// Fewer than three bytes are never enough; then the prefix is checked; then a
/// missing terminator means that more bytes have to arrive.
pub fn extract_simple_frame_data(buf: &[u8], prefix: &str) -> (r: Result<usize, RespError>)
    ensures
        match simple_frame_end(buf@, prefix.spec_bytes()) {
            Ok(end) => r matches Ok(e) && e == end && end + CRLF_LEN <= buf.len(),
            Err(kind) => r matches Err(e) && e.kind() == kind,
        },
{
    if buf.len() < 3 {
        return Err(RespError::NotComplete);
    }
    if !starts_with(buf, prefix.as_bytes()) {
        let expected = String::from_str("SimpleString(").concat(prefix).concat(")");
        return Err(RespError::InvalidFrameType(describe(expected.as_str(), buf)));
    }
    match find_crlf(buf, 1) {
        Some(end) => {
            proof {
                let c = choose|c: int| is_nth_crlf(buf@, 1, c);
                lemma_nth_crlf_unique(buf@, 1, end as int, c);
            }
            Ok(end)
        },
        None => Err(RespError::NotComplete),
    }
}

} // verus!
