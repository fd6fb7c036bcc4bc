//! The mathematical model of a frame and of its bytes on the wire.
use vstd::prelude::*;
use vstd::utf8::encode_utf8;
use crate::double::is_signed_double_text;
use crate::line::{crlf_at, CR, LF};
use crate::number::{decimal, is_digit, lemma_decimal, signed_decimal, MINUS};

verus! {

/// `+`, the prefix of a simple string.
pub const SIMPLE_STRING_PREFIX: u8 = 43;

/// `-`, the prefix of a simple error.
pub const SIMPLE_ERROR_PREFIX: u8 = 45;

/// `:`, the prefix of an integer.
pub const INTEGER_PREFIX: u8 = 58;

/// `$`, the prefix of a bulk string and of the null bulk string.
pub const BULK_STRING_PREFIX: u8 = 36;

/// `*`, the prefix of an array and of the null array.
pub const ARRAY_PREFIX: u8 = 42;

/// `_`, the prefix of the null.
pub const NULL_PREFIX: u8 = 95;

/// `#`, the prefix of a boolean.
pub const BOOLEAN_PREFIX: u8 = 35;

/// `,`, the prefix of a double.
pub const DOUBLE_PREFIX: u8 = 44;

/// `%`, the prefix of a map.
pub const MAP_PREFIX: u8 = 37;

/// `~`, the prefix of a set.
pub const SET_PREFIX: u8 = 126;

/// `t`, the payload of the boolean true.
pub const TRUE_BYTE: u8 = 116;

/// `f`, the payload of the boolean false.
pub const FALSE_BYTE: u8 = 102;

/// One value of the protocol, as plain mathematics.
pub enum Frame {
    SimpleString(Seq<char>),
    Error(Seq<char>),
    Integer(i64),
    BulkString(Seq<u8>),
    NullBulkString,
    Array(Seq<Frame>),
    Null,
    NullArray,
    Boolean(bool),
    /// The decimal text of the double.
    Double(Seq<u8>),
    /// The entries of a map, in the order in which they are written.
    RespMap(Seq<(Seq<char>, Frame)>),
    /// The members of a set, in the order in which they were given.
    RespSet(Seq<Frame>),
}

/// The line terminator.
pub open spec fn crlf() -> Seq<u8> {
    seq![CR, LF]
}

/// One line on the wire: a prefix byte, the text, the terminator.
pub open spec fn line(prefix: u8, text: Seq<u8>) -> Seq<u8> {
    seq![prefix] + text + crlf()
}

/// `-1`, the header of the null bulk string and of the null array.
pub open spec fn null_header() -> Seq<u8> {
    seq![MINUS, 49u8]
}

/// Text that can stand in a line: no terminator starts inside it.
pub open spec fn is_line_text(text: Seq<u8>) -> bool {
    forall|i: int| !crlf_at(text, i)
}

/// `a` comes before `b` in the order of their bytes, compared from index `from`
/// on: the first byte that differs decides, and a text comes before every
/// longer text that starts with it.
pub open spec fn bytes_lt_from(a: Seq<u8>, b: Seq<u8>, from: int) -> bool
    decreases a.len() - from,
{
    if from >= b.len() {
        false
    } else if from >= a.len() {
        true
    } else if a[from] != b[from] {
        a[from] < b[from]
    } else {
        bytes_lt_from(a, b, from + 1)
    }
}

/// The order of map keys: that of their UTF-8 bytes, which is the order of
/// `String`.
pub open spec fn key_lt(a: Seq<char>, b: Seq<char>) -> bool {
    bytes_lt_from(encode_utf8(a), encode_utf8(b), 0)
}

/// Every key is below each key that stands behind it.
pub open spec fn keys_ascending(entries: Seq<(Seq<char>, Frame)>) -> bool {
    forall|i: int, j: int|
        0 <= i < j < entries.len() ==> key_lt(#[trigger] entries[i].0, #[trigger] entries[j].0)
}

impl Frame {
    /// The bytes that encode this frame.
    pub open spec fn wire(self) -> Seq<u8>
        decreases self, 0nat,
    {
        match self {
            Frame::SimpleString(text) => line(SIMPLE_STRING_PREFIX, encode_utf8(text)),
            Frame::Error(text) => line(SIMPLE_ERROR_PREFIX, encode_utf8(text)),
            Frame::Integer(value) => line(INTEGER_PREFIX, signed_decimal(value as int)),
            Frame::BulkString(bytes) => line(BULK_STRING_PREFIX, decimal(bytes.len())) + bytes
                + crlf(),
            Frame::NullBulkString => line(BULK_STRING_PREFIX, null_header()),
            Frame::Array(items) => line(ARRAY_PREFIX, decimal(items.len())) + wire_frames(items, 0),
            Frame::Null => line(NULL_PREFIX, Seq::empty()),
            Frame::NullArray => line(ARRAY_PREFIX, null_header()),
            Frame::Boolean(value) => line(
                BOOLEAN_PREFIX,
                seq![if value { TRUE_BYTE } else { FALSE_BYTE }],
            ),
            Frame::Double(text) => line(DOUBLE_PREFIX, text),
            Frame::RespMap(entries) => line(MAP_PREFIX, decimal(entries.len())) + wire_entries(
                entries,
                0,
            ),
            Frame::RespSet(items) => line(SET_PREFIX, decimal(items.len())) + wire_frames(items, 0),
        }
    }

    /// The frames that the wire carries faithfully: text without a line
    /// terminator inside, doubles that are numbers with their sign, containers
    /// whose length a `usize` holds, and maps whose keys ascend.
    pub open spec fn valid(self) -> bool
        decreases self,
    {
        match self {
            Frame::SimpleString(text) => is_line_text(encode_utf8(text)),
            Frame::Error(text) => is_line_text(encode_utf8(text)),
            Frame::BulkString(bytes) => bytes.len() <= usize::MAX,
            Frame::Double(text) => is_signed_double_text(text),
            Frame::Array(items) => items.len() <= usize::MAX && forall|i: int|
                0 <= i < items.len() ==> (#[trigger] items[i]).valid(),
            Frame::RespSet(items) => items.len() <= usize::MAX && forall|i: int|
                0 <= i < items.len() ==> (#[trigger] items[i]).valid(),
            Frame::RespMap(entries) => {
                &&& entries.len() <= usize::MAX
                &&& keys_ascending(entries)
                &&& forall|i: int|
                    0 <= i < entries.len() ==> is_line_text(encode_utf8((#[trigger] entries[i]).0))
                        && entries[i].1.valid()
            },
            _ => true,
        }
    }
}

/// The bytes of the frames from index `from` on, one after the other.
pub open spec fn wire_frames(items: Seq<Frame>, from: int) -> Seq<u8>
    decreases items, items.len() - from,
{
    if 0 <= from < items.len() {
        items[from].wire() + wire_frames(items, from + 1)
    } else {
        Seq::empty()
    }
}

/// The bytes of the entries from index `from` on: each key as a simple string,
/// then its value.
pub open spec fn wire_entries(entries: Seq<(Seq<char>, Frame)>, from: int) -> Seq<u8>
    decreases entries, entries.len() - from,
{
    if 0 <= from < entries.len() {
        line(SIMPLE_STRING_PREFIX, encode_utf8(entries[from].0)) + entries[from].1.wire()
            + wire_entries(entries, from + 1)
    } else {
        Seq::empty()
    }
}

/// `at` is where an entry with the given key belongs: every key before it is
/// below the key, and the key at it, if there is one, is not.
pub open spec fn is_insert_position(entries: Seq<(Seq<char>, Frame)>, key: Seq<char>, at: int) -> bool {
    &&& 0 <= at <= entries.len()
    &&& forall|j: int| 0 <= j < at ==> key_lt((#[trigger] entries[j]).0, key)
    &&& at < entries.len() ==> !key_lt(entries[at].0, key)
}

/// Where an entry with the given key belongs.
pub open spec fn insert_position(entries: Seq<(Seq<char>, Frame)>, key: Seq<char>) -> int {
    choose|at: int| is_insert_position(entries, key, at)
}

/// The entries after `key` was given `value`: the value of an entry with that
/// key is replaced, and a new entry goes where the order of the keys puts it.
pub open spec fn map_insert(entries: Seq<(Seq<char>, Frame)>, key: Seq<char>, value: Frame) -> Seq<
    (Seq<char>, Frame),
> {
    let at = insert_position(entries, key);
    if at < entries.len() && entries[at].0 == key {
        entries.update(at, (key, value))
    } else {
        entries.insert(at, (key, value))
    }
}

/// The entries of the map that is filled with the given pairs, one after the
/// other: the last value given for a key stays.
pub open spec fn map_of(pairs: Seq<(Seq<char>, Frame)>) -> Seq<(Seq<char>, Frame)>
    decreases pairs.len(),
{
    if pairs.len() == 0 {
        Seq::empty()
    } else {
        map_insert(map_of(pairs.drop_last()), pairs.last().0, pairs.last().1)
    }
}

/// No text comes before itself.
pub proof fn lemma_bytes_lt_irreflexive(a: Seq<u8>, from: int)
    requires
        0 <= from,
    ensures
        !bytes_lt_from(a, a, from),
    decreases a.len() - from,
{
    if from < a.len() {
        lemma_bytes_lt_irreflexive(a, from + 1);
    }
}

/// What comes before a text comes before every text behind that one.
pub proof fn lemma_bytes_lt_transitive(a: Seq<u8>, b: Seq<u8>, c: Seq<u8>, from: int)
    requires
        0 <= from,
        bytes_lt_from(a, b, from),
        bytes_lt_from(b, c, from),
    ensures
        bytes_lt_from(a, c, from),
    decreases a.len() - from,
{
    if from < a.len() && a[from] == b[from] && b[from] == c[from] {
        lemma_bytes_lt_transitive(a, b, c, from + 1);
    }
}

/// Of two texts that agree up to `from`, one comes before the other, or they
/// are the same text.
pub proof fn lemma_bytes_lt_connected(a: Seq<u8>, b: Seq<u8>, from: int)
    requires
        0 <= from <= a.len(),
        from <= b.len(),
        a.take(from) == b.take(from),
        !bytes_lt_from(a, b, from),
        !bytes_lt_from(b, a, from),
    ensures
        a == b,
    decreases a.len() - from,
{
    if from < a.len() && from < b.len() {
        assert(a.take(from + 1) =~= a.take(from).push(a[from]));
        assert(b.take(from + 1) =~= b.take(from).push(b[from]));
        lemma_bytes_lt_connected(a, b, from + 1);
    } else {
        assert(a.take(from) =~= a);
        assert(b.take(from) =~= b);
    }
}

/// The order of keys is transitive.
pub proof fn lemma_key_lt_transitive(a: Seq<char>, b: Seq<char>, c: Seq<char>)
    requires
        key_lt(a, b),
        key_lt(b, c),
    ensures
        key_lt(a, c),
{
    lemma_bytes_lt_transitive(encode_utf8(a), encode_utf8(b), encode_utf8(c), 0);
}

/// Of two keys, one comes before the other, or they are the same key.
pub proof fn lemma_key_lt_connected(a: Seq<char>, b: Seq<char>)
    requires
        !key_lt(a, b),
        !key_lt(b, a),
    ensures
        a == b,
{
    assert(encode_utf8(a).take(0) =~= encode_utf8(b).take(0));
    lemma_bytes_lt_connected(encode_utf8(a), encode_utf8(b), 0);
    vstd::utf8::encode_utf8_decode_utf8(a);
    vstd::utf8::encode_utf8_decode_utf8(b);
}

/// There is one place where an entry with a given key belongs, and one only.
pub proof fn lemma_insert_position(entries: Seq<(Seq<char>, Frame)>, key: Seq<char>, at: int)
    requires
        is_insert_position(entries, key, at),
    ensures
        insert_position(entries, key) == at,
{
    let chosen = insert_position(entries, key);
    assert(is_insert_position(entries, key, chosen));
    if chosen < at {
        assert(key_lt(entries[chosen].0, key));
    } else if at < chosen {
        assert(key_lt(entries[at].0, key));
    }
}

/// Giving a key a value keeps ascending keys ascending.
pub proof fn lemma_map_insert_ascending(
    entries: Seq<(Seq<char>, Frame)>,
    key: Seq<char>,
    value: Frame,
)
    requires
        keys_ascending(entries),
    ensures
        keys_ascending(map_insert(entries, key, value)),
{
    lemma_insert_position_exists(entries, key, 0);
    let at = insert_position(entries, key);
    let after = map_insert(entries, key, value);
    if at < entries.len() && entries[at].0 == key {
        assert forall|i: int, j: int| 0 <= i < j < after.len() implies key_lt(
            #[trigger] after[i].0,
            #[trigger] after[j].0,
        ) by {
            assert(after[i].0 == entries[i].0);
            assert(after[j].0 == entries[j].0);
        }
    } else {
        assert forall|i: int, j: int| 0 <= i < j < after.len() implies key_lt(
            #[trigger] after[i].0,
            #[trigger] after[j].0,
        ) by {
            if j < at {
                assert(after[i] == entries[i] && after[j] == entries[j]);
            } else if j == at {
                assert(after[i] == entries[i]);
            } else if i == at {
                assert(after[j] == entries[j - 1]);
                if !key_lt(key, entries[at].0) {
                    lemma_key_lt_connected(key, entries[at].0);
                }
                if j - 1 > at {
                    assert(key_lt(entries[at].0, entries[j - 1].0));
                    lemma_key_lt_transitive(key, entries[at].0, entries[j - 1].0);
                }
            } else if i < at {
                assert(after[i] == entries[i] && after[j] == entries[j - 1]);
                assert(key_lt(entries[i].0, key));
                if !key_lt(key, entries[at].0) {
                    lemma_key_lt_connected(key, entries[at].0);
                }
                if j - 1 > at {
                    assert(key_lt(entries[at].0, entries[j - 1].0));
                    lemma_key_lt_transitive(key, entries[at].0, entries[j - 1].0);
                }
                lemma_key_lt_transitive(entries[i].0, key, entries[j - 1].0);
            } else {
                assert(after[i] == entries[i - 1] && after[j] == entries[j - 1]);
            }
        }
    }
}

/// Some place is the one where an entry with the given key belongs: the first
/// at or behind `from` whose key is not below it, given that all before `from`
/// are.
pub proof fn lemma_insert_position_exists(
    entries: Seq<(Seq<char>, Frame)>,
    key: Seq<char>,
    from: int,
)
    requires
        0 <= from <= entries.len(),
        forall|j: int| 0 <= j < from ==> key_lt((#[trigger] entries[j]).0, key),
    ensures
        is_insert_position(entries, key, insert_position(entries, key)),
    decreases entries.len() - from,
{
    if from < entries.len() && key_lt(entries[from].0, key) {
        lemma_insert_position_exists(entries, key, from + 1);
    } else {
        assert(is_insert_position(entries, key, from));
    }
}

/// Map key ordering: whatever pairs a map is filled with, and in whatever
/// order, its keys ascend, and so no key stands in it twice.
pub proof fn law_map_keys_ascend(pairs: Seq<(Seq<char>, Frame)>)
    ensures
        keys_ascending(map_of(pairs)),
    decreases pairs.len(),
{
    if pairs.len() > 0 {
        law_map_keys_ascend(pairs.drop_last());
        lemma_map_insert_ascending(map_of(pairs.drop_last()), pairs.last().0, pairs.last().1);
    }
}

/// Filling a map with pairs whose keys ascend gives those pairs, as they stand.
pub proof fn lemma_map_of_sorted(pairs: Seq<(Seq<char>, Frame)>)
    requires
        keys_ascending(pairs),
    ensures
        map_of(pairs) == pairs,
    decreases pairs.len(),
{
    if pairs.len() > 0 {
        let front = pairs.drop_last();
        lemma_map_of_sorted(front);
        assert(is_insert_position(front, pairs.last().0, front.len() as int)) by {
            assert forall|j: int| 0 <= j < front.len() implies key_lt(
                (#[trigger] front[j]).0,
                pairs.last().0,
            ) by {
                assert(front[j] == pairs[j]);
            }
        }
        lemma_insert_position(front, pairs.last().0, front.len() as int);
        assert(front.insert(front.len() as int, pairs.last()) =~= pairs);
    }
}

/// The three nulls are written as three different, fixed byte sequences, and
/// none of them as an empty array or an empty bulk string is.
pub proof fn law_null_forms()
    ensures
        Frame::Null.wire() == seq![NULL_PREFIX, CR, LF],
        Frame::NullArray.wire() == seq![ARRAY_PREFIX, MINUS, 49u8, CR, LF],
        Frame::NullBulkString.wire() == seq![BULK_STRING_PREFIX, MINUS, 49u8, CR, LF],
        Frame::Null.wire() != Frame::NullArray.wire(),
        Frame::Null.wire() != Frame::NullBulkString.wire(),
        Frame::NullArray.wire() != Frame::NullBulkString.wire(),
        Frame::NullArray.wire() != Frame::Array(Seq::empty()).wire(),
        Frame::NullBulkString.wire() != Frame::BulkString(Seq::empty()).wire(),
        Frame::NullArray != Frame::Array(Seq::empty()),
        Frame::NullBulkString != Frame::BulkString(Seq::empty()),
{
    assert(Frame::Null.wire() =~= seq![NULL_PREFIX, CR, LF]);
    assert(Frame::NullArray.wire() =~= seq![ARRAY_PREFIX, MINUS, 49u8, CR, LF]);
    assert(Frame::NullBulkString.wire() =~= seq![BULK_STRING_PREFIX, MINUS, 49u8, CR, LF]);
    assert(Frame::Null.wire().len() != Frame::NullArray.wire().len());
    assert(Frame::Null.wire().len() != Frame::NullBulkString.wire().len());
    assert(Frame::NullArray.wire()[0] != Frame::NullBulkString.wire()[0]);
    lemma_decimal(0);
    assert(is_digit(decimal(0)[0]));
    assert(Frame::Array(Seq::empty()).wire()[1] == decimal(0)[0]);
    assert(Frame::NullArray.wire()[1] == MINUS);
    assert(Frame::BulkString(Seq::empty()).wire()[1] == decimal(0)[0]);
    assert(Frame::NullBulkString.wire()[1] == MINUS);
}

} // verus!
