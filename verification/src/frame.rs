//! The value model: the frames that the protocol carries.
use vstd::prelude::*;
use vstd::slice::slice_to_vec;
use vstd::std_specs::convert::FromSpecImpl;
use vstd::string::StringSliceAdditionalSpecFns;
use vstd::utf8::encode_utf8;
use std::ops::Deref;
use crate::double::RespDouble;
use crate::model::{
    bytes_lt_from, insert_position, is_insert_position, key_lt, keys_ascending,
    lemma_bytes_lt_irreflexive, lemma_insert_position, lemma_key_lt_connected,
    lemma_map_insert_ascending, map_insert, Frame,
};

verus! {

/// A line of text. It travels unharmed only where no line terminator stands in
/// it.
#[derive(Debug, PartialEq, Eq, Hash, PartialOrd)]
pub struct SimpleString(String);

/// A line of text that reports an error.
#[derive(Debug, PartialEq, Eq, Hash, PartialOrd)]
pub struct SimpleError(String);

/// Bytes of any value, carried with their length.
#[derive(Debug, PartialEq, Eq, Hash, PartialOrd)]
pub struct BulkString(Vec<u8>);

/// The null.
#[derive(Debug, PartialEq, Eq, Hash, PartialOrd)]
pub struct RespNull;

/// The null array, which is no empty array.
#[derive(Debug, PartialEq, Eq, Hash, PartialOrd)]
pub struct RespNullArray;

/// The null bulk string, which is no empty bulk string.
#[derive(Debug, PartialEq, Eq, Hash, PartialOrd)]
pub struct RespNullBulkString;

/// Frames in the order in which they were given.
#[derive(Debug, PartialEq, PartialOrd)]
pub struct RespArray(pub Vec<RespFrame>);

/// Entries with text keys, no key twice, kept and written in the ascending
/// order of the keys whatever the order in which they were put in.
#[derive(Debug, PartialEq, PartialOrd)]
pub struct RespMap(Vec<(String, RespFrame)>);

/// Frames in the order in which they were given; nothing is removed or moved.
#[derive(Debug, PartialEq, PartialOrd)]
pub struct RespSet(Vec<RespFrame>);

/// One value of the protocol.
#[derive(Debug, PartialEq, PartialOrd)]
pub enum RespFrame {
    SimpleString(SimpleString),
    Error(SimpleError),
    Integer(i64),
    BulkString(BulkString),
    NullBulkString(RespNullBulkString),
    Array(RespArray),
    Null(RespNull),
    NullArray(RespNullArray),
    Boolean(bool),
    Double(RespDouble),
    RespMap(RespMap),
    RespSet(RespSet),
}

impl View for SimpleString {
    type V = Seq<char>;

    closed spec fn view(&self) -> Seq<char> {
        self.0@
    }
}

impl View for SimpleError {
    type V = Seq<char>;

    closed spec fn view(&self) -> Seq<char> {
        self.0@
    }
}

impl View for BulkString {
    type V = Seq<u8>;

    closed spec fn view(&self) -> Seq<u8> {
        self.0@
    }
}

impl View for RespNull {
    type V = ();

    open spec fn view(&self) -> () {
        ()
    }
}

impl View for RespNullArray {
    type V = ();

    open spec fn view(&self) -> () {
        ()
    }
}

impl View for RespNullBulkString {
    type V = ();

    open spec fn view(&self) -> () {
        ()
    }
}

impl View for RespArray {
    type V = Seq<Frame>;

    open spec fn view(&self) -> Seq<Frame>
        decreases self,
    {
        Seq::new(
            self.0.len() as nat,
            |i: int|
                if 0 <= i < self.0.len() {
                    self.0[i].view()
                } else {
                    arbitrary()
                },
        )
    }
}

impl View for RespSet {
    type V = Seq<Frame>;

    closed spec fn view(&self) -> Seq<Frame>
        decreases self,
    {
        Seq::new(
            self.0.len() as nat,
            |i: int|
                if 0 <= i < self.0.len() {
                    self.0[i].view()
                } else {
                    arbitrary()
                },
        )
    }
}

impl View for RespMap {
    type V = Seq<(Seq<char>, Frame)>;

    closed spec fn view(&self) -> Seq<(Seq<char>, Frame)>
        decreases self,
    {
        Seq::new(
            self.0.len() as nat,
            |i: int|
                if 0 <= i < self.0.len() {
                    (self.0[i].0@, self.0[i].1.view())
                } else {
                    arbitrary()
                },
        )
    }
}

impl View for RespFrame {
    type V = Frame;

    open spec fn view(&self) -> Frame
        decreases self,
    {
        match self {
            RespFrame::SimpleString(s) => Frame::SimpleString(s.view()),
            RespFrame::Error(e) => Frame::Error(e.view()),
            RespFrame::Integer(i) => Frame::Integer(*i),
            RespFrame::BulkString(b) => Frame::BulkString(b.view()),
            RespFrame::NullBulkString(_) => Frame::NullBulkString,
            RespFrame::Array(a) => Frame::Array(a.view()),
            RespFrame::Null(_) => Frame::Null,
            RespFrame::NullArray(_) => Frame::NullArray,
            RespFrame::Boolean(b) => Frame::Boolean(*b),
            RespFrame::Double(d) => Frame::Double(d.view()),
            RespFrame::RespMap(m) => Frame::RespMap(m.view()),
            RespFrame::RespSet(s) => Frame::RespSet(s.view()),
        }
    }
}

impl SimpleString {
    /// The simple string with the given text.
    pub fn new(s: String) -> (r: Self)
        ensures
            r@ == s@,
    {
        SimpleString(s)
    }
}

impl Deref for SimpleString {
    type Target = String;

    fn deref(&self) -> (r: &String)
        ensures
            r@ == self@,
    {
        &self.0
    }
}

impl SimpleError {
    /// The error with the given text.
    pub fn new(s: String) -> (r: Self)
        ensures
            r@ == s@,
    {
        SimpleError(s)
    }
}

impl Deref for SimpleError {
    type Target = String;

    fn deref(&self) -> (r: &String)
        ensures
            r@ == self@,
    {
        &self.0
    }
}

impl BulkString {
    /// The bulk string with the given bytes.
    pub fn new(s: Vec<u8>) -> (r: Self)
        ensures
            r@ == s@,
    {
        BulkString(s)
    }
}

impl Deref for BulkString {
    type Target = Vec<u8>;

    fn deref(&self) -> (r: &Vec<u8>)
        ensures
            r@ == self@,
    {
        &self.0
    }
}

impl RespArray {
    /// The array of the given frames.
    pub fn new(s: Vec<RespFrame>) -> (r: Self)
        ensures
            r.0 == s,
            r@ == frames_view(s),
    {
        assert(RespArray(s)@ =~= frames_view(s));
        RespArray(s)
    }
}

impl Deref for RespArray {
    type Target = Vec<RespFrame>;

    fn deref(&self) -> (r: &Vec<RespFrame>)
        ensures
            *r == self.0,
            frames_view(*r) == self@,
    {
        assert(frames_view(self.0) =~= self@);
        &self.0
    }
}

/// The frames of a vector as the model sees them.
pub open spec fn frames_view(frames: Vec<RespFrame>) -> Seq<Frame> {
    Seq::new(frames.len() as nat, |i: int| frames[i]@)
}

impl RespSet {
    /// The set of the given frames, all of them and as they stand.
    pub fn new(s: Vec<RespFrame>) -> (r: Self)
        ensures
            r@ == frames_view(s),
    {
        assert(RespSet(s)@ =~= frames_view(s));
        RespSet(s)
    }
}

impl Deref for RespSet {
    type Target = Vec<RespFrame>;

    fn deref(&self) -> (r: &Vec<RespFrame>)
        ensures
            frames_view(*r) == self@,
    {
        assert(frames_view(self.0) =~= self@);
        &self.0
    }
}

/// Whether `a` comes before `b` in the order of map keys.
pub(crate) fn key_less(a: &str, b: &str) -> (r: bool)
    ensures
        r == key_lt(a@, b@),
{
    let x = a.as_bytes();
    let y = b.as_bytes();
    let mut i: usize = 0;
    while i < x.len() && i < y.len() && x[i] == y[i]
        invariant
            i <= x.len(),
            i <= y.len(),
            x@ == encode_utf8(a@),
            y@ == encode_utf8(b@),
            bytes_lt_from(x@, y@, i as int) == key_lt(a@, b@),
        decreases x.len() - i,
    {
        i += 1;
    }
    if i >= y.len() {
        false
    } else if i >= x.len() {
        true
    } else {
        x[i] < y[i]
    }
}

impl RespMap {
    /// The keys of a map ascend, whatever was put into it and in which order.
    #[verifier::type_invariant]
    spec fn ascending(self) -> bool {
        keys_ascending(self@)
    }

    /// The map without entries.
    pub fn new() -> (r: Self)
        ensures
            r@ == Seq::<(Seq<char>, Frame)>::empty(),
    {
        let entries: Vec<(String, RespFrame)> = Vec::new();
        let r = RespMap(entries);
        assert(r@ =~= Seq::<(Seq<char>, Frame)>::empty());
        r
    }

    /// How many entries the map has.
    pub fn len(&self) -> (n: usize)
        ensures
            n == self@.len(),
            keys_ascending(self@),
    {
        proof {
            use_type_invariant(self);
        }
        self.0.len()
    }

    /// The key and the value of the entry at `index`, counted in the ascending
    /// order of the keys.
    pub fn entry(&self, index: usize) -> (r: (&String, &RespFrame))
        requires
            index < self@.len(),
        ensures
            r.0@ == self@[index as int].0,
            r.1@ == self@[index as int].1,
            keys_ascending(self@),
    {
        proof {
            use_type_invariant(self);
        }
        (&self.0[index].0, &self.0[index].1)
    }

    /// The value that the key has, if it has one.
    pub fn get(&self, key: &str) -> (r: Option<&RespFrame>)
        ensures
            match r {
                Some(value) => exists|i: int|
                    0 <= i < self@.len() && (#[trigger] self@[i]).0 == key@ && self@[i].1
                        == value@,
                None => forall|i: int| 0 <= i < self@.len() ==> (#[trigger] self@[i]).0 != key@,
            },
    {
        let mut i: usize = 0;
        while i < self.0.len()
            invariant
                i <= self.0.len(),
                forall|j: int| 0 <= j < i ==> (#[trigger] self@[j]).0 != key@,
            decreases self.0.len() - i,
        {
            if !key_less(self.0[i].0.as_str(), key) && !key_less(key, self.0[i].0.as_str()) {
                proof {
                    lemma_key_lt_connected(self@[i as int].0, key@);
                }
                let value = &self.0[i].1;
                assert(self@[i as int].0 == key@ && self@[i as int].1 == value@);
                return Some(value);
            }
            proof {
                if self@[i as int].0 == key@ {
                    lemma_bytes_lt_irreflexive(encode_utf8(key@), 0);
                }
            }
            i += 1;
        }
        None
    }

    /// Gives `key` the value `value`. Where the key had a value, that value is
    /// replaced and handed back; otherwise the entry is put where the order of
    /// the keys wants it.
    pub fn insert(&mut self, key: String, value: RespFrame) -> (previous: Option<RespFrame>)
        ensures
            final(self)@ == map_insert(old(self)@, key@, value@),
            keys_ascending(old(self)@),
            keys_ascending(final(self)@),
            ({
                let at = insert_position(old(self)@, key@);
                if at < old(self)@.len() && old(self)@[at].0 == key@ {
                    previous matches Some(v) && v@ == old(self)@[at].1
                } else {
                    previous is None
                }
            }),
    {
        proof {
            use_type_invariant(&*self);
        }
        let mut i: usize = 0;
        while i < self.0.len() && key_less(self.0[i].0.as_str(), key.as_str())
            invariant
                i <= self.0.len(),
                *self == *old(self),
                forall|j: int| 0 <= j < i ==> key_lt((#[trigger] self@[j]).0, key@),
            decreases self.0.len() - i,
        {
            i += 1;
        }
        proof {
            assert(is_insert_position(old(self)@, key@, i as int));
            lemma_insert_position(old(self)@, key@, i as int);
            lemma_map_insert_ascending(old(self)@, key@, value@);
        }
        let replaces = i < self.0.len() && self.0[i].0 == key;
        let mut taken = RespMap::new();
        std::mem::swap(self, &mut taken);
        let ghost before = taken@;
        let ghost key_view = key@;
        let ghost value_view = value@;
        let RespMap(mut entries) = taken;
        assert(before =~= Seq::new(entries.len() as nat, |j: int| (entries[j].0@, entries[j].1@)));
        let previous = if replaces {
            let replaced = entries.remove(i);
            entries.insert(i, (key, value));
            Some(replaced.1)
        } else {
            entries.insert(i, (key, value));
            None
        };
        assert(Seq::new(entries.len() as nat, |j: int| (entries[j].0@, entries[j].1@))
            =~= map_insert(before, key_view, value_view));
        assert(RespMap(entries)@ =~= map_insert(before, key_view, value_view));
        *self = RespMap(entries);
        previous
    }
}

impl From<&str> for SimpleString {
    fn from(s: &str) -> (r: SimpleString)
        ensures
            r@ == s@,
    {
        SimpleString(s.to_owned())
    }
}

impl FromSpecImpl<&str> for SimpleString {
    open spec fn obeys_from_spec() -> bool {
        false
    }

    open spec fn from_spec(s: &str) -> SimpleString {
        arbitrary()
    }
}

impl From<&str> for BulkString {
    fn from(s: &str) -> (r: BulkString)
        ensures
            r@ == encode_utf8(s@),
    {
        BulkString(slice_to_vec(s.as_bytes()))
    }
}

impl FromSpecImpl<&str> for BulkString {
    open spec fn obeys_from_spec() -> bool {
        false
    }

    open spec fn from_spec(s: &str) -> BulkString {
        arbitrary()
    }
}

impl From<String> for BulkString {
    fn from(s: String) -> (r: BulkString)
        ensures
            r@ == encode_utf8(s@),
    {
        BulkString(slice_to_vec(s.as_str().as_bytes()))
    }
}

impl FromSpecImpl<String> for BulkString {
    open spec fn obeys_from_spec() -> bool {
        false
    }

    open spec fn from_spec(s: String) -> BulkString {
        arbitrary()
    }
}

impl<const N: usize> From<&[u8; N]> for BulkString {
    fn from(s: &[u8; N]) -> (r: BulkString)
        ensures
            r@ == s@,
    {
        BulkString(slice_to_vec(s.as_slice()))
    }
}

impl<const N: usize> FromSpecImpl<&[u8; N]> for BulkString {
    open spec fn obeys_from_spec() -> bool {
        false
    }

    open spec fn from_spec(s: &[u8; N]) -> BulkString {
        arbitrary()
    }
}

impl<const N: usize> From<&[u8; N]> for RespFrame {
    fn from(s: &[u8; N]) -> (r: RespFrame)
        ensures
            r@ == Frame::BulkString(s@),
    {
        RespFrame::BulkString(BulkString(slice_to_vec(s.as_slice())))
    }
}

impl<const N: usize> FromSpecImpl<&[u8; N]> for RespFrame {
    open spec fn obeys_from_spec() -> bool {
        false
    }

    open spec fn from_spec(s: &[u8; N]) -> RespFrame {
        arbitrary()
    }
}

impl From<Vec<RespFrame>> for RespArray {
    fn from(value: Vec<RespFrame>) -> (r: RespArray) {
        RespArray(value)
    }
}

impl FromSpecImpl<Vec<RespFrame>> for RespArray {
    open spec fn obeys_from_spec() -> bool {
        true
    }

    open spec fn from_spec(value: Vec<RespFrame>) -> RespArray {
        RespArray(value)
    }
}

impl From<SimpleString> for RespFrame {
    fn from(value: SimpleString) -> (r: RespFrame) {
        RespFrame::SimpleString(value)
    }
}

impl FromSpecImpl<SimpleString> for RespFrame {
    open spec fn obeys_from_spec() -> bool {
        true
    }

    open spec fn from_spec(value: SimpleString) -> RespFrame {
        RespFrame::SimpleString(value)
    }
}

impl From<SimpleError> for RespFrame {
    fn from(value: SimpleError) -> (r: RespFrame) {
        RespFrame::Error(value)
    }
}

impl FromSpecImpl<SimpleError> for RespFrame {
    open spec fn obeys_from_spec() -> bool {
        true
    }

    open spec fn from_spec(value: SimpleError) -> RespFrame {
        RespFrame::Error(value)
    }
}

impl From<i64> for RespFrame {
    fn from(value: i64) -> (r: RespFrame) {
        RespFrame::Integer(value)
    }
}

impl FromSpecImpl<i64> for RespFrame {
    open spec fn obeys_from_spec() -> bool {
        true
    }

    open spec fn from_spec(value: i64) -> RespFrame {
        RespFrame::Integer(value)
    }
}

impl From<BulkString> for RespFrame {
    fn from(value: BulkString) -> (r: RespFrame) {
        RespFrame::BulkString(value)
    }
}

impl FromSpecImpl<BulkString> for RespFrame {
    open spec fn obeys_from_spec() -> bool {
        true
    }

    open spec fn from_spec(value: BulkString) -> RespFrame {
        RespFrame::BulkString(value)
    }
}

impl From<RespNullBulkString> for RespFrame {
    fn from(value: RespNullBulkString) -> (r: RespFrame) {
        RespFrame::NullBulkString(value)
    }
}

impl FromSpecImpl<RespNullBulkString> for RespFrame {
    open spec fn obeys_from_spec() -> bool {
        true
    }

    open spec fn from_spec(value: RespNullBulkString) -> RespFrame {
        RespFrame::NullBulkString(value)
    }
}

impl From<RespArray> for RespFrame {
    fn from(value: RespArray) -> (r: RespFrame) {
        RespFrame::Array(value)
    }
}

impl FromSpecImpl<RespArray> for RespFrame {
    open spec fn obeys_from_spec() -> bool {
        true
    }

    open spec fn from_spec(value: RespArray) -> RespFrame {
        RespFrame::Array(value)
    }
}

impl From<RespNull> for RespFrame {
    fn from(value: RespNull) -> (r: RespFrame) {
        RespFrame::Null(value)
    }
}

impl FromSpecImpl<RespNull> for RespFrame {
    open spec fn obeys_from_spec() -> bool {
        true
    }

    open spec fn from_spec(value: RespNull) -> RespFrame {
        RespFrame::Null(value)
    }
}

impl From<RespNullArray> for RespFrame {
    fn from(value: RespNullArray) -> (r: RespFrame) {
        RespFrame::NullArray(value)
    }
}

impl FromSpecImpl<RespNullArray> for RespFrame {
    open spec fn obeys_from_spec() -> bool {
        true
    }

    open spec fn from_spec(value: RespNullArray) -> RespFrame {
        RespFrame::NullArray(value)
    }
}

impl From<bool> for RespFrame {
    fn from(value: bool) -> (r: RespFrame) {
        RespFrame::Boolean(value)
    }
}

impl FromSpecImpl<bool> for RespFrame {
    open spec fn obeys_from_spec() -> bool {
        true
    }

    open spec fn from_spec(value: bool) -> RespFrame {
        RespFrame::Boolean(value)
    }
}

impl From<RespDouble> for RespFrame {
    fn from(value: RespDouble) -> (r: RespFrame) {
        RespFrame::Double(value)
    }
}

impl FromSpecImpl<RespDouble> for RespFrame {
    open spec fn obeys_from_spec() -> bool {
        true
    }

    open spec fn from_spec(value: RespDouble) -> RespFrame {
        RespFrame::Double(value)
    }
}

impl From<RespMap> for RespFrame {
    fn from(value: RespMap) -> (r: RespFrame) {
        RespFrame::RespMap(value)
    }
}

impl FromSpecImpl<RespMap> for RespFrame {
    open spec fn obeys_from_spec() -> bool {
        true
    }

    open spec fn from_spec(value: RespMap) -> RespFrame {
        RespFrame::RespMap(value)
    }
}

impl From<RespSet> for RespFrame {
    fn from(value: RespSet) -> (r: RespFrame) {
        RespFrame::RespSet(value)
    }
}

impl FromSpecImpl<RespSet> for RespFrame {
    open spec fn obeys_from_spec() -> bool {
        true
    }

    open spec fn from_spec(value: RespSet) -> RespFrame {
        RespFrame::RespSet(value)
    }
}

} // verus!
