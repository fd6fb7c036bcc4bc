//! Doubles on the wire: decimal floating-point text.
//!
//! The codec carries a double as the text that stands between the prefix and
//! the line terminator. It checks that the text is a number and that its sign
//! is written; turning binary floating point into such text, and back, is left
//! to the caller.
use vstd::prelude::*;
use vstd::string::StringSliceAdditionalSpecFns;
use crate::line::CR;
use crate::number::{is_digit, MINUS, PLUS};

verus! {

/// `.`
pub const DOT: u8 = 46;

/// `+` or `-`
pub open spec fn is_sign(b: u8) -> bool {
    b == PLUS || b == MINUS
}

/// `e` or `E`
pub open spec fn is_exponent_mark(b: u8) -> bool {
    b == 101 || b == 69
}

/// An ASCII capital letter as its small letter, every other byte as itself.
pub open spec fn lower(b: u8) -> u8 {
    if 65 <= b <= 90 {
        (b + 32) as u8
    } else {
        b
    }
}

/// How many digits stand in a row from index `from` on.
pub open spec fn digit_run(t: Seq<u8>, from: int) -> nat
    decreases t.len() - from,
{
    if 0 <= from < t.len() && is_digit(t[from]) {
        1 + digit_run(t, from + 1)
    } else {
        0
    }
}

/// Where the number starts: behind the sign, if one is written.
pub open spec fn sign_length(t: Seq<u8>) -> int {
    if t.len() > 0 && is_sign(t[0]) {
        1
    } else {
        0
    }
}

/// From `at` to the end stands an exponent: `e` or `E`, an optional sign, and
/// at least one digit.
pub open spec fn is_exponent(t: Seq<u8>, at: int) -> bool {
    let digits_at = if at + 1 < t.len() && is_sign(t[at + 1]) {
        at + 2
    } else {
        at + 1
    };
    &&& 0 <= at < t.len()
    &&& is_exponent_mark(t[at])
    &&& digit_run(t, digits_at) > 0
    &&& digits_at + digit_run(t, digits_at) == t.len()
}

/// Where the mantissa that starts at `start` ends: behind its digits, and behind
/// the point and the digits after it where a point is written.
pub open spec fn mantissa_end(t: Seq<u8>, start: int) -> int {
    let whole = digit_run(t, start);
    if start + whole < t.len() && t[start + whole] == DOT {
        start + whole + 1 + digit_run(t, start + whole + 1)
    } else {
        start + whole
    }
}

/// How many digits the mantissa that starts at `start` has.
pub open spec fn mantissa_digits(t: Seq<u8>, start: int) -> nat {
    let whole = digit_run(t, start);
    if start + whole < t.len() && t[start + whole] == DOT {
        whole + digit_run(t, start + whole + 1)
    } else {
        whole
    }
}

/// From `start` to the end stands a number: digits with at most one point among
/// them, at least one digit, and an optional exponent.
pub open spec fn is_number(t: Seq<u8>, start: int) -> bool {
    let end = mantissa_end(t, start);
    mantissa_digits(t, start) > 0 && (end == t.len() || is_exponent(t, end))
}

/// From `start` to the end stands `inf`, `infinity` or `nan`, in any case.
pub open spec fn is_special(t: Seq<u8>, start: int) -> bool {
    ||| {
        &&& t.len() == start + 3
        &&& lower(t[start]) == 105
        &&& lower(t[start + 1]) == 110
        &&& lower(t[start + 2]) == 102
    }
    ||| {
        &&& t.len() == start + 3
        &&& lower(t[start]) == 110
        &&& lower(t[start + 1]) == 97
        &&& lower(t[start + 2]) == 110
    }
    ||| {
        &&& t.len() == start + 8
        &&& lower(t[start]) == 105
        &&& lower(t[start + 1]) == 110
        &&& lower(t[start + 2]) == 102
        &&& lower(t[start + 3]) == 105
        &&& lower(t[start + 4]) == 110
        &&& lower(t[start + 5]) == 105
        &&& lower(t[start + 6]) == 116
        &&& lower(t[start + 7]) == 121
    }
}

/// The text of a double: an optional sign, then a number in fixed or scientific
/// notation, or one of the words `inf`, `infinity` and `nan`.
pub open spec fn is_double_text(t: Seq<u8>) -> bool {
    let start = sign_length(t);
    is_special(t, start) || is_number(t, start)
}

/// The text with its sign written: a `+` is put in front where none stands.
pub open spec fn with_sign(t: Seq<u8>) -> Seq<u8> {
    if sign_length(t) == 1 {
        t
    } else {
        seq![PLUS] + t
    }
}

/// The text of a double as the encoder writes it: with its sign.
pub open spec fn is_signed_double_text(t: Seq<u8>) -> bool {
    is_double_text(t) && sign_length(t) == 1
}

/// A run of digits stays inside the text and holds digits only.
pub proof fn lemma_digit_run(t: Seq<u8>, from: int)
    requires
        0 <= from <= t.len(),
    ensures
        from + digit_run(t, from) <= t.len(),
        forall|i: int| from <= i < from + digit_run(t, from) ==> is_digit(#[trigger] t[i]),
        from + digit_run(t, from) < t.len() ==> !is_digit(t[from + digit_run(t, from)]),
    decreases t.len() - from,
{
    if from < t.len() && is_digit(t[from]) {
        lemma_digit_run(t, from + 1);
    }
}

/// Putting a sign in front of text that has none leaves a double a double.
pub proof fn lemma_with_sign(t: Seq<u8>)
    requires
        is_double_text(t),
    ensures
        is_signed_double_text(with_sign(t)),
{
    if sign_length(t) == 0 {
        let u = with_sign(t);
        assert(u.len() == t.len() + 1);
        assert(forall|i: int| 0 <= i < t.len() ==> u[i + 1] == t[i]);
        lemma_digit_run_shift(t, 0);
        let whole = digit_run(t, 0) as int;
        lemma_digit_run(t, 0);
        lemma_digit_run_shift(t, whole + 1);
        if is_number(t, 0) {
            let end = mantissa_end(t, 0);
            assert(mantissa_end(u, 1) == end + 1);
            if end != t.len() {
                lemma_digit_run_shift(t, end + 1);
                lemma_digit_run_shift(t, end + 2);
            }
        }
    }
}

/// A run of digits is the same run one place further in the text with a `+` in front.
proof fn lemma_digit_run_shift(t: Seq<u8>, from: int)
    requires
        0 <= from,
    ensures
        digit_run(seq![PLUS] + t, from + 1) == digit_run(t, from),
    decreases t.len() - from,
{
    let u = seq![PLUS] + t;
    if from < t.len() {
        assert(u[from + 1] == t[from]);
        if is_digit(t[from]) {
            lemma_digit_run_shift(t, from + 1);
        }
    }
}

/// The text of a double holds no carriage return.
pub proof fn lemma_double_text_has_no_cr(t: Seq<u8>)
    requires
        is_double_text(t),
    ensures
        forall|i: int| 0 <= i < t.len() ==> #[trigger] t[i] != CR,
{
    let start = sign_length(t);
    assert forall|i: int| 0 <= i < t.len() implies #[trigger] t[i] != CR by {
        if i < start {
        } else if is_special(t, start) {
            assert(lower(t[i]) != CR) by {
                assert(i == start || i == start + 1 || i == start + 2 || i == start + 3 || i
                    == start + 4 || i == start + 5 || i == start + 6 || i == start + 7);
            }
        } else {
            lemma_digit_run(t, start);
            let whole = digit_run(t, start) as int;
            let end = mantissa_end(t, start);
            if start + whole < t.len() {
                lemma_digit_run(t, start + whole + 1);
            }
            if i < end {
            } else {
                let digits_at = if end + 1 < t.len() && is_sign(t[end + 1]) {
                    end + 2
                } else {
                    end + 1
                };
                lemma_digit_run(t, digits_at);
            }
        }
    }
}

/// How many digits stand in a row in `t` from index `from` on.
fn digit_run_length(t: &[u8], from: usize) -> (n: usize)
    requires
        from <= t.len(),
    ensures
        n == digit_run(t@, from as int),
        from + n <= t.len(),
{
    let mut i: usize = from;
    while i < t.len() && 48 <= t[i] && t[i] <= 57
        invariant
            from <= i <= t.len(),
            digit_run(t@, from as int) == (i - from) + digit_run(t@, i as int),
        decreases t.len() - i,
    {
        i += 1;
    }
    i - from
}

fn lower_byte(b: u8) -> (r: u8)
    ensures
        r == lower(b),
{
    if 65 <= b && b <= 90 {
        b + 32
    } else {
        b
    }
}

fn is_special_text(t: &[u8], start: usize) -> (r: bool)
    requires
        start <= 1,
    ensures
        r == is_special(t@, start as int),
{
    if t.len() == start + 3 {
        let a = lower_byte(t[start]);
        let b = lower_byte(t[start + 1]);
        let c = lower_byte(t[start + 2]);
        (a == 105 && b == 110 && c == 102) || (a == 110 && b == 97 && c == 110)
    } else if t.len() == start + 8 {
        lower_byte(t[start]) == 105 && lower_byte(t[start + 1]) == 110 && lower_byte(t[start + 2])
            == 102 && lower_byte(t[start + 3]) == 105 && lower_byte(t[start + 4]) == 110
            && lower_byte(t[start + 5]) == 105 && lower_byte(t[start + 6]) == 116 && lower_byte(
            t[start + 7],
        ) == 121
    } else {
        false
    }
}

fn is_number_text(t: &[u8], start: usize) -> (r: bool)
    requires
        start <= t.len(),
    ensures
        r == is_number(t@, start as int),
{
    let whole = digit_run_length(t, start);
    let mut end = start + whole;
    let mut digits = whole;
    if end < t.len() && t[end] == DOT {
        let fraction = digit_run_length(t, end + 1);
        digits = whole + fraction;
        end = end + 1 + fraction;
    }
    if digits == 0 {
        return false;
    }
    if end == t.len() {
        return true;
    }
    if t[end] != 101 && t[end] != 69 {
        return false;
    }
    let mut digits_at = end + 1;
    if digits_at < t.len() && (t[digits_at] == PLUS || t[digits_at] == MINUS) {
        digits_at = digits_at + 1;
    }
    let exponent = digit_run_length(t, digits_at);
    exponent > 0 && digits_at + exponent == t.len()
}

/// Whether `t` is the text of a double.
pub(crate) fn is_double(t: &[u8]) -> (r: bool)
    ensures
        r == is_double_text(t@),
{
    let start: usize = if t.len() > 0 && (t[0] == PLUS || t[0] == MINUS) { 1 } else { 0 };
    is_special_text(t, start) || is_number_text(t, start)
}

/// A double, held as its decimal text with the sign written. Two doubles are
/// equal where their texts are.
#[derive(Debug, PartialEq, PartialOrd)]
pub struct RespDouble(Vec<u8>);

impl View for RespDouble {
    type V = Seq<u8>;

    closed spec fn view(&self) -> Seq<u8> {
        self.0@
    }
}

impl RespDouble {
    /// What every double holds: the text of a number, with its sign.
    #[verifier::type_invariant]
    spec fn signed(self) -> bool {
        is_signed_double_text(self@)
    }

    /// Takes the text of a double, in fixed or scientific notation, and writes
    /// its sign where it has none. `None` where the text is no double.
    pub fn new(text: &str) -> (r: Option<RespDouble>)
        ensures
            match r {
                Some(d) => is_double_text(text.spec_bytes()) && d@ == with_sign(text.spec_bytes()),
                None => !is_double_text(text.spec_bytes()),
            },
    {
        RespDouble::from_bytes(text.as_bytes())
    }

    /// As [`RespDouble::new`], from the bytes of the text.
    pub fn from_bytes(text: &[u8]) -> (r: Option<RespDouble>)
        ensures
            match r {
                Some(d) => is_double_text(text@) && d@ == with_sign(text@),
                None => !is_double_text(text@),
            },
    {
        if !is_double(text) {
            return None;
        }
        let mut bytes: Vec<u8> = Vec::new();
        if !(text.len() > 0 && (text[0] == PLUS || text[0] == MINUS)) {
            bytes.push(PLUS);
        }
        bytes.extend_from_slice(text);
        proof {
            assert(bytes@ =~= with_sign(text@));
            lemma_with_sign(text@);
        }
        Some(RespDouble(bytes))
    }

    /// The text, sign first.
    pub fn as_bytes(&self) -> (r: &[u8])
        ensures
            r@ == self@,
            is_signed_double_text(self@),
    {
        proof {
            use_type_invariant(self);
        }
        self.0.as_slice()
    }
}

/// The two ways in which a double is written.
#[derive(Debug, Clone, Copy, PartialEq, Eq, Structural)]
pub enum Notation {
    /// Digits with a decimal point, such as `1.234567`.
    Fixed,
    /// A mantissa and a power of ten, such as `1.23456e8`.
    Scientific,
}

/// The bit pattern of 1e8 as an IEEE 754 double.
pub const HUNDRED_MILLION_BITS: u64 = 0x4197_D784_0000_0000;

/// The bit pattern of 1e-8 as an IEEE 754 double.
pub const HUNDRED_MILLIONTH_BITS: u64 = 0x3E45_798E_E230_8C3A;

/// The bit pattern of positive infinity; every greater magnitude is a NaN.
pub const INFINITY_BITS: u64 = 0x7FF0_0000_0000_0000;

/// The bits of a double without its sign. Doubles that are no NaN are ordered
/// by magnitude as these numbers are.
pub open spec fn magnitude_bits(bits: u64) -> u64 {
    bits & 0x7FFF_FFFF_FFFF_FFFF
}

/// The rule by which the encoder picks the notation of the double with the
/// given IEEE 754 bit pattern: scientific where the magnitude is above 1e8, or
/// below 1e-8 and not zero; fixed for every other number and for NaN.
pub open spec fn notation_of(bits: u64) -> Notation {
    let m = magnitude_bits(bits);
    if m <= INFINITY_BITS && (m > HUNDRED_MILLION_BITS || (0 < m && m < HUNDRED_MILLIONTH_BITS)) {
        Notation::Scientific
    } else {
        Notation::Fixed
    }
}

/// The notation in which the double with the given bit pattern is written.
pub fn notation(bits: u64) -> (r: Notation)
    ensures
        r == notation_of(bits),
{
    let m = bits & 0x7FFF_FFFF_FFFF_FFFF;
    if m <= INFINITY_BITS && (m > HUNDRED_MILLION_BITS || (0 < m && m < HUNDRED_MILLIONTH_BITS)) {
        Notation::Scientific
    } else {
        Notation::Fixed
    }
}

} // verus!
