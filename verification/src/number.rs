//! Decimal text: the digits of counts, lengths and integers on the wire.
use vstd::prelude::*;

verus! {

/// `+`, the sign that zero and every positive number carry.
pub const PLUS: u8 = 43;

/// `-`
pub const MINUS: u8 = 45;

/// `0`
pub const ZERO: u8 = 48;

/// `0` to `9`
pub open spec fn is_digit(b: u8) -> bool {
    48 <= b <= 57
}

/// Digits only.
pub open spec fn all_digits(t: Seq<u8>) -> bool {
    forall|i: int| 0 <= i < t.len() ==> is_digit(#[trigger] t[i])
}

/// The number that a run of decimal digits writes, most significant first.
pub open spec fn digits_value(t: Seq<u8>) -> nat
    decreases t.len(),
{
    if t.len() == 0 {
        0
    } else {
        digits_value(t.drop_last()) * 10 + (t.last() - 48) as nat
    }
}

/// The decimal digits of `n`, without leading zeros.
pub open spec fn decimal(n: nat) -> Seq<u8>
    decreases n,
{
    if n < 10 {
        seq![(48 + n) as u8]
    } else {
        decimal(n / 10).push((48 + n % 10) as u8)
    }
}

/// The text of `i` with its sign always written: `+` for zero and above, `-` below.
pub open spec fn signed_decimal(i: int) -> Seq<u8> {
    if i < 0 {
        seq![MINUS] + decimal((-i) as nat)
    } else {
        seq![PLUS] + decimal(i as nat)
    }
}

/// The digits of a count, once an optional leading `+` is taken off.
pub open spec fn unsigned_digits(t: Seq<u8>) -> Seq<u8> {
    if t.len() > 0 && t[0] == PLUS {
        t.skip(1)
    } else {
        t
    }
}

/// The count that a header writes: an optional `+`, then at least one digit,
/// and a value that a `usize` holds.
pub open spec fn count_value(t: Seq<u8>) -> Option<nat> {
    let d = unsigned_digits(t);
    if d.len() > 0 && all_digits(d) && digits_value(d) <= usize::MAX {
        Some(digits_value(d))
    } else {
        None
    }
}

/// The digits of an integer, once an optional leading sign is taken off.
pub open spec fn integer_digits(t: Seq<u8>) -> Seq<u8> {
    if t.len() > 0 && (t[0] == PLUS || t[0] == MINUS) {
        t.skip(1)
    } else {
        t
    }
}

/// The integer that a payload writes: an optional sign, then at least one digit,
/// and a value that an `i64` holds.
pub open spec fn integer_value(t: Seq<u8>) -> Option<i64> {
    let d = integer_digits(t);
    let v = if t.len() > 0 && t[0] == MINUS {
        -(digits_value(d) as int)
    } else {
        digits_value(d) as int
    };
    if d.len() > 0 && all_digits(d) && i64::MIN <= v <= i64::MAX {
        Some(v as i64)
    } else {
        None
    }
}

/// `decimal` writes at least one digit, only digits, and the number it was given.
pub proof fn lemma_decimal(n: nat)
    ensures
        decimal(n).len() >= 1,
        all_digits(decimal(n)),
        digits_value(decimal(n)) == n,
    decreases n,
{
    if n < 10 {
        let t = decimal(n);
        assert(t.drop_last() =~= Seq::<u8>::empty());
        assert(digits_value(t.drop_last()) == 0);
    } else {
        lemma_decimal(n / 10);
        let t = decimal(n);
        assert(t.drop_last() =~= decimal(n / 10));
        assert(t.last() == (48 + n % 10) as u8);
    }
}

/// A longer run of digits writes a number that is no smaller.
pub proof fn lemma_digits_value_prefix(t: Seq<u8>, k: int)
    requires
        0 <= k <= t.len(),
        all_digits(t),
    ensures
        digits_value(t.take(k)) <= digits_value(t),
    decreases t.len() - k,
{
    if k < t.len() {
        lemma_digits_value_prefix(t, k + 1);
        let u = t.take(k + 1);
        assert(u.drop_last() =~= t.take(k));
        assert(is_digit(t[k]));
        assert(u.last() == t[k]);
    } else {
        assert(t.take(k) =~= t);
    }
}

/// A count written by `decimal` reads back as itself.
pub proof fn lemma_count_of_decimal(n: nat)
    requires
        n <= usize::MAX,
    ensures
        count_value(decimal(n)) == Some(n),
{
    lemma_decimal(n);
    assert(is_digit(decimal(n)[0]));
}

/// An integer written by `signed_decimal` reads back as itself.
pub proof fn lemma_integer_of_signed_decimal(i: i64)
    ensures
        integer_value(signed_decimal(i as int)) == Some(i),
{
    let t = signed_decimal(i as int);
    if i < 0 {
        lemma_decimal((-i) as nat);
        assert(t.skip(1) =~= decimal((-i) as nat));
    } else {
        lemma_decimal(i as nat);
        assert(t.skip(1) =~= decimal(i as nat));
    }
}

/// Appends the decimal digits of `n`.
pub(crate) fn push_decimal(out: &mut Vec<u8>, n: u64)
    ensures
        final(out)@ == old(out)@ + decimal(n as nat),
    decreases n,
{
    if n >= 10 {
        push_decimal(out, n / 10);
    }
    out.push(ZERO + (n % 10) as u8);
    assert(final(out)@ =~= old(out)@ + decimal(n as nat));
}

/// Appends `v` with its sign always written.
pub(crate) fn push_signed_decimal(out: &mut Vec<u8>, v: i64)
    ensures
        final(out)@ == old(out)@ + signed_decimal(v as int),
{
    if v < 0 {
        out.push(MINUS);
        let magnitude: u64 = (-(v + 1)) as u64 + 1;
        push_decimal(out, magnitude);
    } else {
        out.push(PLUS);
        push_decimal(out, v as u64);
    }
    assert(final(out)@ =~= old(out)@ + signed_decimal(v as int));
}

/// Reads a count: an optional `+`, then digits. `None` where the text is
/// anything else or the number does not fit.
pub(crate) fn parse_count(text: &[u8]) -> (r: Option<usize>)
    ensures
        match count_value(text@) {
            Some(n) => r == Some(n as usize),
            None => r is None,
        },
{
    let start: usize = if text.len() > 0 && text[0] == PLUS { 1 } else { 0 };
    let ghost d = unsigned_digits(text@);
    assert(d =~= text@.skip(start as int));
    if start == text.len() {
        return None;
    }
    let mut acc: usize = 0;
    let mut i: usize = start;
    while i < text.len()
        invariant
            start <= i <= text.len(),
            d == text@.skip(start as int),
            d == unsigned_digits(text@),
            all_digits(d.take(i - start)),
            acc as nat == digits_value(d.take(i - start)),
        decreases text.len() - i,
    {
        let b = text[i];
        assert(b == d[i - start]);
        if b < 48 || b > 57 {
            assert(!is_digit(d[i - start]));
            return None;
        }
        let digit: usize = (b - ZERO) as usize;
        proof {
            let u = d.take(i - start + 1);
            assert(u.drop_last() =~= d.take(i - start));
            assert(u.last() == b);
            assert(all_digits(u)) by {
                assert forall|j: int| 0 <= j < u.len() implies is_digit(#[trigger] u[j]) by {
                    if j < i - start {
                        assert(u[j] == d.take(i - start)[j]);
                    }
                }
            }
            assert(digits_value(u) == acc * 10 + digit);
        }
        if acc > (usize::MAX - digit) / 10 {
            proof {
                let u = d.take(i - start + 1);
                assert(digits_value(u) > usize::MAX);
                if all_digits(d) {
                    lemma_digits_value_prefix(d, i - start + 1);
                }
            }
            return None;
        }
        acc = acc * 10 + digit;
        i += 1;
    }
    assert(d.take(i - start) =~= d);
    Some(acc)
}

} // verus!
