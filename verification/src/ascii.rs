//! Byte classes and unsigned decimal numbers, as the cost grammar uses them.

use crate::text::{is_ascii_bytes, lemma_ascii_is_utf8, string_from_utf8};
use vstd::prelude::*;
use vstd::utf8::*;

verus! {

/// The byte that opens a bracket group.
pub const OPEN_BRACE: u8 = 0x7b;

/// The byte that closes a bracket group.
pub const CLOSE_BRACE: u8 = 0x7d;

/// The byte that separates the two halves of a hybrid spelling.
pub const SLASH: u8 = 0x2f;

/// The optional sign of an unsigned decimal number.
pub const PLUS: u8 = 0x2b;

/// The sign of a negative loyalty cost.
pub const MINUS: u8 = 0x2d;

/// The digit zero.
pub const ZERO: u8 = 0x30;

/// ASCII whitespace: space, horizontal tab, line feed, form feed and carriage
/// return. The vertical tab is not among them.
pub open spec fn is_ascii_space(b: u8) -> bool {
    b == 0x20 || b == 0x09 || b == 0x0a || b == 0x0c || b == 0x0d
}

pub fn byte_is_ascii_space(b: u8) -> (r: bool)
    ensures
        r == is_ascii_space(b),
{
    b == 0x20 || b == 0x09 || b == 0x0a || b == 0x0c || b == 0x0d
}

/// One of the ten decimal digits.
pub open spec fn is_digit(b: u8) -> bool {
    ZERO <= b <= ZERO + 9
}

pub open spec fn all_digits(s: Seq<u8>) -> bool {
    forall|i: int| 0 <= i < s.len() ==> is_digit(#[trigger] s[i])
}

/// The number that a run of digits denotes, most significant digit first.
/// Leading zeros do not count; the empty run denotes zero.
pub open spec fn digits_value(s: Seq<u8>) -> nat
    decreases s.len(),
{
    if s.len() == 0 {
        0
    } else {
        (digits_value(s.drop_last()) * 10 + (s.last() - ZERO)) as nat
    }
}

/// The digits of `text` once an optional leading `+` is taken off.
pub open spec fn unsigned_digits(text: Seq<u8>) -> Seq<u8> {
    if text.len() > 0 && text[0] == PLUS {
        text.drop_first()
    } else {
        text
    }
}

/// What `text` denotes as an unsigned decimal number no greater than `max`:
/// an optional `+`, then one or more digits and nothing else. Anything else,
/// a number above `max` included, denotes nothing.
pub open spec fn unsigned_decimal(text: Seq<u8>, max: nat) -> Option<nat> {
    let digits = unsigned_digits(text);
    if digits.len() > 0 && all_digits(digits) && digits_value(digits) <= max {
        Some(digits_value(digits))
    } else {
        None
    }
}

/// The shortest run of digits that denotes `n`.
pub open spec fn decimal_digits(n: nat) -> Seq<u8>
    decreases n,
{
    if n < 10 {
        seq![(ZERO + n) as u8]
    } else {
        decimal_digits(n / 10).push((ZERO + n % 10) as u8)
    }
}

/// A longer run of digits never denotes less than one of its prefixes.
pub proof fn lemma_digits_value_prefix(s: Seq<u8>, k: int)
    requires
        all_digits(s),
        0 <= k <= s.len(),
    ensures
        digits_value(s.take(k)) <= digits_value(s),
    decreases s.len() - k,
{
    if k == s.len() {
        assert(s.take(k) =~= s);
    } else {
        lemma_digits_value_prefix(s, k + 1);
        let t = s.take(k + 1);
        assert(t.drop_last() =~= s.take(k));
        assert(is_digit(t.last()));
    }
}

/// Reading back the digits written for `n` gives `n`: the digits are never
/// empty, never start with a sign, and hold digits only.
pub proof fn lemma_decimal_round_trip(n: nat)
    ensures
        decimal_digits(n).len() > 0,
        all_digits(decimal_digits(n)),
        digits_value(decimal_digits(n)) == n,
        unsigned_digits(decimal_digits(n)) == decimal_digits(n),
        forall|max: nat| n <= max ==> #[trigger] unsigned_decimal(decimal_digits(n), max) == Some(n),
    decreases n,
{
    let d = decimal_digits(n);
    if n < 10 {
        assert(d.drop_last() =~= Seq::<u8>::empty());
        assert(digits_value(d.drop_last()) == 0);
    } else {
        lemma_decimal_round_trip(n / 10);
        let h = decimal_digits(n / 10);
        assert(d.drop_last() =~= h);
        assert(d[0] == h[0]);
        assert forall|i: int| 0 <= i < d.len() implies is_digit(#[trigger] d[i]) by {
            if i < h.len() {
                assert(d[i] == h[i]);
            }
        }
    }
    assert(is_digit(d[0]));
}

/// Reads an unsigned decimal number no greater than `max`.
pub fn parse_unsigned(text: &[u8], max: u32) -> (r: Option<u32>)
    ensures
        match r {
            Some(n) => unsigned_decimal(text@, max as nat) == Some(n as nat),
            None => unsigned_decimal(text@, max as nat) is None,
        },
{
    let start: usize = if text.len() > 0 && text[0] == PLUS { 1 } else { 0 };
    let ghost digits = unsigned_digits(text@);
    assert(digits =~= text@.subrange(start as int, text@.len() as int));
    if start == text.len() {
        return None;
    }
    let mut acc: u64 = 0;
    let mut i: usize = start;
    while i < text.len()
        invariant
            start <= i <= text.len(),
            digits == unsigned_digits(text@),
            digits == text@.subrange(start as int, text@.len() as int),
            all_digits(digits.take(i - start)),
            acc == digits_value(digits.take(i - start)),
            acc <= max,
        decreases text.len() - i,
    {
        let b = text[i];
        let ghost before = digits.take(i - start);
        let ghost after = digits.take(i - start + 1);
        assert(after.drop_last() =~= before);
        assert(after.last() == b);
        if b < ZERO || b > ZERO + 9 {
            assert(!is_digit(digits[i - start]));
            return None;
        }
        let next: u64 = acc * 10 + (b - ZERO) as u64;
        assert(next == digits_value(after));
        assert forall|j: int| 0 <= j < after.len() implies is_digit(#[trigger] after[j]) by {
            if j < before.len() {
                assert(after[j] == before[j]);
            }
        }
        if next > max as u64 {
            proof {
                if all_digits(digits) {
                    lemma_digits_value_prefix(digits, i - start + 1);
                }
            }
            return None;
        }
        acc = next;
        i = i + 1;
    }
    assert(digits.take(i - start) =~= digits);
    Some(acc as u32)
}

/// Appends the shortest decimal spelling of `n` to `out`.
pub fn push_decimal(out: &mut Vec<u8>, n: u64)
    ensures
        final(out)@ == old(out)@ + decimal_digits(n as nat),
    decreases n,
{
    if n >= 10 {
        push_decimal(out, n / 10);
    }
    out.push(ZERO + (n % 10) as u8);
    proof {
        if n >= 10 {
            assert(final(out)@ =~= old(out)@ + decimal_digits(n as nat));
        } else {
            assert(final(out)@ =~= old(out)@ + decimal_digits(n as nat));
        }
    }
}

/// The decimal spelling of `n`, as text.
pub open spec fn decimal_text(n: nat) -> Seq<char> {
    decode_utf8(decimal_digits(n))
}

/// The decimal spelling of `n`, as an owned string.
pub fn decimal_string(n: u64) -> (r: String)
    ensures
        r@ == decimal_text(n as nat),
        encode_utf8(r@) == decimal_digits(n as nat),
{
    let mut digits: Vec<u8> = Vec::new();
    push_decimal(&mut digits, n);
    proof {
        lemma_decimal_round_trip(n as nat);
        assert(digits@ =~= decimal_digits(n as nat));
        assert(is_ascii_bytes(digits@)) by {
            assert forall|i: int| 0 <= i < digits@.len() implies #[trigger] digits@[i] < 0x80 by {
                assert(is_digit(digits@[i]));
            }
        }
        lemma_ascii_is_utf8(digits@);
    }
    string_from_utf8(digits.as_slice())
}

} // verus!
