//! The two small grammars of a planeswalker: what an ability costs in
//! loyalty, and the loyalty a planeswalker starts with.

use crate::ascii::{
    decimal_digits, is_digit, lemma_decimal_round_trip, parse_unsigned, push_decimal,
    all_digits, digits_value, unsigned_decimal, unsigned_digits, MINUS, PLUS, ZERO,
};
use crate::text::{
    ascii_upper, is_ascii_bytes, is_white_space, lemma_ascii_is_utf8, string_from_utf8,
    to_upper_case, trim, trimmed, upper_case,
};
use vstd::prelude::*;
use vstd::string::*;
use vstd::utf8::*;

verus! {

/// What an ability costs in loyalty.
#[derive(Debug, Clone, Copy, PartialEq, Eq, Hash, Structural)]
pub enum LoyaltyCost {
    Plus(u8),
    Minus(u8),
    Zero,
    PlusX,
    MinusX,
}

/// The loyalty a planeswalker starts with.
#[derive(Debug, Clone, Copy, PartialEq, Eq, Hash, Structural)]
pub enum LoyaltyValue {
    Numeric(u32),
    X,
}

impl DeepView for LoyaltyCost {
    type V = LoyaltyCost;

    open spec fn deep_view(&self) -> LoyaltyCost {
        *self
    }
}

impl DeepView for LoyaltyValue {
    type V = LoyaltyValue;

    open spec fn deep_view(&self) -> LoyaltyValue {
        *self
    }
}

/// A sign followed by the letter X.
pub open spec fn signed_x(sign: u8) -> Seq<u8> {
    seq![sign, 'X' as u8]
}

/// The loyalty cost that a text denotes, once trimmed and in upper case.
///
/// `0` is no cost; `+X` and `-X` are the variable costs; a sign followed by a
/// number up to 255 adds or takes that much; a bare number adds that much,
/// and is no cost where it is zero. A number may have leading zeros and one
/// `+` in front of its digits. Anything else denotes nothing.
pub open spec fn loyalty_cost_of(text: Seq<u8>) -> Option<LoyaltyCost> {
    if text == seq![ZERO] {
        Some(LoyaltyCost::Zero)
    } else if text == signed_x(PLUS) {
        Some(LoyaltyCost::PlusX)
    } else if text == signed_x(MINUS) {
        Some(LoyaltyCost::MinusX)
    } else if text.len() > 0 && text[0] == PLUS {
        match unsigned_decimal(text.drop_first(), u8::MAX as nat) {
            Some(n) => Some(LoyaltyCost::Plus(n as u8)),
            None => None,
        }
    } else if text.len() > 0 && text[0] == MINUS {
        match unsigned_decimal(text.drop_first(), u8::MAX as nat) {
            Some(n) => Some(LoyaltyCost::Minus(n as u8)),
            None => None,
        }
    } else {
        match unsigned_decimal(text, u8::MAX as nat) {
            Some(n) => Some(
                if n == 0 {
                    LoyaltyCost::Zero
                } else {
                    LoyaltyCost::Plus(n as u8)
                },
            ),
            None => None,
        }
    }
}

/// How the report on a text that denotes no loyalty cost begins.
pub open spec fn loyalty_cost_complaint(text: Seq<u8>) -> Seq<char> {
    if text.len() > 0 && text[0] == PLUS {
        "Invalid plus loyalty cost: "@
    } else if text.len() > 0 && text[0] == MINUS {
        "Invalid minus loyalty cost: "@
    } else {
        "Unknown loyalty cost: "@
    }
}

/// What reading a trimmed, upper-case text as a loyalty cost gives: the cost,
/// or a report that ends in the text.
pub open spec fn loyalty_cost_outcome(text: Seq<char>) -> Result<LoyaltyCost, Seq<char>> {
    match loyalty_cost_of(encode_utf8(text)) {
        Some(cost) => Ok(cost),
        None => Err(loyalty_cost_complaint(encode_utf8(text)) + text),
    }
}

/// The printed form of a loyalty cost.
pub open spec fn loyalty_cost_text(cost: LoyaltyCost) -> Seq<u8> {
    match cost {
        LoyaltyCost::Plus(n) => seq![PLUS] + decimal_digits(n as nat),
        LoyaltyCost::Minus(n) => seq![MINUS] + decimal_digits(n as nat),
        LoyaltyCost::Zero => seq![ZERO],
        LoyaltyCost::PlusX => signed_x(PLUS),
        LoyaltyCost::MinusX => signed_x(MINUS),
    }
}

/// The starting loyalty that a text denotes, once trimmed and in upper case:
/// `X`, or a number that fits 32 bits.
pub open spec fn loyalty_value_of(text: Seq<u8>) -> Option<LoyaltyValue> {
    if text == seq!['X' as u8] {
        Some(LoyaltyValue::X)
    } else {
        match unsigned_decimal(text, u32::MAX as nat) {
            Some(n) => Some(LoyaltyValue::Numeric(n as u32)),
            None => None,
        }
    }
}

/// What reading a trimmed, upper-case text as a starting loyalty gives: the
/// loyalty, or a report that ends in the text.
pub open spec fn loyalty_value_outcome(text: Seq<char>) -> Result<LoyaltyValue, Seq<char>> {
    match loyalty_value_of(encode_utf8(text)) {
        Some(value) => Ok(value),
        None => Err("Invalid loyalty value: "@ + text),
    }
}

/// The printed form of a starting loyalty.
pub open spec fn loyalty_value_text(value: LoyaltyValue) -> Seq<u8> {
    match value {
        LoyaltyValue::Numeric(n) => decimal_digits(n as nat),
        LoyaltyValue::X => seq!['X' as u8],
    }
}

/// A text as the two grammars take it: trimmed, then in upper case.
pub open spec fn normalized(text: Seq<char>) -> Seq<char> {
    upper_case(trimmed(text))
}

/// The mathematical value of a result whose report is a string.
pub open spec fn reported<T>(r: Result<T, String>) -> Result<T, Seq<char>> {
    match r {
        Ok(value) => Ok(value),
        Err(report) => Err(report@),
    }
}

/// A report: how it begins, then the text it is about.
fn complain(beginning: &str, text: &str) -> (r: String)
    ensures
        r@ == beginning@ + text@,
{
    let mut report = beginning.to_owned();
    report.append(text);
    report
}

/// The owned text of printed ASCII bytes.
fn ascii_string(bytes: &Vec<u8>) -> (r: String)
    requires
        is_ascii_bytes(bytes@),
    ensures
        encode_utf8(r@) == bytes@,
{
    proof {
        lemma_ascii_is_utf8(bytes@);
    }
    string_from_utf8(bytes.as_slice())
}

/// The digits written for a number are plain ASCII.
proof fn lemma_decimal_digits_ascii(n: nat)
    ensures
        is_ascii_bytes(decimal_digits(n)),
{
    lemma_decimal_round_trip(n);
    assert forall|i: int| 0 <= i < decimal_digits(n).len() implies #[trigger] decimal_digits(
        n,
    )[i] < 0x80 by {
        assert(is_digit(decimal_digits(n)[i]));
    }
}

impl LoyaltyCost {
    /// Reads a loyalty cost. The text is trimmed and put in upper case first.
    pub fn parse(text: &str) -> (r: Result<LoyaltyCost, String>)
        ensures
            reported(r) == loyalty_cost_outcome(normalized(text@)),
    {
        let trimmed = trim(text);
        let upper = to_upper_case(trimmed.as_str());
        Self::parse_normalized(upper.as_str())
    }

    /// Reads a loyalty cost from a text that is trimmed and in upper case
    /// already.
    pub fn parse_normalized(text: &str) -> (r: Result<LoyaltyCost, String>)
        ensures
            reported(r) == loyalty_cost_outcome(text@),
    {
        let bytes = text.as_bytes();
        let n = bytes.len();
        if n == 1 && bytes[0] == ZERO {
            assert(bytes@ =~= seq![ZERO]);
            return Ok(LoyaltyCost::Zero);
        }
        if n == 2 && bytes[0] == PLUS && bytes[1] == 'X' as u8 {
            assert(bytes@ =~= signed_x(PLUS));
            return Ok(LoyaltyCost::PlusX);
        }
        if n == 2 && bytes[0] == MINUS && bytes[1] == 'X' as u8 {
            assert(bytes@ =~= signed_x(MINUS));
            return Ok(LoyaltyCost::MinusX);
        }
        proof {
            if bytes@ == seq![ZERO] {
                assert(bytes@[0] == seq![ZERO][0]);
            }
            if bytes@ == signed_x(PLUS) {
                assert(bytes@[0] == signed_x(PLUS)[0] && bytes@[1] == signed_x(PLUS)[1]);
            }
            if bytes@ == signed_x(MINUS) {
                assert(bytes@[0] == signed_x(MINUS)[0] && bytes@[1] == signed_x(MINUS)[1]);
            }
        }
        if n > 0 && bytes[0] == PLUS {
            assert(bytes@.drop_first() =~= bytes@.subrange(1, n as int));
            match parse_unsigned(&bytes[1..n], u8::MAX as u32) {
                Some(amount) => Ok(LoyaltyCost::Plus(amount as u8)),
                None => Err(complain("Invalid plus loyalty cost: ", text)),
            }
        } else if n > 0 && bytes[0] == MINUS {
            assert(bytes@.drop_first() =~= bytes@.subrange(1, n as int));
            match parse_unsigned(&bytes[1..n], u8::MAX as u32) {
                Some(amount) => Ok(LoyaltyCost::Minus(amount as u8)),
                None => Err(complain("Invalid minus loyalty cost: ", text)),
            }
        } else {
            match parse_unsigned(bytes, u8::MAX as u32) {
                Some(amount) => if amount == 0 {
                    Ok(LoyaltyCost::Zero)
                } else {
                    Ok(LoyaltyCost::Plus(amount as u8))
                },
                None => Err(complain("Unknown loyalty cost: ", text)),
            }
        }
    }

    /// The cost as it is printed: `+2`, `-3`, `0`, `+X`, `-X`.
    pub fn to_string(&self) -> (r: String)
        ensures
            encode_utf8(r@) == loyalty_cost_text(*self),
    {
        let mut out: Vec<u8> = Vec::new();
        match *self {
            LoyaltyCost::Plus(n) => {
                out.push(PLUS);
                push_decimal(&mut out, n as u64);
                proof {
                    lemma_decimal_digits_ascii(n as nat);
                }
            },
            LoyaltyCost::Minus(n) => {
                out.push(MINUS);
                push_decimal(&mut out, n as u64);
                proof {
                    lemma_decimal_digits_ascii(n as nat);
                }
            },
            LoyaltyCost::Zero => {
                out.push(ZERO);
            },
            LoyaltyCost::PlusX => {
                out.push(PLUS);
                out.push('X' as u8);
            },
            LoyaltyCost::MinusX => {
                out.push(MINUS);
                out.push('X' as u8);
            },
        }
        assert(out@ =~= loyalty_cost_text(*self));
        assert(is_ascii_bytes(out@)) by {
            assert forall|i: int| 0 <= i < out@.len() implies #[trigger] out@[i] < 0x80 by {
                match *self {
                    LoyaltyCost::Plus(n) => {
                        if i > 0 {
                            assert(out@[i] == decimal_digits(n as nat)[i - 1]);
                        }
                    },
                    LoyaltyCost::Minus(n) => {
                        if i > 0 {
                            assert(out@[i] == decimal_digits(n as nat)[i - 1]);
                        }
                    },
                    _ => {},
                }
            }
        }
        ascii_string(&out)
    }
}

impl LoyaltyValue {
    /// Reads a starting loyalty. The text is trimmed and put in upper case
    /// first.
    pub fn parse(text: &str) -> (r: Result<LoyaltyValue, String>)
        ensures
            reported(r) == loyalty_value_outcome(normalized(text@)),
    {
        let trimmed = trim(text);
        let upper = to_upper_case(trimmed.as_str());
        Self::parse_normalized(upper.as_str())
    }

    /// Reads a starting loyalty from a text that is trimmed and in upper case
    /// already.
    pub fn parse_normalized(text: &str) -> (r: Result<LoyaltyValue, String>)
        ensures
            reported(r) == loyalty_value_outcome(text@),
    {
        let bytes = text.as_bytes();
        if bytes.len() == 1 && bytes[0] == 'X' as u8 {
            assert(bytes@ =~= seq!['X' as u8]);
            return Ok(LoyaltyValue::X);
        }
        proof {
            if bytes@ == seq!['X' as u8] {
                assert(bytes@[0] == seq!['X' as u8][0]);
            }
        }
        match parse_unsigned(bytes, u32::MAX) {
            Some(n) => Ok(LoyaltyValue::Numeric(n)),
            None => Err(complain("Invalid loyalty value: ", text)),
        }
    }

    /// The loyalty as it is printed: the number, or `X`.
    pub fn to_string(&self) -> (r: String)
        ensures
            encode_utf8(r@) == loyalty_value_text(*self),
    {
        let mut out: Vec<u8> = Vec::new();
        match *self {
            LoyaltyValue::Numeric(n) => {
                push_decimal(&mut out, n as u64);
                proof {
                    lemma_decimal_digits_ascii(n as nat);
                }
            },
            LoyaltyValue::X => {
                out.push('X' as u8);
            },
        }
        assert(out@ =~= loyalty_value_text(*self));
        ascii_string(&out)
    }
}

/// Printing, then reading: every loyalty cost, printed, reads back as itself.
pub proof fn law_printed_loyalty_cost_reads_back(cost: LoyaltyCost)
    ensures
        loyalty_cost_of(loyalty_cost_text(cost)) == Some(cost),
{
    let text = loyalty_cost_text(cost);
    match cost {
        LoyaltyCost::Plus(n) => {
            lemma_decimal_round_trip(n as nat);
            let d = decimal_digits(n as nat);
            assert(text.drop_first() =~= d);
            assert(text[1] == d[0]);
            assert(is_digit(d[0]));
            assert(text != signed_x(PLUS)) by {
                assert(text[1] != signed_x(PLUS)[1]);
            }
            assert(text != signed_x(MINUS)) by {
                assert(text[0] != signed_x(MINUS)[0]);
            }
            assert(text != seq![ZERO]) by {
                assert(text[0] != seq![ZERO][0]);
            }
            assert(unsigned_decimal(d, u8::MAX as nat) == Some(n as nat));
        },
        LoyaltyCost::Minus(n) => {
            lemma_decimal_round_trip(n as nat);
            let d = decimal_digits(n as nat);
            assert(text.drop_first() =~= d);
            assert(text[1] == d[0]);
            assert(is_digit(d[0]));
            assert(text != signed_x(PLUS)) by {
                assert(text[0] != signed_x(PLUS)[0]);
            }
            assert(text != signed_x(MINUS)) by {
                assert(text[1] != signed_x(MINUS)[1]);
            }
            assert(text != seq![ZERO]) by {
                assert(text[0] != seq![ZERO][0]);
            }
            assert(unsigned_decimal(d, u8::MAX as nat) == Some(n as nat));
        },
        LoyaltyCost::Zero => {},
        LoyaltyCost::PlusX => {
            assert(text.len() != seq![ZERO].len());
        },
        LoyaltyCost::MinusX => {
            assert(text.len() != seq![ZERO].len());
            assert(text[0] != signed_x(PLUS)[0]);
        },
    }
}

/// Printing, then reading: every starting loyalty, printed, reads back as
/// itself.
pub proof fn law_printed_loyalty_value_reads_back(value: LoyaltyValue)
    ensures
        loyalty_value_of(loyalty_value_text(value)) == Some(value),
{
    match value {
        LoyaltyValue::Numeric(n) => {
            lemma_decimal_round_trip(n as nat);
            let d = decimal_digits(n as nat);
            assert(is_digit(d[0]));
            assert(d != seq!['X' as u8]) by {
                assert(d[0] != seq!['X' as u8][0]);
            }
            assert(unsigned_decimal(d, u32::MAX as nat) == Some(n as nat));
        },
        LoyaltyValue::X => {},
    }
}

/// A text that is ASCII throughout, holds no letter in lower case and
/// neither starts nor ends with whitespace is taken by the two grammars as it
/// stands.
pub proof fn law_plain_text_is_taken_as_it_stands(text: Seq<char>)
    requires
        is_ascii_chars(text),
        forall|i: int| 0 <= i < text.len() ==> !('a' <= #[trigger] text[i] && text[i] <= 'z'),
        text.len() > 0 ==> !is_white_space(text[0]) && !is_white_space(text.last()),
    ensures
        normalized(text) == text,
{
    assert(trimmed(text) == text);
    assert(text.map_values(|c: char| ascii_upper(c)) =~= text);
}

/// The bytes of a text that is ASCII throughout are its characters.
proof fn lemma_ascii_text_bytes(text: Seq<char>, bytes: Seq<u8>)
    requires
        is_ascii_chars(text),
        bytes.len() == text.len(),
        forall|i: int| 0 <= i < text.len() ==> #[trigger] bytes[i] == text[i] as u8,
    ensures
        encode_utf8(text) == bytes,
{
    is_ascii_chars_encode_utf8(text);
    assert(encode_utf8(text) =~= bytes);
}

/// One digit denotes its number.
proof fn lemma_one_digit(n: nat, max: nat)
    requires
        n <= 9,
        n <= max,
    ensures
        unsigned_decimal(seq![(ZERO + n) as u8], max) == Some(n),
        decimal_digits(n) == seq![(ZERO + n) as u8],
{
    let d = seq![(ZERO + n) as u8];
    assert(d.drop_last() =~= Seq::<u8>::empty());
    assert(digits_value(d.drop_last()) == 0);
    assert(d.last() == (ZERO + n) as u8);
    assert(digits_value(d) == n);
    assert(is_digit(d[0]));
    assert(d[0] != PLUS);
    assert(unsigned_digits(d) == d);
    assert(all_digits(d));
}

/// A plain text whose bytes denote a loyalty cost reads as that cost.
proof fn lemma_plain_cost(text: Seq<char>, bytes: Seq<u8>, cost: LoyaltyCost)
    requires
        is_ascii_chars(text),
        forall|i: int| 0 <= i < text.len() ==> !('a' <= #[trigger] text[i] && text[i] <= 'z'),
        text.len() > 0 ==> !is_white_space(text[0]) && !is_white_space(text.last()),
        bytes.len() == text.len(),
        forall|i: int| 0 <= i < text.len() ==> #[trigger] bytes[i] == text[i] as u8,
        loyalty_cost_of(bytes) == Some(cost),
    ensures
        loyalty_cost_outcome(normalized(text)) == Ok::<LoyaltyCost, Seq<char>>(cost),
{
    law_plain_text_is_taken_as_it_stands(text);
    lemma_ascii_text_bytes(text, bytes);
}

/// A plain text whose bytes denote a starting loyalty reads as that loyalty.
proof fn lemma_plain_value(text: Seq<char>, bytes: Seq<u8>, value: LoyaltyValue)
    requires
        is_ascii_chars(text),
        forall|i: int| 0 <= i < text.len() ==> !('a' <= #[trigger] text[i] && text[i] <= 'z'),
        text.len() > 0 ==> !is_white_space(text[0]) && !is_white_space(text.last()),
        bytes.len() == text.len(),
        forall|i: int| 0 <= i < text.len() ==> #[trigger] bytes[i] == text[i] as u8,
        loyalty_value_of(bytes) == Some(value),
    ensures
        loyalty_value_outcome(normalized(text)) == Ok::<LoyaltyValue, Seq<char>>(value),
{
    law_plain_text_is_taken_as_it_stands(text);
    lemma_ascii_text_bytes(text, bytes);
}

proof fn lemma_reads_plus_two()
    ensures
        loyalty_cost_outcome(normalized("+2"@)) == Ok::<LoyaltyCost, Seq<char>>( LoyaltyCost::Plus(2), ),
{
    reveal_strlit("+2");
    lemma_one_digit(2, 255);
    law_printed_loyalty_cost_reads_back(LoyaltyCost::Plus(2));
    lemma_plain_cost("+2"@, loyalty_cost_text(LoyaltyCost::Plus(2)), LoyaltyCost::Plus(2));
}

proof fn lemma_reads_minus_three()
    ensures
        loyalty_cost_outcome(normalized("-3"@)) == Ok::<LoyaltyCost, Seq<char>>( LoyaltyCost::Minus(3), ),
{
    reveal_strlit("-3");
    lemma_one_digit(3, 255);
    law_printed_loyalty_cost_reads_back(LoyaltyCost::Minus(3));
    lemma_plain_cost("-3"@, loyalty_cost_text(LoyaltyCost::Minus(3)), LoyaltyCost::Minus(3));
}

proof fn lemma_reads_zero()
    ensures
        loyalty_cost_outcome(normalized("0"@)) == Ok::<LoyaltyCost, Seq<char>>( LoyaltyCost::Zero, ),
{
    reveal_strlit("0");
    lemma_plain_cost("0"@, seq![ZERO], LoyaltyCost::Zero);
}

proof fn lemma_reads_plus_x()
    ensures
        loyalty_cost_outcome(normalized("+X"@)) == Ok::<LoyaltyCost, Seq<char>>( LoyaltyCost::PlusX, ),
{
    reveal_strlit("+X");
    law_printed_loyalty_cost_reads_back(LoyaltyCost::PlusX);
    lemma_plain_cost("+X"@, signed_x(PLUS), LoyaltyCost::PlusX);
}

proof fn lemma_reads_minus_x()
    ensures
        loyalty_cost_outcome(normalized("-X"@)) == Ok::<LoyaltyCost, Seq<char>>( LoyaltyCost::MinusX, ),
{
    reveal_strlit("-X");
    law_printed_loyalty_cost_reads_back(LoyaltyCost::MinusX);
    lemma_plain_cost("-X"@, signed_x(MINUS), LoyaltyCost::MinusX);
}

proof fn lemma_reads_bare_two()
    ensures
        loyalty_cost_outcome(normalized("2"@)) == Ok::<LoyaltyCost, Seq<char>>( LoyaltyCost::Plus(2), ),
{
    reveal_strlit("2");
    lemma_one_digit(2, 255);
    let two = seq![(ZERO + 2) as u8];
    assert(two != seq![ZERO]) by {
        assert(two[0] != seq![ZERO][0]);
    }
    assert(two != signed_x(PLUS) && two != signed_x(MINUS)) by {
        assert(two.len() != signed_x(PLUS).len());
        assert(two.len() != signed_x(MINUS).len());
    }
    assert(loyalty_cost_of(two) == Some(LoyaltyCost::Plus(2)));
    lemma_plain_cost("2"@, two, LoyaltyCost::Plus(2));
}

proof fn lemma_reads_minus_one()
    ensures
        loyalty_cost_outcome(normalized("-1"@)) == Ok::<LoyaltyCost, Seq<char>>( LoyaltyCost::Minus(1), ),
{
    reveal_strlit("-1");
    lemma_one_digit(1, 255);
    law_printed_loyalty_cost_reads_back(LoyaltyCost::Minus(1));
    lemma_plain_cost("-1"@, loyalty_cost_text(LoyaltyCost::Minus(1)), LoyaltyCost::Minus(1));
}

proof fn lemma_reads_minus_twelve()
    ensures
        loyalty_cost_outcome(normalized("-12"@)) == Ok::<LoyaltyCost, Seq<char>>( LoyaltyCost::Minus(12), ),
{
    reveal_strlit("-12");
    lemma_one_digit(1, 255);
    assert(decimal_digits(12) =~= seq![(ZERO + 1) as u8, (ZERO + 2) as u8]);
    law_printed_loyalty_cost_reads_back(LoyaltyCost::Minus(12));
    lemma_plain_cost(
        "-12"@,
        loyalty_cost_text(LoyaltyCost::Minus(12)),
        LoyaltyCost::Minus(12),
    );
}

proof fn lemma_reads_three()
    ensures
        loyalty_value_outcome(normalized("3"@)) == Ok::<LoyaltyValue, Seq<char>>( LoyaltyValue::Numeric(3), ),
{
    reveal_strlit("3");
    lemma_one_digit(3, u32::MAX as nat);
    law_printed_loyalty_value_reads_back(LoyaltyValue::Numeric(3));
    lemma_plain_value(
        "3"@,
        loyalty_value_text(LoyaltyValue::Numeric(3)),
        LoyaltyValue::Numeric(3),
    );
}

proof fn lemma_reads_x()
    ensures
        loyalty_value_outcome(normalized("X"@)) == Ok::<LoyaltyValue, Seq<char>>( LoyaltyValue::X, ),
{
    reveal_strlit("X");
    lemma_plain_value("X"@, seq!['X' as u8], LoyaltyValue::X);
}

/// The grammar of loyalty on the texts that cards carry: a signed number
/// adds or takes that much, a bare number adds, zero is no cost, and the
/// variable costs are spelled with X.
pub proof fn law_loyalty_grammar()
    ensures
        loyalty_cost_outcome(normalized("+2"@)) == Ok::<LoyaltyCost, Seq<char>>(
            LoyaltyCost::Plus(2),
        ),
        loyalty_cost_outcome(normalized("-3"@)) == Ok::<LoyaltyCost, Seq<char>>(
            LoyaltyCost::Minus(3),
        ),
        loyalty_cost_outcome(normalized("0"@)) == Ok::<LoyaltyCost, Seq<char>>(LoyaltyCost::Zero),
        loyalty_cost_outcome(normalized("+X"@)) == Ok::<LoyaltyCost, Seq<char>>(
            LoyaltyCost::PlusX,
        ),
        loyalty_cost_outcome(normalized("-X"@)) == Ok::<LoyaltyCost, Seq<char>>(
            LoyaltyCost::MinusX,
        ),
        loyalty_cost_outcome(normalized("2"@)) == Ok::<LoyaltyCost, Seq<char>>(
            LoyaltyCost::Plus(2),
        ),
        loyalty_cost_outcome(normalized("-1"@)) == Ok::<LoyaltyCost, Seq<char>>(
            LoyaltyCost::Minus(1),
        ),
        loyalty_cost_outcome(normalized("-12"@)) == Ok::<LoyaltyCost, Seq<char>>(
            LoyaltyCost::Minus(12),
        ),
        loyalty_value_outcome(normalized("3"@)) == Ok::<LoyaltyValue, Seq<char>>(
            LoyaltyValue::Numeric(3),
        ),
        loyalty_value_outcome(normalized("X"@)) == Ok::<LoyaltyValue, Seq<char>>(LoyaltyValue::X),
{
    lemma_reads_plus_two();
    lemma_reads_minus_three();
    lemma_reads_zero();
    lemma_reads_plus_x();
    lemma_reads_minus_x();
    lemma_reads_bare_two();
    lemma_reads_minus_one();
    lemma_reads_minus_twelve();
    lemma_reads_three();
    lemma_reads_x();
}

} // verus!
