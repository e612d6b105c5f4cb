//! Text as UTF-8 bytes: the bridge between `str`, whose view is a sequence of
//! characters, and the byte offsets that the grammars speak of.

use vstd::prelude::*;
use vstd::string::*;
use vstd::utf8::*;

verus! {

/// Bytes below 0x80 only.
pub open spec fn is_ascii_bytes(bytes: Seq<u8>) -> bool {
    forall|i: int| 0 <= i < bytes.len() ==> #[trigger] bytes[i] < 0x80
}

/// ASCII bytes are well-formed UTF-8.
pub proof fn lemma_ascii_is_utf8(bytes: Seq<u8>)
    requires
        is_ascii_bytes(bytes),
    ensures
        valid_utf8(bytes),
{
    assert(bytes.subrange(0, 0) =~= Seq::<u8>::empty());
    assert(partial_valid_utf8(bytes, 0));
    assert forall|i: int| 0 <= i < bytes.len() implies #[trigger] is_leading_byte_width_1(
        bytes[i],
    ) by {
        assert(bytes[i] < 0x80);
    }
    partial_valid_utf8_extend_ascii_block(bytes, 0, bytes.len() as int);
    assert(bytes.subrange(0, bytes.len() as int) =~= bytes);
}

/// Joining two runs of ASCII bytes gives ASCII bytes.
pub proof fn lemma_ascii_concat(a: Seq<u8>, b: Seq<u8>)
    requires
        is_ascii_bytes(a),
        is_ascii_bytes(b),
    ensures
        is_ascii_bytes(a + b),
{
    assert forall|i: int| 0 <= i < (a + b).len() implies #[trigger] (a + b)[i] < 0x80 by {
        if i < a.len() {
            assert((a + b)[i] == a[i]);
        } else {
            assert((a + b)[i] == b[i - a.len()]);
        }
    }
}

/// Encoding distributes over concatenation.
pub proof fn lemma_encode_concat(a: Seq<char>, b: Seq<char>)
    ensures
        encode_utf8(a + b) == encode_utf8(a) + encode_utf8(b),
    decreases a.len(),
{
    if a.len() == 0 {
        assert(a + b =~= b);
        assert(encode_utf8(a) =~= Seq::<u8>::empty());
        assert(encode_utf8(a) + encode_utf8(b) =~= encode_utf8(b));
    } else {
        lemma_encode_concat(a.drop_first(), b);
        assert((a + b).drop_first() =~= a.drop_first() + b);
        assert((a + b)[0] == a[0]);
        assert(encode_utf8(a + b) =~= encode_utf8(a) + encode_utf8(b));
    }
}

/// Two texts with the same encoding are the same text.
pub proof fn lemma_encode_injective(a: Seq<char>, b: Seq<char>)
    requires
        encode_utf8(a) == encode_utf8(b),
    ensures
        a == b,
{
    encode_utf8_decode_utf8(a);
    encode_utf8_decode_utf8(b);
}

/// In well-formed UTF-8 a character starts at every ASCII byte, and another
/// starts, or the text ends, right after it.
pub proof fn lemma_ascii_boundary(bytes: Seq<u8>, k: int)
    requires
        valid_utf8(bytes),
        0 <= k < bytes.len(),
        bytes[k] < 0x80,
    ensures
        is_char_boundary(bytes, k),
        is_char_boundary(bytes, k + 1),
{
    is_char_boundary_iff_not_is_continuation_byte(bytes, k);
    if k + 1 == bytes.len() {
        is_char_boundary_start_end_of_seq(bytes);
    } else {
        valid_utf8_split(bytes, k);
        let tail = bytes.subrange(k, bytes.len() as int);
        assert(tail[0] == bytes[k]);
        assert(valid_first_scalar(tail));
        assert(length_of_first_scalar(tail) == 1);
        let rest = pop_first_scalar(tail);
        assert(valid_utf8(rest));
        assert(rest =~= bytes.subrange(k + 1, bytes.len() as int));
        assert(rest.len() > 0);
        assert(valid_first_scalar(rest));
        assert(rest[0] == bytes[k + 1]);
        assert(!is_continuation_byte(bytes[k + 1]));
        is_char_boundary_iff_not_is_continuation_byte(bytes, k + 1);
    }
}

/// A stretch of well-formed UTF-8 between two character boundaries is
/// well-formed UTF-8.
pub proof fn lemma_utf8_slice(bytes: Seq<u8>, a: int, b: int)
    requires
        valid_utf8(bytes),
        0 <= a <= b <= bytes.len(),
        is_char_boundary(bytes, a),
        is_char_boundary(bytes, b),
    ensures
        valid_utf8(bytes.subrange(a, b)),
{
    valid_utf8_split(bytes, a);
    let tail = bytes.subrange(a, bytes.len() as int);
    if b == bytes.len() {
        assert(tail =~= bytes.subrange(a, b));
    } else {
        is_char_boundary_iff_not_is_continuation_byte(bytes, b);
        assert(tail[b - a] == bytes[b]);
        if b > a {
            is_char_boundary_iff_not_is_continuation_byte(tail, b - a);
        }
        assert(is_char_boundary(tail, b - a));
        valid_utf8_split(tail, b - a);
        assert(tail.subrange(0, b - a) =~= bytes.subrange(a, b));
    }
}

/// `std::str::from_utf8`: the text that `bytes` encode. There is one exactly
/// when the bytes are well-formed UTF-8, and its encoding is those bytes.
#[verifier::external_body]
pub(crate) fn str_from_utf8<'a>(bytes: &'a [u8]) -> (r: Option<&'a str>)
    ensures
        r is Some <==> valid_utf8(bytes@),
        r matches Some(s) ==> s.spec_bytes() == bytes@,
{
    std::str::from_utf8(bytes).ok()
}

/// `String::push`: appends one character.
#[verifier::external_body]
pub(crate) fn push_char(s: &mut String, c: char)
    ensures
        final(s)@ == old(s)@.push(c),
{
    s.push(c)
}

/// Whether two runs of bytes are the same.
pub fn bytes_equal(a: &[u8], b: &[u8]) -> (r: bool)
    ensures
        r == (a@ == b@),
{
    if a.len() != b.len() {
        return false;
    }
    let mut i: usize = 0;
    while i < a.len()
        invariant
            i <= a.len(),
            a.len() == b.len(),
            forall|j: int| 0 <= j < i ==> a@[j] == b@[j],
        decreases a.len() - i,
    {
        if a[i] != b[i] {
            return false;
        }
        i = i + 1;
    }
    assert(a@ =~= b@);
    true
}

/// Whether two texts are the same.
pub fn str_equal(a: &str, b: &str) -> (r: bool)
    ensures
        r == (a@ == b@),
{
    proof {
        if a.spec_bytes() == b.spec_bytes() {
            lemma_encode_injective(a@, b@);
        }
    }
    bytes_equal(a.as_bytes(), b.as_bytes())
}

/// An owned copy of a text that may be absent.
pub fn clone_text(text: &Option<String>) -> (r: Option<String>)
    ensures
        r.deep_view() == text.deep_view(),
{
    match text {
        Some(t) => Some(t.clone()),
        None => None,
    }
}

/// An owned copy of a row of texts.
pub fn clone_texts(texts: &Vec<String>) -> (r: Vec<String>)
    ensures
        r.deep_view() == texts.deep_view(),
{
    let mut out: Vec<String> = Vec::new();
    let mut i: usize = 0;
    while i < texts.len()
        invariant
            i <= texts.len(),
            out.len() == i,
            forall|j: int| 0 <= j < i ==> out@[j]@ == texts@[j]@,
        decreases texts.len() - i,
    {
        out.push(texts[i].clone());
        i = i + 1;
    }
    assert(out.deep_view() =~= texts.deep_view());
    out
}

/// A copy of a row of plain values.
pub fn copy_items<T: Copy>(items: &Vec<T>) -> (r: Vec<T>)
    ensures
        r@ == items@,
{
    let mut out: Vec<T> = Vec::new();
    let mut i: usize = 0;
    while i < items.len()
        invariant
            i <= items.len(),
            out@ == items@.take(i as int),
        decreases items.len() - i,
    {
        out.push(items[i]);
        assert(out@ =~= items@.take(i + 1));
        i = i + 1;
    }
    assert(items@.take(i as int) =~= items@);
    out
}

/// A character with the Unicode property `White_Space`.
pub open spec fn is_white_space(c: char) -> bool {
    ('\u{9}' <= c && c <= '\u{d}') || c == ' ' || c == '\u{85}' || c == '\u{a0}' || c
        == '\u{1680}' || ('\u{2000}' <= c && c <= '\u{200a}') || c == '\u{2028}' || c
        == '\u{2029}' || c == '\u{202f}' || c == '\u{205f}' || c == '\u{3000}'
}

/// Whether a character has the Unicode property `White_Space`.
pub fn char_is_white_space(c: char) -> (r: bool)
    ensures
        r == is_white_space(c),
{
    ('\u{9}' <= c && c <= '\u{d}') || c == ' ' || c == '\u{85}' || c == '\u{a0}' || c
        == '\u{1680}' || ('\u{2000}' <= c && c <= '\u{200a}') || c == '\u{2028}' || c
        == '\u{2029}' || c == '\u{202f}' || c == '\u{205f}' || c == '\u{3000}'
}

/// What is left of a text once the whitespace at both of its ends is taken
/// off.
pub open spec fn trimmed(text: Seq<char>) -> Seq<char>
    decreases text.len(),
{
    if text.len() == 0 {
        text
    } else if is_white_space(text[0]) {
        trimmed(text.drop_first())
    } else if is_white_space(text.last()) {
        trimmed(text.drop_last())
    } else {
        text
    }
}

/// Trimming leaves the stretch between the first and the last character
/// that is not whitespace.
pub proof fn lemma_trimmed_is_the_middle(text: Seq<char>, a: int, b: int)
    requires
        0 <= a <= b <= text.len(),
        forall|i: int| 0 <= i < a ==> is_white_space(#[trigger] text[i]),
        forall|i: int| b <= i < text.len() ==> is_white_space(#[trigger] text[i]),
        a < b ==> !is_white_space(text[a]) && !is_white_space(text[b - 1]),
    ensures
        trimmed(text) == text.subrange(a, b),
    decreases text.len(),
{
    let n = text.len() as int;
    if n == 0 {
        assert(text.subrange(a, b) =~= text);
    } else if is_white_space(text[0]) {
        let rest = text.drop_first();
        assert forall|i: int| 0 <= i < rest.len() implies rest[i] == text[i + 1] by {}
        if a == b {
            assert forall|i: int| 0 <= i < rest.len() implies is_white_space(
                #[trigger] rest[i],
            ) by {
                assert(rest[i] == text[i + 1]);
            }
            lemma_trimmed_is_the_middle(rest, 0, 0);
            assert(rest.subrange(0, 0) =~= text.subrange(a, b));
        } else {
            assert forall|i: int| 0 <= i < a - 1 implies is_white_space(#[trigger] rest[i]) by {
                assert(rest[i] == text[i + 1]);
            }
            assert forall|i: int| b - 1 <= i < rest.len() implies is_white_space(
                #[trigger] rest[i],
            ) by {
                assert(rest[i] == text[i + 1]);
            }
            assert(rest[a - 1] == text[a]);
            assert(rest[b - 2] == text[b - 1]);
            lemma_trimmed_is_the_middle(rest, a - 1, b - 1);
            assert(rest.subrange(a - 1, b - 1) =~= text.subrange(a, b));
        }
    } else if is_white_space(text.last()) {
        let rest = text.drop_last();
        assert(a == 0);
        assert(a < b);
        assert(b < n);
        assert forall|i: int| b <= i < rest.len() implies is_white_space(#[trigger] rest[i]) by {
            assert(rest[i] == text[i]);
        }
        assert(rest[a] == text[a]);
        assert(rest[b - 1] == text[b - 1]);
        lemma_trimmed_is_the_middle(rest, a, b);
        assert(rest.subrange(a, b) =~= text.subrange(a, b));
    } else {
        assert(a == 0);
        assert(b == n);
        assert(text.subrange(a, b) =~= text);
    }
}

/// The text without the whitespace at its two ends.
pub fn trim(text: &str) -> (r: String)
    ensures
        r@ == trimmed(text@),
{
    broadcast use group_string_axioms;

    let mut chars: Vec<char> = Vec::new();
    for c in iter: text.chars()
        invariant
            iter.seq() == text@,
            chars@ == text@.take(iter.index() as int),
    {
        chars.push(c);
        assert(chars@ =~= text@.take(iter.index() + 1));
    }
    assert(text@.take(text@.len() as int) =~= text@);
    let n = chars.len();
    let mut start: usize = 0;
    while start < n && char_is_white_space(chars[start])
        invariant
            start <= n,
            n == chars.len(),
            forall|i: int| 0 <= i < start ==> is_white_space(#[trigger] chars@[i]),
        decreases n - start,
    {
        start = start + 1;
    }
    let mut end: usize = n;
    while end > start && char_is_white_space(chars[end - 1])
        invariant
            start <= end <= n,
            n == chars.len(),
            forall|i: int| end <= i < n ==> is_white_space(#[trigger] chars@[i]),
        decreases end,
    {
        end = end - 1;
    }
    proof {
        lemma_trimmed_is_the_middle(chars@, start as int, end as int);
    }
    let mut out = String::new();
    let mut i: usize = start;
    assert(chars@.subrange(start as int, start as int) =~= Seq::<char>::empty());
    while i < end
        invariant
            start <= i <= end <= chars.len(),
            out@ == chars@.subrange(start as int, i as int),
        decreases end - i,
    {
        push_char(&mut out, chars[i]);
        assert(out@ =~= chars@.subrange(start as int, i + 1));
        i = i + 1;
    }
    out
}

/// A text in upper case by the Unicode case mappings: the result of
/// `str::to_uppercase`.
pub uninterp spec fn uppercased(text: Seq<char>) -> Seq<char>;

/// `str::to_uppercase`: the text in upper case. The contract names the
/// result and says nothing more of it.
#[verifier::external_body]
pub(crate) fn to_uppercase(s: &str) -> (r: String)
    ensures
        r@ == uppercased(s@),
{
    s.to_uppercase()
}

/// A text in lower case by the Unicode case mappings: the result of
/// `str::to_lowercase`.
pub uninterp spec fn lowercased(text: Seq<char>) -> Seq<char>;

/// `str::to_lowercase`: the text in lower case. The contract names the
/// result and says nothing more of it.
#[verifier::external_body]
pub(crate) fn to_lowercase(s: &str) -> (r: String)
    ensures
        r@ == lowercased(s@),
{
    s.to_lowercase()
}

/// An ASCII letter in upper case; any other character as it stands.
pub open spec fn ascii_upper(c: char) -> char {
    if 'a' <= c && c <= 'z' {
        ((c as u8) - 32) as char
    } else {
        c
    }
}

/// An ASCII letter in lower case; any other character as it stands.
pub open spec fn ascii_lower(c: char) -> char {
    if 'A' <= c && c <= 'Z' {
        ((c as u8) + 32) as char
    } else {
        c
    }
}

/// A text in upper case. In a text that is ASCII throughout the letters a to
/// z become A to Z and nothing else changes; any other text is put in upper
/// case by the Unicode case mappings.
pub open spec fn upper_case(text: Seq<char>) -> Seq<char> {
    if is_ascii_chars(text) {
        text.map_values(|c: char| ascii_upper(c))
    } else {
        uppercased(text)
    }
}

/// A text in lower case. In a text that is ASCII throughout the letters A to
/// Z become a to z and nothing else changes; any other text is put in lower
/// case by the Unicode case mappings.
pub open spec fn lower_case(text: Seq<char>) -> Seq<char> {
    if is_ascii_chars(text) {
        text.map_values(|c: char| ascii_lower(c))
    } else {
        lowercased(text)
    }
}

pub fn char_ascii_upper(c: char) -> (r: char)
    ensures
        r == ascii_upper(c),
{
    if 'a' <= c && c <= 'z' {
        ((c as u8) - 32) as char
    } else {
        c
    }
}

pub fn char_ascii_lower(c: char) -> (r: char)
    ensures
        r == ascii_lower(c),
{
    if 'A' <= c && c <= 'Z' {
        ((c as u8) + 32) as char
    } else {
        c
    }
}

/// The text in upper case.
pub fn to_upper_case(text: &str) -> (r: String)
    ensures
        r@ == upper_case(text@),
{
    broadcast use group_string_axioms;

    if !text.is_ascii() {
        return to_uppercase(text);
    }
    let ghost upper = |c: char| ascii_upper(c);
    let mut out = String::new();
    assert(text@.take(0).map_values(upper) =~= Seq::<char>::empty());
    for c in iter: text.chars()
        invariant
            iter.seq() == text@,
            upper == |c: char| ascii_upper(c),
            out@ == text@.take(iter.index() as int).map_values(upper),
    {
        push_char(&mut out, char_ascii_upper(c));
        assert(out@ =~= text@.take(iter.index() + 1).map_values(upper));
    }
    assert(text@.take(text@.len() as int) =~= text@);
    out
}

/// The text in lower case.
pub fn to_lower_case(text: &str) -> (r: String)
    ensures
        r@ == lower_case(text@),
{
    broadcast use group_string_axioms;

    if !text.is_ascii() {
        return to_lowercase(text);
    }
    let ghost lower = |c: char| ascii_lower(c);
    let mut out = String::new();
    assert(text@.take(0).map_values(lower) =~= Seq::<char>::empty());
    for c in iter: text.chars()
        invariant
            iter.seq() == text@,
            lower == |c: char| ascii_lower(c),
            out@ == text@.take(iter.index() as int).map_values(lower),
    {
        push_char(&mut out, char_ascii_lower(c));
        assert(out@ =~= text@.take(iter.index() + 1).map_values(lower));
    }
    assert(text@.take(text@.len() as int) =~= text@);
    out
}

/// The text that well-formed bytes encode, as an owned string.
pub(crate) fn string_from_utf8(bytes: &[u8]) -> (r: String)
    requires
        valid_utf8(bytes@),
    ensures
        encode_utf8(r@) == bytes@,
        r@ == decode_utf8(bytes@),
{
    broadcast use encode_utf8_decode_utf8;

    match str_from_utf8(bytes) {
        Some(s) => s.to_owned(),
        None => String::new(),
    }
}

} // verus!
