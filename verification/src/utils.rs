//! File names for cards.

use crate::text::{char_is_white_space, is_white_space, lower_case, push_char, to_lower_case};
use vstd::prelude::*;
use vstd::string::*;

verus! {

/// An ASCII letter or digit: what a file name keeps.
pub open spec fn is_name_char(c: char) -> bool {
    ('0' <= c && c <= '9') || ('a' <= c && c <= 'z') || ('A' <= c && c <= 'Z')
}

/// What parts two words of a name: whitespace, a slash, a comma or a hyphen.
pub open spec fn is_name_separator(c: char) -> bool {
    is_white_space(c) || c == '/' || c == ',' || c == '-'
}

/// Whether the text holds a character that a file name keeps.
pub open spec fn has_name_char(chars: Seq<char>) -> bool {
    exists|i: int| 0 <= i < chars.len() && is_name_char(#[trigger] chars[i])
}

/// Whether a word has ended and no other has begun: a separator stands
/// behind the last kept character of the text.
pub open spec fn gap_is_open(chars: Seq<char>) -> bool
    decreases chars.len(),
{
    if chars.len() == 0 {
        false
    } else if is_name_char(chars.last()) {
        false
    } else if is_name_separator(chars.last()) {
        has_name_char(chars.drop_last())
    } else {
        gap_is_open(chars.drop_last())
    }
}

/// The file name made of a text: its letters and digits, with one
/// underscore wherever separators part two words. Every other character is
/// left out without parting anything; no underscore leads or trails.
pub open spec fn sanitized(chars: Seq<char>) -> Seq<char>
    decreases chars.len(),
{
    if chars.len() == 0 {
        Seq::empty()
    } else if !is_name_char(chars.last()) {
        sanitized(chars.drop_last())
    } else if gap_is_open(chars.drop_last()) {
        sanitized(chars.drop_last()).push('_').push(chars.last())
    } else {
        sanitized(chars.drop_last()).push(chars.last())
    }
}

pub fn char_is_name_char(c: char) -> (r: bool)
    ensures
        r == is_name_char(c),
{
    ('0' <= c && c <= '9') || ('a' <= c && c <= 'z') || ('A' <= c && c <= 'Z')
}

/// The file name for a card: the name in lower case, its letters and digits
/// kept, its words joined by single underscores.
#[must_use]
pub fn sanitize_card_name(name: &str) -> (r: String)
    ensures
        r@ == sanitized(lower_case(name@)),
{
    let lower = to_lower_case(name);
    sanitize_lowercased(lower.as_str())
}

/// The file name made of a name that is in lower case already.
pub fn sanitize_lowercased(lower: &str) -> (r: String)
    ensures
        r@ == sanitized(lower@),
{
    broadcast use group_string_axioms;

    let mut out = String::new();
    let mut any = false;
    let mut gap = false;
    assert(lower@.take(0) =~= Seq::<char>::empty());
    for c in iter: lower.chars()
        invariant
            iter.seq() == lower@,
            out@ == sanitized(lower@.take(iter.index() as int)),
            any == has_name_char(lower@.take(iter.index() as int)),
            gap == gap_is_open(lower@.take(iter.index() as int)),
    {
        let ghost before = lower@.take(iter.index() as int);
        let ghost next = lower@.take(iter.index() + 1);
        proof {
            assert(next.drop_last() =~= before);
            assert(next.last() == c);
            if has_name_char(before) {
                let i = choose|i: int| 0 <= i < before.len() && is_name_char(#[trigger] before[i]);
                assert(is_name_char(next[i]));
            }
            if has_name_char(next) && !is_name_char(c) {
                let i = choose|i: int| 0 <= i < next.len() && is_name_char(#[trigger] next[i]);
                assert(is_name_char(before[i]));
            }
        }
        if char_is_name_char(c) {
            if gap {
                push_char(&mut out, '_');
            }
            push_char(&mut out, c);
            any = true;
            gap = false;
            assert(is_name_char(next[next.len() - 1]));
        } else if char_is_white_space(c) || c == '/' || c == ',' || c == '-' {
            gap = any;
        }
    }
    assert(lower@.take(lower@.len() as int) =~= lower@);
    out
}

/// A file name holds letters, digits and underscores only; it neither starts
/// nor ends with an underscore, and no two underscores stand together.
pub proof fn law_sanitized_shape(chars: Seq<char>)
    ensures
        forall|i: int|
            0 <= i < sanitized(chars).len() ==> is_name_char(#[trigger] sanitized(chars)[i])
                || sanitized(chars)[i] == '_',
        sanitized(chars).len() > 0 ==> is_name_char(sanitized(chars)[0]) && is_name_char(
            sanitized(chars).last(),
        ),
        forall|i: int|
            0 <= i < sanitized(chars).len() - 1 ==> !(#[trigger] sanitized(chars)[i] == '_'
                && sanitized(chars)[i + 1] == '_'),
        gap_is_open(chars) ==> sanitized(chars).len() > 0,
        has_name_char(chars) <==> sanitized(chars).len() > 0,
    decreases chars.len(),
{
    if chars.len() > 0 {
        let before = chars.drop_last();
        let c = chars.last();
        law_sanitized_shape(before);
        if has_name_char(before) {
            let i = choose|i: int| 0 <= i < before.len() && is_name_char(#[trigger] before[i]);
            assert(is_name_char(chars[i]));
        }
        if is_name_char(c) {
            assert(is_name_char(chars[chars.len() - 1]));
        } else if has_name_char(chars) {
            let i = choose|i: int| 0 <= i < chars.len() && is_name_char(#[trigger] chars[i]);
            assert(is_name_char(before[i]));
        }
    }
}

} // verus!
