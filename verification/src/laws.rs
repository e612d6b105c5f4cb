//! What holds of reading and printing together.

use crate::ascii::{is_ascii_space, CLOSE_BRACE, OPEN_BRACE, SLASH};
use crate::cost::{
    after, character_at, cost_symbols, cost_text, first_index_of, lemma_first_index_of,
    scan_cost,
};
use crate::error::ParseErrorView;
use crate::rules_text::{
    literal_run, rules_segments, rules_text_bytes, scan_rules, segment_text, SegmentView,
};
use crate::symbol::{
    bracketed, is_color_letter, letter, resolve_action, resolve_casting, slashed,
    CastingManaSymbol, CostSymbol, ManaSymbol,
};
use crate::text::{lemma_ascii_is_utf8, lemma_encode_concat};
use vstd::prelude::*;
use vstd::utf8::*;

verus! {

/// A fault as it is reported once `by` more bytes stand in front of the text.
pub open spec fn moved(e: ParseErrorView, by: nat) -> ParseErrorView {
    match e {
        ParseErrorView::UnclosedBrace { position } => ParseErrorView::UnclosedBrace {
            position: position + by,
        },
        ParseErrorView::UnexpectedCharacter {
            character,
            position,
        } => ParseErrorView::UnexpectedCharacter { character, position: position + by },
        other => other,
    }
}

/// An outcome as it reads once `by` more bytes stand in front of the text.
pub open spec fn moved_outcome<T>(r: Result<T, ParseErrorView>, by: nat) -> Result<
    T,
    ParseErrorView,
> {
    match r {
        Ok(value) => Ok(value),
        Err(e) => Err(moved(e, by)),
    }
}

/// Bytes in front of a text move what is found in it, and nothing else.
proof fn lemma_first_index_of_moved(front: Seq<u8>, bytes: Seq<u8>, target: u8, from: int)
    requires
        0 <= from,
    ensures
        first_index_of(front + bytes, target, front.len() + from) == match first_index_of(
            bytes,
            target,
            from,
        ) {
            Some(j) => Some(front.len() + j),
            None => None,
        },
    decreases bytes.len() - from,
{
    let whole = front + bytes;
    if from < bytes.len() {
        assert(whole[front.len() + from] == bytes[from]);
        if bytes[from] != target {
            lemma_first_index_of_moved(front, bytes, target, from + 1);
        }
    }
}

/// Bytes behind a text do not change what is found in it.
proof fn lemma_first_index_of_found(bytes: Seq<u8>, back: Seq<u8>, target: u8, from: int)
    requires
        0 <= from,
        first_index_of(bytes, target, from) is Some,
    ensures
        first_index_of(bytes + back, target, from) == first_index_of(bytes, target, from),
    decreases bytes.len() - from,
{
    let whole = bytes + back;
    if from < bytes.len() {
        assert(whole[from] == bytes[from]);
        if bytes[from] != target {
            lemma_first_index_of_found(bytes, back, target, from + 1);
        }
    }
}

/// Bytes in front of a cost change nothing of what is read from it but the
/// offsets in a fault.
proof fn lemma_scan_cost_moved<S: CostSymbol>(front: Seq<u8>, bytes: Seq<u8>, at: int)
    requires
        0 <= at,
    ensures
        scan_cost::<S>(front + bytes, front.len() + at) == moved_outcome(
            scan_cost::<S>(bytes, at),
            front.len(),
        ),
    decreases bytes.len() - at,
{
    let whole = front + bytes;
    let n = front.len() as int;
    if at < bytes.len() {
        assert(whole[n + at] == bytes[at]);
        if bytes[at] == OPEN_BRACE {
            lemma_first_index_of_moved(front, bytes, CLOSE_BRACE, at + 1);
            lemma_first_index_of(bytes, CLOSE_BRACE, at + 1);
            match first_index_of(bytes, CLOSE_BRACE, at + 1) {
                None => {},
                Some(close) => {
                    assert(whole.subrange(n + at + 1, n + close) =~= bytes.subrange(at + 1, close));
                    lemma_scan_cost_moved::<S>(front, bytes, close + 1);
                },
            }
        } else if is_ascii_space(bytes[at]) {
            lemma_scan_cost_moved::<S>(front, bytes, at + 1);
        }
    }
}

/// Reading two texts one after the other: where the first reads well, the
/// two joined read as the symbols of the first, then whatever the second
/// gives.
proof fn lemma_scan_cost_joined<S: CostSymbol>(a: Seq<u8>, b: Seq<u8>, at: int)
    requires
        0 <= at <= a.len(),
        scan_cost::<S>(a, at) is Ok,
    ensures
        scan_cost::<S>(a + b, at) == after(
            scan_cost::<S>(a, at)->Ok_0,
            moved_outcome(scan_cost::<S>(b, 0), a.len()),
        ),
    decreases a.len() - at,
{
    let whole = a + b;
    if at == a.len() {
        lemma_scan_cost_moved::<S>(a, b, 0);
        match scan_cost::<S>(b, 0) {
            Ok(more) => assert(Seq::<S>::empty() + more =~= more),
            Err(_) => {},
        }
    } else {
        assert(whole[at] == a[at]);
        if a[at] == OPEN_BRACE {
            lemma_first_index_of(a, CLOSE_BRACE, at + 1);
            let close = first_index_of(a, CLOSE_BRACE, at + 1)->Some_0;
            lemma_first_index_of_found(a, b, CLOSE_BRACE, at + 1);
            assert(whole.subrange(at + 1, close) =~= a.subrange(at + 1, close));
            let symbol = S::resolve(a.subrange(at + 1, close))->Some_0;
            lemma_scan_cost_joined::<S>(a, b, close + 1);
            let rest = scan_cost::<S>(a, close + 1)->Ok_0;
            match moved_outcome(scan_cost::<S>(b, 0), a.len()) {
                Ok(more) => assert(seq![symbol] + (rest + more) =~= (seq![symbol] + rest) + more),
                Err(_) => {},
            }
        } else {
            lemma_scan_cost_joined::<S>(a, b, at + 1);
        }
    }
}

/// Costs join: where a text reads well as a cost, that text with any other
/// behind it reads as its symbols followed by what the other gives, a fault
/// in the other being reported that much further on.
pub proof fn law_costs_join<S: CostSymbol>(a: Seq<u8>, b: Seq<u8>)
    requires
        cost_symbols::<S>(a) is Ok,
    ensures
        cost_symbols::<S>(a + b) == after(
            cost_symbols::<S>(a)->Ok_0,
            moved_outcome(cost_symbols::<S>(b), a.len()),
        ),
{
    lemma_scan_cost_joined::<S>(a, b, 0);
}

/// Nothing but whitespace.
pub open spec fn all_space(bytes: Seq<u8>) -> bool {
    forall|i: int| 0 <= i < bytes.len() ==> is_ascii_space(#[trigger] bytes[i])
}

/// Whitespace alone is the empty cost.
proof fn lemma_space_is_empty_cost<S: CostSymbol>(space: Seq<u8>, at: int)
    requires
        all_space(space),
        0 <= at,
    ensures
        scan_cost::<S>(space, at) == Ok::<Seq<S>, ParseErrorView>(Seq::empty()),
    decreases space.len() - at,
{
    if at < space.len() {
        assert(is_ascii_space(space[at]));
        lemma_space_is_empty_cost::<S>(space, at + 1);
    }
}

/// The symbols that were read, where reading went well.
pub open spec fn symbols_read<S>(r: Result<Seq<S>, ParseErrorView>) -> Option<Seq<S>> {
    match r {
        Ok(symbols) => Some(symbols),
        Err(_) => None,
    }
}

/// Whitespace between tokens is insignificant: put behind a text that reads
/// well as a cost, and in front of any other, it changes neither whether the
/// whole reads well nor the symbols read.
pub proof fn law_whitespace_is_insignificant<S: CostSymbol>(
    a: Seq<u8>,
    space: Seq<u8>,
    b: Seq<u8>,
)
    requires
        cost_symbols::<S>(a) is Ok,
        all_space(space),
    ensures
        symbols_read(cost_symbols::<S>(a + space + b)) == symbols_read(cost_symbols::<S>(a + b)),
{
    lemma_space_is_empty_cost::<S>(space, 0);
    law_costs_join::<S>(a, b);
    law_costs_join::<S>(space, b);
    law_costs_join::<S>(a, space + b);
    assert(a + space + b =~= a + (space + b));
    match cost_symbols::<S>(b) {
        Ok(more) => assert(Seq::<S>::empty() + more =~= more),
        Err(_) => {},
    }
}

/// The character found at a byte offset is the character of the text that
/// starts there: at the offset where the encoding of one text ends and that
/// of another begins stands the first character of the other.
pub proof fn law_character_at_is_of_the_text(before: Seq<char>, rest: Seq<char>)
    requires
        rest.len() > 0,
    ensures
        character_at(encode_utf8(before + rest), encode_utf8(before).len() as int) == Some(
            rest[0],
        ),
{
    let bytes = encode_utf8(before + rest);
    let n = encode_utf8(before).len() as int;
    lemma_encode_concat(before, rest);
    assert(bytes.subrange(n, bytes.len() as int) =~= encode_utf8(rest));
    encode_utf8_first_scalar(rest);
    char_u32_cast(rest[0], decode_first_scalar(encode_utf8(rest)));
}

/// The text from byte offset `at` on with the whitespace before, between and
/// after its groups left out. Whitespace inside a group stays, and from the
/// first byte that is out of place, or the first group that is not closed,
/// the text is kept as it stands.
pub open spec fn squeezed(bytes: Seq<u8>, at: int) -> Seq<u8>
    decreases bytes.len() - at,
    via squeezed_decreases
{
    if at < 0 || at >= bytes.len() {
        Seq::empty()
    } else if bytes[at] == OPEN_BRACE {
        match first_index_of(bytes, CLOSE_BRACE, at + 1) {
            None => bytes.subrange(at, bytes.len() as int),
            Some(close) => bytes.subrange(at, close + 1) + squeezed(bytes, close + 1),
        }
    } else if is_ascii_space(bytes[at]) {
        squeezed(bytes, at + 1)
    } else {
        bytes.subrange(at, bytes.len() as int)
    }
}

#[via_fn]
proof fn squeezed_decreases(bytes: Seq<u8>, at: int) {
    if 0 <= at < bytes.len() && bytes[at] == OPEN_BRACE {
        lemma_first_index_of(bytes, CLOSE_BRACE, at + 1);
    }
}

/// Reading from an offset on is reading what stands from that offset on.
proof fn lemma_scan_cost_of_the_rest<S: CostSymbol>(bytes: Seq<u8>, at: int)
    requires
        0 <= at <= bytes.len(),
    ensures
        scan_cost::<S>(bytes, at) == moved_outcome(
            scan_cost::<S>(bytes.subrange(at, bytes.len() as int), 0),
            at as nat,
        ),
{
    let front = bytes.subrange(0, at);
    let rest = bytes.subrange(at, bytes.len() as int);
    assert(front + rest =~= bytes);
    lemma_scan_cost_moved::<S>(front, rest, 0);
}

proof fn lemma_squeezed_reads_the_same<S: CostSymbol>(bytes: Seq<u8>, at: int)
    requires
        0 <= at,
    ensures
        symbols_read(scan_cost::<S>(squeezed(bytes, at), 0)) == symbols_read(
            scan_cost::<S>(bytes, at),
        ),
    decreases bytes.len() - at,
{
    let end = bytes.len() as int;
    if at < end {
        if bytes[at] == OPEN_BRACE {
            lemma_first_index_of(bytes, CLOSE_BRACE, at + 1);
            match first_index_of(bytes, CLOSE_BRACE, at + 1) {
                None => {
                    lemma_scan_cost_of_the_rest::<S>(bytes, at);
                },
                Some(close) => {
                    let group = bytes.subrange(at, close + 1);
                    let tail = squeezed(bytes, close + 1);
                    let whole = group + tail;
                    let m = close - at;
                    assert(whole[0] == bytes[at]);
                    assert(whole[m] == bytes[close]);
                    assert forall|k: int| 1 <= k < m implies whole[k] != CLOSE_BRACE by {
                        assert(whole[k] == bytes[at + k]);
                    }
                    lemma_first_index_of_is(whole, CLOSE_BRACE, 1, m);
                    assert(whole.subrange(1, m) =~= bytes.subrange(at + 1, close));
                    lemma_scan_cost_moved::<S>(group, tail, 0);
                    lemma_squeezed_reads_the_same::<S>(bytes, close + 1);
                },
            }
        } else if is_ascii_space(bytes[at]) {
            lemma_squeezed_reads_the_same::<S>(bytes, at + 1);
        } else {
            lemma_scan_cost_of_the_rest::<S>(bytes, at);
        }
    }
}

/// Whitespace between tokens is insignificant, wherever it stands and
/// however much of it: two texts that differ only in the whitespace before,
/// between and after their groups read alike. Either both read well, as the
/// same symbols in the same order, or neither does.
pub proof fn law_whitespace_anywhere<S: CostSymbol>(a: Seq<u8>, b: Seq<u8>)
    requires
        squeezed(a, 0) == squeezed(b, 0),
    ensures
        symbols_read(cost_symbols::<S>(a)) == symbols_read(cost_symbols::<S>(b)),
{
    lemma_squeezed_reads_the_same::<S>(a, 0);
    lemma_squeezed_reads_the_same::<S>(b, 0);
}

/// Putting whitespace behind a text that reads well as a cost, and in front
/// of any other, changes nothing of the text with its whitespace left out.
pub proof fn law_squeezing_leaves_whitespace_out<S: CostSymbol>(
    a: Seq<u8>,
    space: Seq<u8>,
    b: Seq<u8>,
)
    requires
        cost_symbols::<S>(a) is Ok,
        all_space(space),
    ensures
        squeezed(a + space + b, 0) == squeezed(a + b, 0),
        squeezed(a + space + b, 0) == squeezed(a, 0) + squeezed(b, 0),
{
    lemma_squeezed_joined::<S>(a, space + b, 0);
    lemma_squeezed_joined::<S>(a, b, 0);
    lemma_squeezed_space(space, b, 0);
    assert(a + space + b =~= a + (space + b));
}

/// Whitespace in front of a text is left out.
proof fn lemma_squeezed_space(space: Seq<u8>, b: Seq<u8>, at: int)
    requires
        all_space(space),
        0 <= at <= space.len(),
    ensures
        squeezed(space + b, at) == squeezed(b, 0),
    decreases space.len() - at,
{
    let whole = space + b;
    if at < space.len() {
        assert(whole[at] == space[at]);
        assert(is_ascii_space(space[at]));
        lemma_squeezed_space(space, b, at + 1);
    } else {
        lemma_squeezed_moved(space, b, 0);
    }
}

/// Bytes in front of a text change nothing of what is squeezed from it.
proof fn lemma_squeezed_moved(front: Seq<u8>, bytes: Seq<u8>, at: int)
    requires
        0 <= at,
    ensures
        squeezed(front + bytes, front.len() + at) == squeezed(bytes, at),
    decreases bytes.len() - at,
{
    let whole = front + bytes;
    let n = front.len() as int;
    let end = bytes.len() as int;
    if at < end {
        assert(whole[n + at] == bytes[at]);
        if bytes[at] == OPEN_BRACE {
            lemma_first_index_of_moved(front, bytes, CLOSE_BRACE, at + 1);
            lemma_first_index_of(bytes, CLOSE_BRACE, at + 1);
            match first_index_of(bytes, CLOSE_BRACE, at + 1) {
                None => {
                    assert(whole.subrange(n + at, n + end) =~= bytes.subrange(at, end));
                },
                Some(close) => {
                    assert(whole.subrange(n + at, n + close + 1) =~= bytes.subrange(
                        at,
                        close + 1,
                    ));
                    lemma_squeezed_moved(front, bytes, close + 1);
                },
            }
        } else if is_ascii_space(bytes[at]) {
            lemma_squeezed_moved(front, bytes, at + 1);
        } else {
            assert(whole.subrange(n + at, n + end) =~= bytes.subrange(at, end));
        }
    }
}

/// A text that reads well, with any other behind it, squeezes to what the
/// two squeeze to.
proof fn lemma_squeezed_joined<S: CostSymbol>(a: Seq<u8>, b: Seq<u8>, at: int)
    requires
        0 <= at <= a.len(),
        scan_cost::<S>(a, at) is Ok,
    ensures
        squeezed(a + b, at) == squeezed(a, at) + squeezed(b, 0),
    decreases a.len() - at,
{
    let whole = a + b;
    if at == a.len() {
        lemma_squeezed_moved(a, b, 0);
        assert(Seq::<u8>::empty() + squeezed(b, 0) =~= squeezed(b, 0));
    } else {
        assert(whole[at] == a[at]);
        if a[at] == OPEN_BRACE {
            lemma_first_index_of(a, CLOSE_BRACE, at + 1);
            let close = first_index_of(a, CLOSE_BRACE, at + 1)->Some_0;
            lemma_first_index_of_found(a, b, CLOSE_BRACE, at + 1);
            assert(whole.subrange(at, close + 1) =~= a.subrange(at, close + 1));
            lemma_squeezed_joined::<S>(a, b, close + 1);
            let group = a.subrange(at, close + 1);
            assert(group + (squeezed(a, close + 1) + squeezed(b, 0)) =~= (group + squeezed(
                a,
                close + 1,
            )) + squeezed(b, 0));
        } else {
            assert(is_ascii_space(a[at]));
            lemma_squeezed_joined::<S>(a, b, at + 1);
        }
    }
}

/// Printing is the inverse of reading: every symbol has one spelling, which
/// reads back as that symbol; and of the spellings that read as a symbol,
/// the printed one is the only one that prints back as itself.
pub proof fn law_printed_symbol_reads_back<S: CostSymbol>(symbol: S, body: Seq<u8>)
    ensures
        S::resolve(symbol.spelling()) == Some(symbol),
        S::resolve(body) == Some(symbol) && S::resolve(body)->Some_0.spelling() == body ==> body
            == symbol.spelling(),
{
    symbol.lemma_spelling();
}

/// One printed symbol reads as that symbol.
proof fn lemma_one_group<S: CostSymbol>(symbol: S)
    ensures
        cost_symbols::<S>(bracketed(symbol.spelling())) == Ok::<Seq<S>, ParseErrorView>(
            seq![symbol],
        ),
{
    symbol.lemma_spelling();
    let body = symbol.spelling();
    let group = bracketed(body);
    let n = body.len() as int;
    assert(group[0] == OPEN_BRACE);
    assert(group[n + 1] == CLOSE_BRACE);
    assert forall|k: int| 1 <= k < n + 1 implies group[k] != CLOSE_BRACE by {
        assert(group[k] == body[k - 1]);
    }
    lemma_first_index_of(group, CLOSE_BRACE, 1);
    assert(first_index_of(group, CLOSE_BRACE, 1) == Some(n + 1));
    assert(group.subrange(1, n + 1) =~= body);
    lemma_ascii_is_utf8(body);
    assert(scan_cost::<S>(group, n + 2) == Ok::<Seq<S>, ParseErrorView>(Seq::empty()));
    assert(seq![symbol] + Seq::<S>::empty() =~= seq![symbol]);
}

/// Printing, then reading: every row of symbols, printed, reads back as
/// itself.
pub proof fn law_printed_cost_reads_back<S: CostSymbol>(symbols: Seq<S>)
    ensures
        cost_symbols::<S>(cost_text(symbols)) == Ok::<Seq<S>, ParseErrorView>(symbols),
    decreases symbols.len(),
{
    if symbols.len() > 0 {
        let front = symbols.drop_last();
        law_printed_cost_reads_back(front);
        lemma_one_group(symbols.last());
        law_costs_join::<S>(cost_text(front), bracketed(symbols.last().spelling()));
        assert(front + seq![symbols.last()] =~= symbols);
    } else {
        assert(symbols =~= Seq::<S>::empty());
    }
}

/// Every bracket group of the text is spelled the way its symbol is printed.
pub open spec fn spelled_as_printed<S: CostSymbol>(bytes: Seq<u8>) -> bool {
    forall|open: int|
        0 <= open < bytes.len() && #[trigger] bytes[open] == OPEN_BRACE ==> match first_index_of(
            bytes,
            CLOSE_BRACE,
            open + 1,
        ) {
            Some(close) => match S::resolve(bytes.subrange(open + 1, close)) {
                Some(symbol) => symbol.spelling() == bytes.subrange(open + 1, close),
                None => true,
            },
            None => true,
        }
}

/// No byte of the text is whitespace.
pub open spec fn no_space(bytes: Seq<u8>) -> bool {
    forall|i: int| 0 <= i < bytes.len() ==> !is_ascii_space(#[trigger] bytes[i])
}

/// A row of symbols prints as its first symbol, then the rest.
proof fn lemma_cost_text_first<S: CostSymbol>(symbols: Seq<S>)
    requires
        symbols.len() > 0,
    ensures
        cost_text(symbols) == bracketed(symbols[0].spelling()) + cost_text(symbols.drop_first()),
    decreases symbols.len(),
{
    if symbols.len() == 1 {
        assert(symbols.drop_last() =~= Seq::<S>::empty());
        assert(symbols.drop_first() =~= Seq::<S>::empty());
        assert(cost_text(symbols) =~= bracketed(symbols[0].spelling()) + cost_text(
            symbols.drop_first(),
        ));
    } else {
        lemma_cost_text_first(symbols.drop_last());
        assert(symbols.drop_last().drop_first() =~= symbols.drop_first().drop_last());
        assert(symbols.drop_last()[0] == symbols[0]);
        assert(symbols.drop_first().last() == symbols.last());
        assert(cost_text(symbols) =~= bracketed(symbols[0].spelling()) + cost_text(
            symbols.drop_first(),
        ));
    }
}

proof fn lemma_cost_round_trip_from<S: CostSymbol>(bytes: Seq<u8>, at: int)
    requires
        0 <= at <= bytes.len(),
        scan_cost::<S>(bytes, at) is Ok,
        no_space(bytes),
        spelled_as_printed::<S>(bytes),
    ensures
        cost_text(scan_cost::<S>(bytes, at)->Ok_0) == bytes.subrange(at, bytes.len() as int),
    decreases bytes.len() - at,
{
    let end = bytes.len() as int;
    if at == end {
        assert(bytes.subrange(at, end) =~= Seq::<u8>::empty());
    } else {
        assert(!is_ascii_space(bytes[at]));
        assert(bytes[at] == OPEN_BRACE);
        lemma_first_index_of(bytes, CLOSE_BRACE, at + 1);
        let close = first_index_of(bytes, CLOSE_BRACE, at + 1)->Some_0;
        let body = bytes.subrange(at + 1, close);
        let symbol = S::resolve(body)->Some_0;
        assert(symbol.spelling() == body);
        lemma_cost_round_trip_from::<S>(bytes, close + 1);
        let rest = scan_cost::<S>(bytes, close + 1)->Ok_0;
        let all = seq![symbol] + rest;
        lemma_cost_text_first(all);
        assert(all.drop_first() =~= rest);
        assert(bracketed(body) + bytes.subrange(close + 1, end) =~= bytes.subrange(at, end));
    }
}

/// Every group of the text is closed, and spelled the way its symbol is
/// printed.
pub open spec fn closed_and_spelled_as_printed<S: CostSymbol>(bytes: Seq<u8>) -> bool {
    forall|open: int|
        0 <= open < bytes.len() && #[trigger] bytes[open] == OPEN_BRACE ==> match first_index_of(
            bytes,
            CLOSE_BRACE,
            open + 1,
        ) {
            Some(close) => match S::resolve(bytes.subrange(open + 1, close)) {
                Some(symbol) => symbol.spelling() == bytes.subrange(open + 1, close),
                None => true,
            },
            None => false,
        }
}

/// Prose behind a text whose groups are closed opens no group and changes
/// none.
proof fn lemma_closed_then_prose<S: CostSymbol>(text: Seq<u8>, prose: Seq<u8>)
    requires
        closed_and_spelled_as_printed::<S>(text),
        holds_no_open_brace(prose),
    ensures
        closed_and_spelled_as_printed::<S>(text + prose),
{
    let whole = text + prose;
    assert forall|open: int|
        0 <= open < whole.len() && #[trigger] whole[open] == OPEN_BRACE implies match first_index_of(
        whole,
        CLOSE_BRACE,
        open + 1,
    ) {
        Some(close) => match S::resolve(whole.subrange(open + 1, close)) {
            Some(symbol) => symbol.spelling() == whole.subrange(open + 1, close),
            None => true,
        },
        None => false,
    } by {
        if open < text.len() {
            assert(text[open] == whole[open]);
            lemma_first_index_of(text, CLOSE_BRACE, open + 1);
            lemma_first_index_of_found(text, prose, CLOSE_BRACE, open + 1);
            let close = first_index_of(text, CLOSE_BRACE, open + 1)->Some_0;
            assert(whole.subrange(open + 1, close) =~= text.subrange(open + 1, close));
        } else {
            assert(whole[open] == prose[open - text.len()]);
        }
    }
}

/// A printed symbol behind a text whose groups are closed is one more
/// closed group, spelled as printed.
proof fn lemma_closed_then_group<S: CostSymbol>(text: Seq<u8>, symbol: S)
    requires
        closed_and_spelled_as_printed::<S>(text),
    ensures
        closed_and_spelled_as_printed::<S>(text + bracketed(symbol.spelling())),
{
    let spelling = symbol.spelling();
    let group = bracketed(spelling);
    let whole = text + group;
    let n = text.len() as int;
    let m = spelling.len() as int;
    symbol.lemma_spelling();
    assert forall|open: int|
        0 <= open < whole.len() && #[trigger] whole[open] == OPEN_BRACE implies match first_index_of(
        whole,
        CLOSE_BRACE,
        open + 1,
    ) {
        Some(close) => match S::resolve(whole.subrange(open + 1, close)) {
            Some(symbol) => symbol.spelling() == whole.subrange(open + 1, close),
            None => true,
        },
        None => false,
    } by {
        if open < n {
            assert(text[open] == whole[open]);
            lemma_first_index_of(text, CLOSE_BRACE, open + 1);
            lemma_first_index_of_found(text, group, CLOSE_BRACE, open + 1);
            let close = first_index_of(text, CLOSE_BRACE, open + 1)->Some_0;
            assert(whole.subrange(open + 1, close) =~= text.subrange(open + 1, close));
        } else {
            assert(whole[open] == group[open - n]);
            if 0 < open - n < m + 1 {
                assert(group[open - n] == spelling[open - n - 1]);
            }
            assert(open == n);
            assert(whole[n + m + 1] == CLOSE_BRACE);
            assert forall|k: int| n + 1 <= k < n + m + 1 implies whole[k] != CLOSE_BRACE by {
                assert(whole[k] == spelling[k - n - 1]);
            }
            lemma_first_index_of_is(whole, CLOSE_BRACE, n + 1, n + m + 1);
            assert(whole.subrange(n + 1, n + m + 1) =~= spelling);
        }
    }
}

/// A printed cost holds no whitespace, and every group of it is closed and
/// spelled as printed.
proof fn lemma_printed_cost_is_canonical<S: CostSymbol>(symbols: Seq<S>)
    ensures
        no_space(cost_text(symbols)),
        closed_and_spelled_as_printed::<S>(cost_text(symbols)),
    decreases symbols.len(),
{
    if symbols.len() > 0 {
        let front = cost_text(symbols.drop_last());
        let spelling = symbols.last().spelling();
        let group = bracketed(spelling);
        lemma_printed_cost_is_canonical(symbols.drop_last());
        lemma_closed_then_group(front, symbols.last());
        symbols.last().lemma_spelling();
        assert forall|i: int| 0 <= i < (front + group).len() implies !is_ascii_space(
            #[trigger] (front + group)[i],
        ) by {
            if i < front.len() {
                assert((front + group)[i] == front[i]);
            } else {
                let j = i - front.len();
                assert((front + group)[i] == group[j]);
                if 0 < j < spelling.len() + 1 {
                    assert(group[j] == spelling[j - 1]);
                }
            }
        }
    }
}

/// The round trip of a cost: a text that reads well is printed back byte for
/// byte exactly when it holds no whitespace and spells every symbol the way
/// it is printed.
pub proof fn law_cost_round_trip<S: CostSymbol>(bytes: Seq<u8>)
    requires
        cost_symbols::<S>(bytes) is Ok,
    ensures
        cost_text(cost_symbols::<S>(bytes)->Ok_0) == bytes <==> no_space(bytes)
            && spelled_as_printed::<S>(bytes),
{
    if no_space(bytes) && spelled_as_printed::<S>(bytes) {
        lemma_cost_round_trip_from::<S>(bytes, 0);
        assert(bytes.subrange(0, bytes.len() as int) =~= bytes);
    }
    if cost_text(cost_symbols::<S>(bytes)->Ok_0) == bytes {
        lemma_printed_cost_is_canonical(cost_symbols::<S>(bytes)->Ok_0);
    }
}

/// One pass makes a cost canonical: whatever a text reads as, the printed
/// form of that reads as the same, and prints as itself.
pub proof fn law_printing_is_canonical<S: CostSymbol>(bytes: Seq<u8>)
    requires
        cost_symbols::<S>(bytes) is Ok,
    ensures
        ({
            let printed = cost_text(cost_symbols::<S>(bytes)->Ok_0);
            &&& cost_symbols::<S>(printed) == cost_symbols::<S>(bytes)
            &&& cost_text(cost_symbols::<S>(printed)->Ok_0) == printed
        }),
{
    law_printed_cost_reads_back(cost_symbols::<S>(bytes)->Ok_0);
}

/// A hybrid reads in either order of its two colours, as one and the same
/// symbol.
pub proof fn law_hybrid_reads_in_either_order(a: char, b: char)
    requires
        is_color_letter(a),
        is_color_letter(b),
        a != b,
    ensures
        resolve_casting(slashed(a, b)) is Some,
        resolve_casting(slashed(a, b)) == resolve_casting(slashed(b, a)),
        resolve_action(slashed(a, b)) == resolve_action(slashed(b, a)),
{
    let x = slashed(a, b);
    let y = slashed(b, a);
    assert(x.len() == 3 && x[1] == SLASH);
    assert(y.len() == 3 && y[1] == SLASH);
    assert(x[0] == y[2] && x[2] == y[0]);
    assert(x[0] == a as u8 && x[2] == b as u8);
    assert(x.len() != letter('T').len());
    assert(y.len() != letter('T').len());
    assert(x.len() != crate::symbol::chaos_spelling().len());
    assert(y.len() != crate::symbol::chaos_spelling().len());
}

/// An action cost takes every spelling that a casting cost takes, and reads
/// it as the same symbol; what it reads as an action, a casting cost rejects.
pub proof fn law_action_symbols_extend_casting(body: Seq<u8>)
    ensures
        match resolve_casting(body) {
            Some(symbol) => resolve_action(body) == Some(ManaSymbol::Casting(symbol)),
            None => !(resolve_action(body) matches Some(ManaSymbol::Casting(_))),
        },
{
    if body == letter('T') || body == letter('Q') || body == letter('E') {
        assert(body.len() == 1);
        assert(body[0] == letter('T')[0] || body[0] == letter('Q')[0] || body[0] == letter(
            'E',
        )[0]);
        assert(!crate::ascii::is_digit(body[0]));
        assert(crate::ascii::unsigned_digits(body) == body);
    } else if body == crate::symbol::chaos_spelling() {
        assert(body.len() == 5);
        assert(body[0] == crate::symbol::chaos_spelling()[0]);
        assert(!crate::ascii::is_digit(body[0]));
        assert(crate::ascii::unsigned_digits(body) == body);
    }
}

/// A row of casting symbols as symbols of an action cost.
pub open spec fn as_action_symbols(symbols: Seq<CastingManaSymbol>) -> Seq<ManaSymbol> {
    symbols.map_values(|s: CastingManaSymbol| ManaSymbol::Casting(s))
}

proof fn lemma_casting_cost_reads_as_action_cost_from(bytes: Seq<u8>, at: int)
    requires
        0 <= at,
        scan_cost::<CastingManaSymbol>(bytes, at) is Ok,
    ensures
        scan_cost::<ManaSymbol>(bytes, at) == Ok::<Seq<ManaSymbol>, ParseErrorView>(
            as_action_symbols(scan_cost::<CastingManaSymbol>(bytes, at)->Ok_0),
        ),
    decreases bytes.len() - at,
{
    if at >= bytes.len() {
        assert(as_action_symbols(Seq::empty()) =~= Seq::<ManaSymbol>::empty());
    } else if bytes[at] == OPEN_BRACE {
        lemma_first_index_of(bytes, CLOSE_BRACE, at + 1);
        let close = first_index_of(bytes, CLOSE_BRACE, at + 1)->Some_0;
        let body = bytes.subrange(at + 1, close);
        law_action_symbols_extend_casting(body);
        let symbol = resolve_casting(body)->Some_0;
        assert(CastingManaSymbol::resolve(body) == Some(symbol));
        assert(ManaSymbol::resolve(body) == Some(ManaSymbol::Casting(symbol)));
        lemma_casting_cost_reads_as_action_cost_from(bytes, close + 1);
        let rest = scan_cost::<CastingManaSymbol>(bytes, close + 1)->Ok_0;
        assert(as_action_symbols(seq![symbol] + rest) =~= seq![ManaSymbol::Casting(symbol)]
            + as_action_symbols(rest));
    } else {
        lemma_casting_cost_reads_as_action_cost_from(bytes, at + 1);
    }
}

/// An action cost takes every text that a casting cost takes, and reads the
/// same symbols from it.
pub proof fn law_casting_cost_reads_as_action_cost(bytes: Seq<u8>)
    requires
        cost_symbols::<CastingManaSymbol>(bytes) is Ok,
    ensures
        cost_symbols::<ManaSymbol>(bytes) == Ok::<Seq<ManaSymbol>, ParseErrorView>(
            as_action_symbols(cost_symbols::<CastingManaSymbol>(bytes)->Ok_0),
        ),
{
    lemma_casting_cost_reads_as_action_cost_from(bytes, 0);
}

/// Two rows of segments, joined, print as the one and then the other.
proof fn lemma_rules_text_joined(a: Seq<SegmentView>, b: Seq<SegmentView>)
    ensures
        rules_text_bytes(a + b) == rules_text_bytes(a) + rules_text_bytes(b),
    decreases b.len(),
{
    if b.len() == 0 {
        assert(a + b =~= a);
        assert(rules_text_bytes(a) + rules_text_bytes(b) =~= rules_text_bytes(a));
    } else {
        lemma_rules_text_joined(a, b.drop_last());
        assert((a + b).drop_last() =~= a + b.drop_last());
        assert((a + b).last() == b.last());
        assert(rules_text_bytes(a + b) =~= rules_text_bytes(a) + rules_text_bytes(b));
    }
}

/// One segment prints as itself.
proof fn lemma_rules_text_one(segment: SegmentView)
    ensures
        rules_text_bytes(seq![segment]) == segment_text(segment),
{
    let one = seq![segment];
    assert(one.drop_last() =~= Seq::<SegmentView>::empty());
    assert(one.last() == segment);
    assert(rules_text_bytes(one.drop_last()) =~= Seq::<u8>::empty());
    assert(rules_text_bytes(one) =~= segment_text(segment));
}

/// Prose that reads well prints back as it stood.
proof fn lemma_literal_run_prints_back(bytes: Seq<u8>, from: int, to: int)
    requires
        0 <= from <= to <= bytes.len(),
        literal_run(bytes, from, to) is Ok,
    ensures
        rules_text_bytes(literal_run(bytes, from, to)->Ok_0) == bytes.subrange(from, to),
{
    let run = bytes.subrange(from, to);
    if run.len() == 0 {
        assert(run =~= Seq::<u8>::empty());
    } else {
        decode_utf8_encode_utf8(run);
        lemma_rules_text_one(SegmentView::Text(decode_utf8(run)));
    }
}

proof fn lemma_rules_round_trip_from(bytes: Seq<u8>, at: int)
    requires
        0 <= at <= bytes.len(),
        scan_rules(bytes, at) is Ok,
        spelled_as_printed::<ManaSymbol>(bytes),
    ensures
        rules_text_bytes(scan_rules(bytes, at)->Ok_0) == bytes.subrange(at, bytes.len() as int),
    decreases bytes.len() - at,
{
    let end = bytes.len() as int;
    if at == end {
        assert(bytes.subrange(at, end) =~= Seq::<u8>::empty());
    } else {
        lemma_first_index_of(bytes, OPEN_BRACE, at);
        match first_index_of(bytes, OPEN_BRACE, at) {
            None => {
                lemma_literal_run_prints_back(bytes, at, end);
            },
            Some(open) => {
                lemma_literal_run_prints_back(bytes, at, open);
                let prose = literal_run(bytes, at, open)->Ok_0;
                lemma_first_index_of(bytes, CLOSE_BRACE, open + 1);
                let close = first_index_of(bytes, CLOSE_BRACE, open + 1)->Some_0;
                let body = bytes.subrange(open + 1, close);
                let symbol = resolve_action(body)->Some_0;
                assert(bytes[open] == OPEN_BRACE);
                assert(symbol.spelling() == body);
                lemma_rules_round_trip_from(bytes, close + 1);
                let rest = scan_rules(bytes, close + 1)->Ok_0;
                let group = seq![SegmentView::Symbol(symbol)];
                assert(scan_rules(bytes, at)->Ok_0 == (prose + group) + rest);
                lemma_rules_round_trip_step(bytes, at, open, close, prose, symbol, rest);
            },
        }
    }
}

proof fn lemma_rules_round_trip_step(
    bytes: Seq<u8>,
    at: int,
    open: int,
    close: int,
    prose: Seq<SegmentView>,
    symbol: ManaSymbol,
    rest: Seq<SegmentView>,
)
    requires
        0 <= at <= open < close < bytes.len(),
        bytes[open] == OPEN_BRACE,
        bytes[close] == CLOSE_BRACE,
        rules_text_bytes(prose) == bytes.subrange(at, open),
        symbol.spelling() == bytes.subrange(open + 1, close),
        rules_text_bytes(rest) == bytes.subrange(close + 1, bytes.len() as int),
    ensures
        rules_text_bytes((prose + seq![SegmentView::Symbol(symbol)]) + rest) == bytes.subrange(
            at,
            bytes.len() as int,
        ),
{
    let end = bytes.len() as int;
    let group = seq![SegmentView::Symbol(symbol)];
    lemma_rules_text_one(SegmentView::Symbol(symbol));
    lemma_rules_text_joined(prose, group);
    lemma_rules_text_joined(prose + group, rest);
    let body = bytes.subrange(open + 1, close);
    assert(bracketed(body) =~= bytes.subrange(open, close + 1));
    assert(bytes.subrange(at, open) + bytes.subrange(open, close + 1) =~= bytes.subrange(
        at,
        close + 1,
    ));
    assert(bytes.subrange(at, close + 1) + bytes.subrange(close + 1, end) =~= bytes.subrange(
        at,
        end,
    ));
}

/// Printed rules text in read form closes every group and spells it as
/// printed.
proof fn lemma_printed_rules_text_is_canonical(segments: Seq<SegmentView>)
    requires
        is_read_form(segments),
    ensures
        closed_and_spelled_as_printed::<ManaSymbol>(rules_text_bytes(segments)),
    decreases segments.len(),
{
    if segments.len() > 0 {
        let front = segments.drop_last();
        assert(is_read_form(front)) by {
            assert forall|i: int| 0 <= i < front.len() implies match #[trigger] front[i] {
                SegmentView::Text(text) => text.len() > 0 && holds_no_open_brace(
                    encode_utf8(text),
                ) && (i + 1 < front.len() ==> front[i + 1] is Symbol),
                SegmentView::Symbol(_) => true,
            } by {
                assert(front[i] == segments[i]);
                if i + 1 < front.len() {
                    assert(front[i + 1] == segments[i + 1]);
                }
            }
        }
        lemma_printed_rules_text_is_canonical(front);
        match segments.last() {
            SegmentView::Text(text) => {
                assert(segments[segments.len() - 1] == segments.last());
                lemma_closed_then_prose::<ManaSymbol>(
                    rules_text_bytes(front),
                    encode_utf8(text),
                );
            },
            SegmentView::Symbol(symbol) => {
                lemma_closed_then_group::<ManaSymbol>(rules_text_bytes(front), symbol);
            },
        }
    }
}

/// The round trip of rules text: a text that reads well is printed back byte
/// for byte exactly when it spells every symbol the way it is printed. The
/// empty text reads as no segment and prints as the empty text.
pub proof fn law_rules_text_round_trip(bytes: Seq<u8>)
    requires
        rules_segments(bytes) is Ok,
    ensures
        rules_text_bytes(rules_segments(bytes)->Ok_0) == bytes <==> spelled_as_printed::<
            ManaSymbol,
        >(bytes),
        bytes.len() == 0 ==> rules_segments(bytes)->Ok_0.len() == 0 && rules_text_bytes(
            rules_segments(bytes)->Ok_0,
        ) == bytes,
{
    if spelled_as_printed::<ManaSymbol>(bytes) {
        lemma_rules_round_trip_from(bytes, 0);
        assert(bytes.subrange(0, bytes.len() as int) =~= bytes);
    }
    if rules_text_bytes(rules_segments(bytes)->Ok_0) == bytes {
        law_rules_text_is_in_read_form(bytes);
        lemma_printed_rules_text_is_canonical(rules_segments(bytes)->Ok_0);
    }
    if bytes.len() == 0 {
        assert(rules_text_bytes(Seq::<SegmentView>::empty()) =~= bytes);
    }
}

/// The form in which rules text is read: no stretch of prose is empty or
/// holds an opening brace, and no two stretches of prose stand together.
pub open spec fn is_read_form(segments: Seq<SegmentView>) -> bool {
    forall|i: int|
        0 <= i < segments.len() ==> match #[trigger] segments[i] {
            SegmentView::Text(text) => text.len() > 0 && holds_no_open_brace(encode_utf8(text))
                && (i + 1 < segments.len() ==> segments[i + 1] is Symbol),
            SegmentView::Symbol(_) => true,
        }
}

/// No byte of the text opens a group.
pub open spec fn holds_no_open_brace(bytes: Seq<u8>) -> bool {
    forall|k: int| 0 <= k < bytes.len() ==> #[trigger] bytes[k] != OPEN_BRACE
}

/// A stretch of prose as segments: none where it is empty, else one.
pub open spec fn prose_segments(prose: Seq<u8>) -> Seq<SegmentView> {
    if prose.len() == 0 {
        Seq::empty()
    } else {
        seq![SegmentView::Text(decode_utf8(prose))]
    }
}

/// Well-formed bytes that are not empty encode a text that is not empty.
proof fn lemma_decoded_is_not_empty(bytes: Seq<u8>)
    requires
        valid_utf8(bytes),
        bytes.len() > 0,
    ensures
        decode_utf8(bytes).len() > 0,
{
}

proof fn lemma_rules_text_is_in_read_form_from(bytes: Seq<u8>, at: int)
    requires
        0 <= at,
        scan_rules(bytes, at) is Ok,
    ensures
        is_read_form(scan_rules(bytes, at)->Ok_0),
    decreases bytes.len() - at,
{
    let end = bytes.len() as int;
    if at < end {
        lemma_first_index_of(bytes, OPEN_BRACE, at);
        match first_index_of(bytes, OPEN_BRACE, at) {
            None => {
                let run = bytes.subrange(at, end);
                lemma_decoded_is_not_empty(run);
                decode_utf8_encode_utf8(run);
                assert(holds_no_open_brace(run)) by {
                    assert forall|k: int| 0 <= k < run.len() implies #[trigger] run[k]
                        != OPEN_BRACE by {
                        assert(run[k] == bytes[at + k]);
                    }
                }
            },
            Some(open) => {
                let run = bytes.subrange(at, open);
                let prose = literal_run(bytes, at, open)->Ok_0;
                if run.len() > 0 {
                    lemma_decoded_is_not_empty(run);
                    decode_utf8_encode_utf8(run);
                    assert(holds_no_open_brace(run)) by {
                        assert forall|k: int| 0 <= k < run.len() implies #[trigger] run[k]
                            != OPEN_BRACE by {
                            assert(run[k] == bytes[at + k]);
                        }
                    }
                }
                lemma_first_index_of(bytes, CLOSE_BRACE, open + 1);
                let close = first_index_of(bytes, CLOSE_BRACE, open + 1)->Some_0;
                let symbol = resolve_action(bytes.subrange(open + 1, close))->Some_0;
                lemma_rules_text_is_in_read_form_from(bytes, close + 1);
                let rest = scan_rules(bytes, close + 1)->Ok_0;
                let front = prose + seq![SegmentView::Symbol(symbol)];
                let all = front + rest;
                assert(scan_rules(bytes, at)->Ok_0 == all);
                assert forall|i: int| 0 <= i < all.len() implies match #[trigger] all[i] {
                    SegmentView::Text(text) => text.len() > 0 && holds_no_open_brace(
                        encode_utf8(text),
                    ) && (i + 1 < all.len() ==> all[i + 1] is Symbol),
                    SegmentView::Symbol(_) => true,
                } by {
                    if i < front.len() {
                        assert(all[i] == front[i]);
                        if i < prose.len() {
                            assert(all[i + 1] == front[i + 1]);
                        }
                    } else {
                        let j = i - front.len();
                        assert(all[i] == rest[j]);
                        if j + 1 < rest.len() {
                            assert(all[i + 1] == rest[j + 1]);
                        }
                    }
                }
            },
        }
    }
}

/// Whatever is read from rules text is in read form.
pub proof fn law_rules_text_is_in_read_form(bytes: Seq<u8>)
    requires
        rules_segments(bytes) is Ok,
    ensures
        is_read_form(rules_segments(bytes)->Ok_0),
{
    lemma_rules_text_is_in_read_form_from(bytes, 0);
}

/// Bytes in front of rules text change nothing of what is read from it but
/// the offsets in a fault.
proof fn lemma_scan_rules_moved(front: Seq<u8>, bytes: Seq<u8>, at: int)
    requires
        0 <= at,
    ensures
        scan_rules(front + bytes, front.len() + at) == moved_outcome(
            scan_rules(bytes, at),
            front.len(),
        ),
    decreases bytes.len() - at,
{
    let whole = front + bytes;
    let n = front.len() as int;
    let end = bytes.len() as int;
    if at < end {
        lemma_first_index_of_moved(front, bytes, OPEN_BRACE, at);
        lemma_first_index_of(bytes, OPEN_BRACE, at);
        match first_index_of(bytes, OPEN_BRACE, at) {
            None => {
                assert(whole.subrange(n + at, n + end) =~= bytes.subrange(at, end));
            },
            Some(open) => {
                assert(whole.subrange(n + at, n + open) =~= bytes.subrange(at, open));
                lemma_first_index_of_moved(front, bytes, CLOSE_BRACE, open + 1);
                lemma_first_index_of(bytes, CLOSE_BRACE, open + 1);
                match first_index_of(bytes, CLOSE_BRACE, open + 1) {
                    None => {},
                    Some(close) => {
                        assert(whole.subrange(n + open + 1, n + close) =~= bytes.subrange(
                            open + 1,
                            close,
                        ));
                        lemma_scan_rules_moved(front, bytes, close + 1);
                    },
                }
            },
        }
    }
}

/// Where some byte at or after `from` holds the target and none before `at`
/// does, the first is found at `at`.
proof fn lemma_first_index_of_is(bytes: Seq<u8>, target: u8, from: int, at: int)
    requires
        0 <= from <= at < bytes.len(),
        bytes[at] == target,
        forall|k: int| from <= k < at ==> bytes[k] != target,
    ensures
        first_index_of(bytes, target, from) == Some(at),
{
    lemma_first_index_of(bytes, target, from);
}

/// What is left of rules text in read form once its first segments are
/// taken off is in read form.
proof fn lemma_read_form_rest(segments: Seq<SegmentView>, k: int)
    requires
        is_read_form(segments),
        0 <= k <= segments.len(),
    ensures
        is_read_form(segments.skip(k)),
{
    let rest = segments.skip(k);
    assert forall|i: int| 0 <= i < rest.len() implies match #[trigger] rest[i] {
        SegmentView::Text(text) => text.len() > 0 && holds_no_open_brace(encode_utf8(text)) && (i
            + 1 < rest.len() ==> rest[i + 1] is Symbol),
        SegmentView::Symbol(_) => true,
    } by {
        assert(rest[i] == segments[i + k]);
        if i + 1 < rest.len() {
            assert(rest[i + 1] == segments[i + k + 1]);
        }
    }
}

/// Prose alone reads as itself.
proof fn lemma_prose_reads_back(prose: Seq<u8>)
    requires
        valid_utf8(prose),
        holds_no_open_brace(prose),
    ensures
        rules_segments(prose) == Ok::<Seq<SegmentView>, ParseErrorView>(prose_segments(prose)),
{
    let n = prose.len() as int;
    if n > 0 {
        lemma_first_index_of(prose, OPEN_BRACE, 0);
        assert(prose.subrange(0, n) =~= prose);
    }
}

/// Prose, then a printed symbol, then text that reads well: the whole reads
/// as the prose, the symbol, and what the text reads as.
proof fn lemma_prose_and_group_read_back(
    prose: Seq<u8>,
    symbol: ManaSymbol,
    rest_bytes: Seq<u8>,
    rest: Seq<SegmentView>,
)
    requires
        valid_utf8(prose),
        holds_no_open_brace(prose),
        rules_segments(rest_bytes) == Ok::<Seq<SegmentView>, ParseErrorView>(rest),
    ensures
        rules_segments(prose + bracketed(symbol.spelling()) + rest_bytes) == Ok::<
            Seq<SegmentView>,
            ParseErrorView,
        >(prose_segments(prose) + seq![SegmentView::Symbol(symbol)] + rest),
{
    let spelling = symbol.spelling();
    let group = bracketed(spelling);
    let front = prose + group;
    let bytes = front + rest_bytes;
    let n = prose.len() as int;
    let m = spelling.len() as int;
    symbol.lemma_spelling();
    assert(front.len() == n + m + 2);
    // the group opens where the prose ends
    assert(bytes[n] == OPEN_BRACE);
    assert forall|k: int| 0 <= k < n implies bytes[k] != OPEN_BRACE by {
        assert(bytes[k] == prose[k]);
    }
    lemma_first_index_of_is(bytes, OPEN_BRACE, 0, n);
    assert(bytes.subrange(0, n) =~= prose);
    assert(literal_run(bytes, 0, n) == Ok::<Seq<SegmentView>, ParseErrorView>(
        prose_segments(prose),
    ));
    // and closes behind its spelling
    assert(bytes[n + m + 1] == CLOSE_BRACE);
    assert forall|k: int| n + 1 <= k < n + m + 1 implies bytes[k] != CLOSE_BRACE by {
        assert(bytes[k] == spelling[k - n - 1]);
    }
    lemma_first_index_of_is(bytes, CLOSE_BRACE, n + 1, n + m + 1);
    assert(bytes.subrange(n + 1, n + m + 1) =~= spelling);
    lemma_ascii_is_utf8(spelling);
    assert(resolve_action(spelling) == Some(symbol));
    // what follows reads as the rest
    lemma_scan_rules_moved(front, rest_bytes, 0);
    assert(scan_rules(bytes, n + m + 2) == Ok::<Seq<SegmentView>, ParseErrorView>(rest));
}

/// Printing, then reading: rules text in read form, printed, reads back as
/// itself.
pub proof fn law_printed_rules_text_reads_back(segments: Seq<SegmentView>)
    requires
        is_read_form(segments),
    ensures
        rules_segments(rules_text_bytes(segments)) == Ok::<Seq<SegmentView>, ParseErrorView>(
            segments,
        ),
    decreases segments.len(),
{
    if segments.len() == 0 {
        assert(segments =~= Seq::<SegmentView>::empty());
    } else {
        match segments[0] {
            SegmentView::Symbol(symbol) => {
                let rest = segments.skip(1);
                lemma_read_form_rest(segments, 1);
                law_printed_rules_text_reads_back(rest);
                lemma_prose_and_group_read_back(
                    Seq::empty(),
                    symbol,
                    rules_text_bytes(rest),
                    rest,
                );
                lemma_rules_text_joined(seq![segments[0]], rest);
                lemma_rules_text_one(segments[0]);
                assert(seq![segments[0]] + rest =~= segments);
                assert(Seq::<u8>::empty() + bracketed(symbol.spelling()) =~= bracketed(
                    symbol.spelling(),
                ));
                assert(prose_segments(Seq::empty()) + seq![segments[0]] + rest =~= segments);
            },
            SegmentView::Text(text) => {
                let prose = encode_utf8(text);
                encode_utf8_valid_utf8(text);
                encode_utf8_decode_utf8(text);
                assert(prose.len() > 0) by {
                    if prose.len() == 0 {
                        assert(decode_utf8(prose).len() == 0);
                    }
                }
                assert(prose_segments(prose) =~= seq![segments[0]]);
                lemma_rules_text_one(segments[0]);
                if segments.len() == 1 {
                    lemma_prose_reads_back(prose);
                    assert(seq![segments[0]] =~= segments);
                } else {
                    let symbol = segments[1]->Symbol_0;
                    let rest = segments.skip(2);
                    lemma_read_form_rest(segments, 2);
                    law_printed_rules_text_reads_back(rest);
                    lemma_prose_and_group_read_back(prose, symbol, rules_text_bytes(rest), rest);
                    lemma_rules_text_one(segments[1]);
                    lemma_rules_text_joined(seq![segments[0]], seq![segments[1]]);
                    lemma_rules_text_joined(seq![segments[0]] + seq![segments[1]], rest);
                    assert(seq![segments[0]] + seq![segments[1]] + rest =~= segments);
                }
            },
        }
    }
}

} // verus!
