//! Costs: bracket groups in a row, with nothing but whitespace between them.

use crate::ascii::{byte_is_ascii_space, is_ascii_space, CLOSE_BRACE, OPEN_BRACE};
use crate::error::{ManaCostParseError, ParseErrorView};
use crate::symbol::{bracketed, CastingManaSymbol, CostSymbol, ManaSymbol};
use crate::text::{
    is_ascii_bytes, lemma_ascii_boundary, lemma_ascii_concat, lemma_ascii_is_utf8,
    lemma_utf8_slice, str_from_utf8, string_from_utf8,
};
use vstd::prelude::*;
use vstd::string::*;
use vstd::utf8::*;

verus! {

/// The least index at or after `from` that holds `target`.
pub open spec fn first_index_of(bytes: Seq<u8>, target: u8, from: int) -> Option<int>
    decreases bytes.len() - from,
{
    if from < 0 || from >= bytes.len() {
        None
    } else if bytes[from] == target {
        Some(from)
    } else {
        first_index_of(bytes, target, from + 1)
    }
}

/// What [`first_index_of`] finds is in range, holds the target, and nothing
/// before it does; where it finds nothing, nothing is there.
pub proof fn lemma_first_index_of(bytes: Seq<u8>, target: u8, from: int)
    requires
        0 <= from,
    ensures
        match first_index_of(bytes, target, from) {
            Some(j) => from <= j < bytes.len() && bytes[j] == target && forall|k: int|
                from <= k < j ==> bytes[k] != target,
            None => forall|k: int| from <= k < bytes.len() ==> bytes[k] != target,
        },
    decreases bytes.len() - from,
{
    if from < bytes.len() && bytes[from] != target {
        lemma_first_index_of(bytes, target, from + 1);
    }
}

/// Finds the first `target` at or after `from`.
pub fn find_byte(bytes: &[u8], target: u8, from: usize) -> (r: Option<usize>)
    ensures
        match r {
            Some(j) => first_index_of(bytes@, target, from as int) == Some(j as int),
            None => first_index_of(bytes@, target, from as int) is None,
        },
{
    let mut i: usize = from;
    while i < bytes.len()
        invariant
            from <= i,
            first_index_of(bytes@, target, from as int) == first_index_of(bytes@, target, i as int),
        decreases bytes.len() - i,
    {
        if bytes[i] == target {
            return Some(i);
        }
        i = i + 1;
    }
    None
}

/// The character whose encoding starts at byte offset `at`, if a well-formed
/// one starts there.
pub open spec fn character_at(bytes: Seq<u8>, at: int) -> Option<char> {
    let rest = bytes.subrange(at, bytes.len() as int);
    if valid_first_scalar(rest) {
        Some(decode_first_scalar(rest) as char)
    } else {
        None
    }
}

/// Reads the character whose encoding starts at byte offset `at`.
fn read_character(bytes: &[u8], at: usize) -> (r: Option<char>)
    requires
        at < bytes.len(),
    ensures
        r == character_at(bytes@, at as int),
{
    let ghost rest = bytes@.subrange(at as int, bytes@.len() as int);
    assert(rest[0] == bytes@[at as int]);
    let first = bytes[at];
    let width: usize = if first < 0x80 {
        1
    } else if 0xc0 <= first && first <= 0xdf {
        2
    } else if 0xe0 <= first && first <= 0xef {
        3
    } else if 0xf0 <= first && first <= 0xf7 {
        4
    } else {
        return None;
    };
    if bytes.len() - at < width {
        return None;
    }
    let one = &bytes[at..at + width];
    proof {
        assert(one@ =~= rest.subrange(0, width as int));
        assert forall|i: int| 0 <= i < width implies one@[i] == rest[i] by {}
        assert(valid_first_scalar(one@) == valid_first_scalar(rest));
        assert(decode_first_scalar(one@) == decode_first_scalar(rest));
        if valid_first_scalar(one@) {
            assert(length_of_first_scalar(one@) == width);
            assert(pop_first_scalar(one@) =~= Seq::<u8>::empty());
            assert(valid_utf8(pop_first_scalar(one@)));
            assert(valid_utf8(one@));
            assert(decode_utf8(pop_first_scalar(one@)) =~= Seq::<char>::empty());
            assert(decode_utf8(one@) =~= seq![decode_first_scalar(one@) as char]);
        }
    }
    match str_from_utf8(one) {
        None => None,
        Some(text) => {
            proof {
                encode_utf8_decode_utf8(text@);
            }
            Some(text.get_char(0))
        },
    }
}

/// The symbols of the cost that starts at byte offset `at`, or why there are
/// none: the grammar of a cost.
///
/// A `{` opens a group that runs to the next `}`; the bytes between them must
/// be well-formed UTF-8 and spell a symbol. Whitespace between groups is
/// skipped. Any other character is out of place, and is reported as it
/// stands in the text; bytes that start no well-formed character are
/// reported as malformed. The first fault ends the reading.
pub open spec fn scan_cost<S: CostSymbol>(bytes: Seq<u8>, at: int) -> Result<
    Seq<S>,
    ParseErrorView,
>
    decreases bytes.len() - at,
    via scan_cost_decreases::<S>
{
    if at < 0 || at >= bytes.len() {
        Ok(Seq::empty())
    } else if bytes[at] == OPEN_BRACE {
        match first_index_of(bytes, CLOSE_BRACE, at + 1) {
            None => Err(ParseErrorView::UnclosedBrace { position: at as nat }),
            Some(close) => {
                let body = bytes.subrange(at + 1, close);
                if !valid_utf8(body) {
                    Err(ParseErrorView::InvalidUtf8)
                } else {
                    match S::resolve(body) {
                        None => Err(ParseErrorView::UnknownSymbol { symbol: decode_utf8(body) }),
                        Some(symbol) => after(seq![symbol], scan_cost::<S>(bytes, close + 1)),
                    }
                }
            },
        }
    } else if is_ascii_space(bytes[at]) {
        scan_cost::<S>(bytes, at + 1)
    } else {
        match character_at(bytes, at) {
            Some(character) => Err(
                ParseErrorView::UnexpectedCharacter { character, position: at as nat },
            ),
            None => Err(ParseErrorView::InvalidUtf8),
        }
    }
}

#[via_fn]
proof fn scan_cost_decreases<S: CostSymbol>(bytes: Seq<u8>, at: int) {
    if 0 <= at < bytes.len() && bytes[at] == OPEN_BRACE {
        lemma_first_index_of(bytes, CLOSE_BRACE, at + 1);
    }
}

/// What was read so far, then what the rest gives.
pub open spec fn after<T, E>(done: Seq<T>, rest: Result<Seq<T>, E>) -> Result<Seq<T>, E> {
    match rest {
        Ok(more) => Ok(done + more),
        Err(e) => Err(e),
    }
}

/// The symbols that a whole cost text denotes, or the first fault in it.
pub open spec fn cost_symbols<S: CostSymbol>(bytes: Seq<u8>) -> Result<Seq<S>, ParseErrorView> {
    scan_cost::<S>(bytes, 0)
}

/// The mathematical value of what a cost parser hands back.
pub open spec fn symbols_view<S>(r: Result<Vec<S>, ManaCostParseError>) -> Result<
    Seq<S>,
    ParseErrorView,
> {
    match r {
        Ok(symbols) => Ok(symbols@),
        Err(e) => Err(e@),
    }
}

/// Reads a cost: the tokenizer that both kinds of cost share.
pub fn parse_symbols<S: CostSymbol>(input: &[u8]) -> (r: Result<Vec<S>, ManaCostParseError>)
    ensures
        symbols_view(r) == cost_symbols::<S>(input@),
{
    let mut symbols: Vec<S> = Vec::new();
    let mut i: usize = 0;
    assert(after(symbols@, scan_cost::<S>(input@, 0)) =~= scan_cost::<S>(input@, 0)) by {
        match scan_cost::<S>(input@, 0) {
            Ok(more) => assert(symbols@ + more =~= more),
            Err(_) => {},
        }
    }
    while i < input.len()
        invariant
            i <= input.len(),
            cost_symbols::<S>(input@) == after(symbols@, scan_cost::<S>(input@, i as int)),
        decreases input.len() - i,
    {
        if input[i] == OPEN_BRACE {
            proof {
                lemma_first_index_of(input@, CLOSE_BRACE, i + 1);
            }
            match find_byte(input, CLOSE_BRACE, i + 1) {
                None => {
                    return Err(ManaCostParseError::UnclosedBrace { position: i });
                },
                Some(close) => {
                    let body = &input[i + 1..close];
                    match str_from_utf8(body) {
                        None => {
                            return Err(ManaCostParseError::InvalidUtf8);
                        },
                        Some(content) => {
                            match S::from_spelling(body) {
                                None => {
                                    proof {
                                        encode_utf8_decode_utf8(content@);
                                    }
                                    return Err(
                                        ManaCostParseError::UnknownSymbol {
                                            symbol: content.to_owned(),
                                        },
                                    );
                                },
                                Some(symbol) => {
                                    proof {
                                        let rest = scan_cost::<S>(input@, close + 1);
                                        match rest {
                                            Ok(more) => assert(symbols@ + (seq![symbol] + more)
                                                =~= symbols@.push(symbol) + more),
                                            Err(_) => {},
                                        }
                                    }
                                    symbols.push(symbol);
                                    i = close + 1;
                                },
                            }
                        },
                    }
                },
            }
        } else if byte_is_ascii_space(input[i]) {
            i = i + 1;
        } else {
            match read_character(input, i) {
                Some(character) => {
                    return Err(ManaCostParseError::UnexpectedCharacter { character, position: i });
                },
                None => {
                    return Err(ManaCostParseError::InvalidUtf8);
                },
            }
        }
    }
    assert(symbols@ + Seq::<S>::empty() =~= symbols@);
    Ok(symbols)
}

/// The printed form of a row of symbols: each in its braces, nothing between.
pub open spec fn cost_text<S: CostSymbol>(symbols: Seq<S>) -> Seq<u8>
    decreases symbols.len(),
{
    if symbols.len() == 0 {
        Seq::empty()
    } else {
        cost_text(symbols.drop_last()) + bracketed(symbols.last().spelling())
    }
}

/// Appends the printed form of one symbol.
pub fn push_symbol<S: CostSymbol>(out: &mut Vec<u8>, symbol: S)
    ensures
        final(out)@ == old(out)@ + bracketed(symbol.spelling()),
{
    out.push(OPEN_BRACE);
    symbol.push_spelling(out);
    out.push(CLOSE_BRACE);
    assert(final(out)@ =~= old(out)@ + bracketed(symbol.spelling()));
}

/// Appends the printed form of a row of symbols.
pub fn push_cost<S: CostSymbol>(out: &mut Vec<u8>, symbols: &Vec<S>)
    ensures
        final(out)@ == old(out)@ + cost_text(symbols@),
{
    let mut i: usize = 0;
    assert(out@ =~= old(out)@ + cost_text(symbols@.take(0)));
    while i < symbols.len()
        invariant
            i <= symbols.len(),
            out@ == old(out)@ + cost_text(symbols@.take(i as int)),
        decreases symbols.len() - i,
    {
        let ghost before = symbols@.take(i as int);
        let ghost next = symbols@.take(i + 1);
        assert(next.drop_last() =~= before);
        assert(next.last() == symbols@[i as int]);
        push_symbol(out, symbols[i]);
        assert(out@ =~= old(out)@ + cost_text(next));
        i = i + 1;
    }
    assert(symbols@.take(i as int) =~= symbols@);
}

/// The printed form of a row of symbols is plain ASCII.
pub proof fn lemma_cost_text_is_ascii<S: CostSymbol>(symbols: Seq<S>)
    ensures
        is_ascii_bytes(cost_text(symbols)),
        valid_utf8(cost_text(symbols)),
    decreases symbols.len(),
{
    if symbols.len() > 0 {
        lemma_cost_text_is_ascii(symbols.drop_last());
        symbols.last().lemma_spelling();
        let group = bracketed(symbols.last().spelling());
        assert(is_ascii_bytes(group)) by {
            assert forall|i: int| 0 <= i < group.len() implies #[trigger] group[i] < 0x80 by {
                if 0 < i < group.len() - 1 {
                    assert(group[i] == symbols.last().spelling()[i - 1]);
                }
            }
        }
        lemma_ascii_concat(cost_text(symbols.drop_last()), group);
    }
    lemma_ascii_is_utf8(cost_text(symbols));
}

/// In text, nothing is malformed: reading a `str` never fails for its
/// encoding.
pub proof fn lemma_text_is_well_formed<S: CostSymbol>(bytes: Seq<u8>, at: int)
    requires
        valid_utf8(bytes),
        0 <= at,
        at < bytes.len() ==> is_char_boundary(bytes, at),
    ensures
        scan_cost::<S>(bytes, at) != Err::<Seq<S>, ParseErrorView>(ParseErrorView::InvalidUtf8),
    decreases bytes.len() - at,
{
    if at < bytes.len() {
        if bytes[at] == OPEN_BRACE {
            lemma_first_index_of(bytes, CLOSE_BRACE, at + 1);
            match first_index_of(bytes, CLOSE_BRACE, at + 1) {
                None => {},
                Some(close) => {
                    lemma_ascii_boundary(bytes, at);
                    lemma_ascii_boundary(bytes, close);
                    lemma_utf8_slice(bytes, at + 1, close);
                    lemma_text_is_well_formed::<S>(bytes, close + 1);
                },
            }
        } else if is_ascii_space(bytes[at]) {
            lemma_ascii_boundary(bytes, at);
            lemma_text_is_well_formed::<S>(bytes, at + 1);
        } else {
            valid_utf8_split(bytes, at);
            let rest = bytes.subrange(at, bytes.len() as int);
            assert(rest.len() > 0);
            assert(valid_first_scalar(rest));
        }
    }
}

/// The mathematical value of a result: the view of what it holds.
pub open spec fn result_view<T: View, E: View>(r: Result<T, E>) -> Result<T::V, E::V> {
    match r {
        Ok(value) => Ok(value@),
        Err(e) => Err(e@),
    }
}

/// The text that a row of symbols prints as.
fn cost_string<S: CostSymbol>(symbols: &Vec<S>) -> (r: String)
    ensures
        encode_utf8(r@) == cost_text(symbols@),
{
    let mut out: Vec<u8> = Vec::new();
    push_cost(&mut out, symbols);
    proof {
        assert(out@ =~= cost_text(symbols@));
        lemma_cost_text_is_ascii(symbols@);
    }
    string_from_utf8(out.as_slice())
}

/// The text that one symbol prints as.
fn symbol_string<S: CostSymbol>(symbol: S) -> (r: String)
    ensures
        encode_utf8(r@) == bracketed(symbol.spelling()),
{
    let mut out: Vec<u8> = Vec::new();
    push_symbol(&mut out, symbol);
    proof {
        assert(out@ =~= bracketed(symbol.spelling()));
        let one = seq![symbol];
        assert(one.drop_last() =~= Seq::<S>::empty());
        assert(one.last() == symbol);
        assert(cost_text(one.drop_last()) =~= Seq::<u8>::empty());
        assert(cost_text(one) =~= bracketed(symbol.spelling()));
        lemma_cost_text_is_ascii(one);
    }
    string_from_utf8(out.as_slice())
}

impl CastingManaSymbol {
    /// The symbol as it is printed: its one spelling, in braces.
    pub fn to_string(&self) -> (r: String)
        ensures
            encode_utf8(r@) == bracketed(self.spelling()),
    {
        symbol_string(*self)
    }
}

impl ManaSymbol {
    /// The symbol as it is printed: its one spelling, in braces.
    pub fn to_string(&self) -> (r: String)
        ensures
            encode_utf8(r@) == bracketed(self.spelling()),
    {
        symbol_string(*self)
    }
}

/// The cost printed in a card's corner: casting symbols in the order written.
#[derive(Debug, Clone, PartialEq, Eq)]
pub struct CastingManaCost {
    pub symbols: Vec<CastingManaSymbol>,
}

impl View for CastingManaCost {
    type V = Seq<CastingManaSymbol>;

    open spec fn view(&self) -> Seq<CastingManaSymbol> {
        self.symbols@
    }
}

impl DeepView for CastingManaCost {
    type V = Seq<CastingManaSymbol>;

    open spec fn deep_view(&self) -> Seq<CastingManaSymbol> {
        self@
    }
}

/// How much generic mana one symbol asks for.
pub open spec fn generic_amount(symbol: CastingManaSymbol) -> nat {
    match symbol {
        CastingManaSymbol::Generic(n) => n as nat,
        _ => 0,
    }
}

/// The generic mana that a row of symbols asks for in all.
pub open spec fn generic_total(symbols: Seq<CastingManaSymbol>) -> nat
    decreases symbols.len(),
{
    if symbols.len() == 0 {
        0
    } else {
        generic_total(symbols.drop_last()) + generic_amount(symbols.last())
    }
}

/// One of the variables X, Y and Z.
pub open spec fn is_variable(symbol: CastingManaSymbol) -> bool {
    symbol == CastingManaSymbol::X || symbol == CastingManaSymbol::Y || symbol
        == CastingManaSymbol::Z
}

/// One of the five plain colours. Hybrid, twobrid and Phyrexian symbols are
/// not plain.
pub open spec fn is_plain_color(symbol: CastingManaSymbol) -> bool {
    symbol == CastingManaSymbol::White || symbol == CastingManaSymbol::Blue || symbol
        == CastingManaSymbol::Black || symbol == CastingManaSymbol::Red || symbol
        == CastingManaSymbol::Green
}

/// How many plain colour symbols a row of symbols holds.
pub open spec fn colored_total(symbols: Seq<CastingManaSymbol>) -> nat {
    symbols.filter(|s: CastingManaSymbol| is_plain_color(s)).len()
}

impl CastingManaCost {
    /// Reads a casting cost from text. The encoding of text is never at fault.
    pub fn parse(input: &str) -> (r: Result<Self, ManaCostParseError>)
        ensures
            result_view(r) == cost_symbols::<CastingManaSymbol>(input.spec_bytes()),
            !(r matches Err(ManaCostParseError::InvalidUtf8)),
    {
        proof {
            encode_utf8_valid_utf8(input@);
            is_char_boundary_start_end_of_seq(input.spec_bytes());
            lemma_text_is_well_formed::<CastingManaSymbol>(input.spec_bytes(), 0);
        }
        Self::parse_bytes(input.as_bytes())
    }

    /// Reads a casting cost from bytes.
    pub fn parse_bytes(input: &[u8]) -> (r: Result<Self, ManaCostParseError>)
        ensures
            result_view(r) == cost_symbols::<CastingManaSymbol>(input@),
    {
        match parse_symbols::<CastingManaSymbol>(input) {
            Ok(symbols) => Ok(CastingManaCost { symbols }),
            Err(e) => Err(e),
        }
    }

    /// Reads one bracket body, without its braces.
    pub fn parse_symbol(content: &str) -> (r: Result<CastingManaSymbol, ManaCostParseError>)
        ensures
            match r {
                Ok(symbol) => CastingManaSymbol::resolve(content.spec_bytes()) == Some(symbol),
                Err(e) => CastingManaSymbol::resolve(content.spec_bytes()) is None && e@
                    == (ParseErrorView::UnknownSymbol { symbol: content@ }),
            },
    {
        match CastingManaSymbol::from_spelling(content.as_bytes()) {
            Some(symbol) => Ok(symbol),
            None => Err(ManaCostParseError::UnknownSymbol { symbol: content.to_owned() }),
        }
    }

    /// The generic mana asked for in all. The sum is taken in 32 bits: it
    /// wraps round where it does not fit.
    pub fn generic_cost(&self) -> (r: u32)
        ensures
            r as nat == generic_total(self@) % 0x1_0000_0000,
            generic_total(self@) <= u32::MAX ==> r as nat == generic_total(self@),
    {
        let mut total: u32 = 0;
        let mut i: usize = 0;
        assert(self@.take(0) =~= Seq::<CastingManaSymbol>::empty());
        while i < self.symbols.len()
            invariant
                i <= self.symbols.len(),
                total as nat == generic_total(self@.take(i as int)) % 0x1_0000_0000,
            decreases self.symbols.len() - i,
        {
            let ghost before = self@.take(i as int);
            let ghost next = self@.take(i + 1);
            assert(next.drop_last() =~= before);
            assert(next.last() == self@[i as int]);
            if let CastingManaSymbol::Generic(n) = self.symbols[i] {
                assert((total as nat + n as nat) % 0x1_0000_0000 == (generic_total(before)
                    + n as nat) % 0x1_0000_0000) by {
                    vstd::arithmetic::div_mod::lemma_add_mod_noop_right(
                        n as int,
                        generic_total(before) as int,
                        0x1_0000_0000,
                    );
                }
                total = total.wrapping_add(n);
            }
            i = i + 1;
        }
        assert(self@.take(i as int) =~= self@);
        total
    }

    /// Whether the cost holds one of the variables X, Y and Z.
    pub fn has_variable(&self) -> (r: bool)
        ensures
            r == exists|i: int| 0 <= i < self@.len() && is_variable(#[trigger] self@[i]),
    {
        let mut i: usize = 0;
        while i < self.symbols.len()
            invariant
                i <= self.symbols.len(),
                forall|j: int| 0 <= j < i ==> !is_variable(#[trigger] self@[j]),
            decreases self.symbols.len() - i,
        {
            match self.symbols[i] {
                CastingManaSymbol::X | CastingManaSymbol::Y | CastingManaSymbol::Z => {
                    assert(is_variable(self@[i as int]));
                    return true;
                },
                _ => {},
            }
            i = i + 1;
        }
        false
    }

    /// How many plain colour symbols the cost holds, counted in 32 bits.
    pub fn colored_count(&self) -> (r: u32)
        ensures
            r as nat == colored_total(self@) % 0x1_0000_0000,
            colored_total(self@) <= u32::MAX ==> r as nat == colored_total(self@),
    {
        let ghost plain = |s: CastingManaSymbol| is_plain_color(s);
        let mut count: u32 = 0;
        let mut i: usize = 0;
        assert(self@.take(0) =~= Seq::<CastingManaSymbol>::empty());
        while i < self.symbols.len()
            invariant
                i <= self.symbols.len(),
                plain == |s: CastingManaSymbol| is_plain_color(s),
                count as nat == self@.take(i as int).filter(plain).len() % 0x1_0000_0000,
            decreases self.symbols.len() - i,
        {
            let ghost before = self@.take(i as int);
            let ghost next = self@.take(i + 1);
            proof {
                assert(next =~= before + seq![self@[i as int]]);
                Seq::filter_distributes_over_add(before, seq![self@[i as int]], plain);
                let one = seq![self@[i as int]];
                assert(one.drop_last() =~= Seq::<CastingManaSymbol>::empty());
                reveal_with_fuel(Seq::filter, 2);
                assert(one.filter(plain).len() == if is_plain_color(self@[i as int]) {
                    1nat
                } else {
                    0nat
                });
            }
            match self.symbols[i] {
                CastingManaSymbol::White
                | CastingManaSymbol::Blue
                | CastingManaSymbol::Black
                | CastingManaSymbol::Red
                | CastingManaSymbol::Green => {
                    assert((count as nat + 1) % 0x1_0000_0000 == (before.filter(plain).len() + 1)
                        % 0x1_0000_0000) by {
                        vstd::arithmetic::div_mod::lemma_add_mod_noop_right(
                            1,
                            before.filter(plain).len() as int,
                            0x1_0000_0000,
                        );
                    }
                    count = count.wrapping_add(1);
                },
                _ => {},
            }
            i = i + 1;
        }
        assert(self@.take(i as int) =~= self@);
        count
    }

    /// The cost as it is printed: each symbol under its one spelling, in its
    /// braces, with nothing between them.
    pub fn to_string(&self) -> (r: String)
        ensures
            encode_utf8(r@) == cost_text(self@),
    {
        cost_string(&self.symbols)
    }
}

/// A cost that may also ask for an action: tapping, untapping, energy, chaos.
#[derive(Debug, Clone, PartialEq, Eq)]
pub struct ActionCost {
    pub symbols: Vec<ManaSymbol>,
}

impl View for ActionCost {
    type V = Seq<ManaSymbol>;

    open spec fn view(&self) -> Seq<ManaSymbol> {
        self.symbols@
    }
}

impl DeepView for ActionCost {
    type V = Seq<ManaSymbol>;

    open spec fn deep_view(&self) -> Seq<ManaSymbol> {
        self@
    }
}

impl ActionCost {
    /// Reads an action cost from text. The encoding of text is never at fault.
    pub fn parse(input: &str) -> (r: Result<Self, ManaCostParseError>)
        ensures
            result_view(r) == cost_symbols::<ManaSymbol>(input.spec_bytes()),
            !(r matches Err(ManaCostParseError::InvalidUtf8)),
    {
        proof {
            encode_utf8_valid_utf8(input@);
            is_char_boundary_start_end_of_seq(input.spec_bytes());
            lemma_text_is_well_formed::<ManaSymbol>(input.spec_bytes(), 0);
        }
        Self::parse_bytes(input.as_bytes())
    }

    /// Reads an action cost from bytes.
    pub fn parse_bytes(input: &[u8]) -> (r: Result<Self, ManaCostParseError>)
        ensures
            result_view(r) == cost_symbols::<ManaSymbol>(input@),
    {
        match parse_symbols::<ManaSymbol>(input) {
            Ok(symbols) => Ok(ActionCost { symbols }),
            Err(e) => Err(e),
        }
    }

    /// Reads one bracket body, without its braces.
    pub fn parse_symbol(content: &str) -> (r: Result<ManaSymbol, ManaCostParseError>)
        ensures
            match r {
                Ok(symbol) => ManaSymbol::resolve(content.spec_bytes()) == Some(symbol),
                Err(e) => ManaSymbol::resolve(content.spec_bytes()) is None && e@
                    == (ParseErrorView::UnknownSymbol { symbol: content@ }),
            },
    {
        match ManaSymbol::from_spelling(content.as_bytes()) {
            Some(symbol) => Ok(symbol),
            None => Err(ManaCostParseError::UnknownSymbol { symbol: content.to_owned() }),
        }
    }

    /// The cost as it is printed.
    pub fn to_string(&self) -> (r: String)
        ensures
            encode_utf8(r@) == cost_text(self@),
    {
        cost_string(&self.symbols)
    }
}

} // verus!
