//! Rules text: prose with symbols in braces here and there.

use crate::ascii::{CLOSE_BRACE, OPEN_BRACE};
use crate::cost::{
    after, find_byte, first_index_of, lemma_first_index_of, push_symbol, result_view,
};
use crate::error::{ManaCostParseError, ParseErrorView};
use crate::symbol::{bracketed, mana_spelling, resolve_action, CostSymbol, ManaSymbol};
use crate::text::{
    lemma_ascii_boundary, lemma_ascii_is_utf8, lemma_utf8_slice, str_from_utf8, string_from_utf8,
};
use vstd::prelude::*;
use vstd::string::*;
use vstd::utf8::*;

verus! {

/// One stretch of rules text: prose kept as written, or a symbol.
#[derive(Debug, Clone, PartialEq, Eq)]
pub enum RulesTextSegment {
    Text(String),
    Symbol(ManaSymbol),
}

/// The mathematical value of a [`RulesTextSegment`].
pub enum SegmentView {
    Text(Seq<char>),
    Symbol(ManaSymbol),
}

impl View for RulesTextSegment {
    type V = SegmentView;

    open spec fn view(&self) -> SegmentView {
        match *self {
            RulesTextSegment::Text(text) => SegmentView::Text(text@),
            RulesTextSegment::Symbol(symbol) => SegmentView::Symbol(symbol),
        }
    }
}

/// Rules text as a row of segments, in the order written.
#[derive(Debug, Clone, PartialEq, Eq)]
pub struct RulesText {
    pub segments: Vec<RulesTextSegment>,
}

impl View for RulesText {
    type V = Seq<SegmentView>;

    open spec fn view(&self) -> Seq<SegmentView> {
        self.segments@.map_values(|s: RulesTextSegment| s@)
    }
}

impl DeepView for RulesText {
    type V = Seq<SegmentView>;

    open spec fn deep_view(&self) -> Seq<SegmentView> {
        self@
    }
}

/// The prose between byte offsets `from` and `to`: no segment where there is
/// none, else one text segment, which must be well-formed UTF-8.
pub open spec fn literal_run(bytes: Seq<u8>, from: int, to: int) -> Result<
    Seq<SegmentView>,
    ParseErrorView,
> {
    let run = bytes.subrange(from, to);
    if run.len() == 0 {
        Ok(Seq::empty())
    } else if !valid_utf8(run) {
        Err(ParseErrorView::InvalidUtf8)
    } else {
        Ok(seq![SegmentView::Text(decode_utf8(run))])
    }
}

/// The segments of the rules text that starts at byte offset `at`, or why
/// there are none: the grammar of rules text.
///
/// Prose runs to the next `{` and is kept as it stands. A `{` opens a group
/// that runs to the next `}`; the bytes between them must spell a symbol.
/// The first fault ends the reading.
pub open spec fn scan_rules(bytes: Seq<u8>, at: int) -> Result<Seq<SegmentView>, ParseErrorView>
    decreases bytes.len() - at,
    via scan_rules_decreases
{
    if at < 0 || at >= bytes.len() {
        Ok(Seq::empty())
    } else {
        match first_index_of(bytes, OPEN_BRACE, at) {
            None => literal_run(bytes, at, bytes.len() as int),
            Some(open) => match literal_run(bytes, at, open) {
                Err(e) => Err(e),
                Ok(prose) => match first_index_of(bytes, CLOSE_BRACE, open + 1) {
                    None => Err(ParseErrorView::UnclosedBrace { position: open as nat }),
                    Some(close) => {
                        let body = bytes.subrange(open + 1, close);
                        if !valid_utf8(body) {
                            Err(ParseErrorView::InvalidUtf8)
                        } else {
                            match resolve_action(body) {
                                None => Err(
                                    ParseErrorView::UnknownSymbol { symbol: decode_utf8(body) },
                                ),
                                Some(symbol) => after(
                                    prose + seq![SegmentView::Symbol(symbol)],
                                    scan_rules(bytes, close + 1),
                                ),
                            }
                        }
                    },
                },
            },
        }
    }
}

#[via_fn]
proof fn scan_rules_decreases(bytes: Seq<u8>, at: int) {
    if 0 <= at < bytes.len() {
        lemma_first_index_of(bytes, OPEN_BRACE, at);
        match first_index_of(bytes, OPEN_BRACE, at) {
            Some(open) => lemma_first_index_of(bytes, CLOSE_BRACE, open + 1),
            None => {},
        }
    }
}

/// The segments that a whole rules text denotes, or the first fault in it.
pub open spec fn rules_segments(bytes: Seq<u8>) -> Result<Seq<SegmentView>, ParseErrorView> {
    scan_rules(bytes, 0)
}

/// The printed form of one segment: prose as it stands, a symbol under its
/// one spelling and in its braces.
pub open spec fn segment_text(segment: SegmentView) -> Seq<u8> {
    match segment {
        SegmentView::Text(text) => encode_utf8(text),
        SegmentView::Symbol(symbol) => bracketed(mana_spelling(symbol)),
    }
}

/// The printed form of a row of segments.
pub open spec fn rules_text_bytes(segments: Seq<SegmentView>) -> Seq<u8>
    decreases segments.len(),
{
    if segments.len() == 0 {
        Seq::empty()
    } else {
        rules_text_bytes(segments.drop_last()) + segment_text(segments.last())
    }
}

/// The printed form of rules text is well-formed UTF-8.
pub proof fn lemma_rules_text_is_utf8(segments: Seq<SegmentView>)
    ensures
        valid_utf8(rules_text_bytes(segments)),
    decreases segments.len(),
{
    if segments.len() > 0 {
        lemma_rules_text_is_utf8(segments.drop_last());
        match segments.last() {
            SegmentView::Text(text) => {
                encode_utf8_valid_utf8(text);
            },
            SegmentView::Symbol(symbol) => {
                symbol.lemma_spelling();
                let group = bracketed(mana_spelling(symbol));
                assert forall|i: int| 0 <= i < group.len() implies #[trigger] group[i] < 0x80 by {
                    if 0 < i < group.len() - 1 {
                        assert(group[i] == mana_spelling(symbol)[i - 1]);
                    }
                }
                lemma_ascii_is_utf8(group);
            },
        }
        valid_utf8_concat(rules_text_bytes(segments.drop_last()), segment_text(segments.last()));
    }
}

/// The owned text of a literal run.
fn read_literal(input: &[u8], from: usize, to: usize) -> (r: Result<
    Option<RulesTextSegment>,
    ManaCostParseError,
>)
    requires
        from <= to <= input.len(),
    ensures
        match r {
            Ok(None) => literal_run(input@, from as int, to as int) == Ok::<
                Seq<SegmentView>,
                ParseErrorView,
            >(Seq::empty()),
            Ok(Some(segment)) => literal_run(input@, from as int, to as int) == Ok::<
                Seq<SegmentView>,
                ParseErrorView,
            >(seq![segment@]),
            Err(e) => literal_run(input@, from as int, to as int) == Err::<
                Seq<SegmentView>,
                ParseErrorView,
            >(e@),
        },
{
    if from == to {
        return Ok(None);
    }
    match str_from_utf8(&input[from..to]) {
        None => Err(ManaCostParseError::InvalidUtf8),
        Some(text) => {
            proof {
                encode_utf8_decode_utf8(text@);
            }
            Ok(Some(RulesTextSegment::Text(text.to_owned())))
        },
    }
}

impl RulesText {
    /// Reads rules text. The encoding of text is never at fault.
    pub fn parse(input: &str) -> (r: Result<Self, ManaCostParseError>)
        ensures
            result_view(r) == rules_segments(input.spec_bytes()),
            !(r matches Err(ManaCostParseError::InvalidUtf8)),
    {
        proof {
            encode_utf8_valid_utf8(input@);
            lemma_rules_text_is_well_formed(input.spec_bytes(), 0);
        }
        Self::parse_bytes(input.as_bytes())
    }

    /// Reads rules text from bytes.
    pub fn parse_bytes(input: &[u8]) -> (r: Result<Self, ManaCostParseError>)
        ensures
            result_view(r) == rules_segments(input@),
    {
        let mut segments: Vec<RulesTextSegment> = Vec::new();
        let ghost view = |s: RulesTextSegment| s@;
        let mut i: usize = 0;
        assert(after(segments@.map_values(view), scan_rules(input@, 0)) =~= scan_rules(input@, 0))
            by {
            match scan_rules(input@, 0) {
                Ok(more) => assert(segments@.map_values(view) + more =~= more),
                Err(_) => {},
            }
        }
        while i < input.len()
            invariant
                i <= input.len(),
                view == |s: RulesTextSegment| s@,
                rules_segments(input@) == after(
                    segments@.map_values(view),
                    scan_rules(input@, i as int),
                ),
            decreases input.len() - i,
        {
            let ghost done = segments@.map_values(view);
            proof {
                lemma_first_index_of(input@, OPEN_BRACE, i as int);
            }
            match find_byte(input, OPEN_BRACE, i) {
                None => {
                    match read_literal(input, i, input.len()) {
                        Err(e) => {
                            return Err(e);
                        },
                        Ok(None) => {},
                        Ok(Some(segment)) => {
                            segments.push(segment);
                            assert(segments@.map_values(view) =~= done + seq![segment@]);
                        },
                    }
                    assert(segments@.map_values(view) + Seq::<SegmentView>::empty()
                        =~= segments@.map_values(view));
                    i = input.len();
                },
                Some(open) => {
                    let ghost prose = literal_run(input@, i as int, open as int);
                    match read_literal(input, i, open) {
                        Err(e) => {
                            return Err(e);
                        },
                        Ok(None) => {},
                        Ok(Some(segment)) => {
                            segments.push(segment);
                            assert(segments@.map_values(view) =~= done + seq![segment@]);
                        },
                    }
                    assert(segments@.map_values(view) =~= done + prose->Ok_0);
                    proof {
                        lemma_first_index_of(input@, CLOSE_BRACE, open + 1);
                    }
                    match find_byte(input, CLOSE_BRACE, open + 1) {
                        None => {
                            return Err(ManaCostParseError::UnclosedBrace { position: open });
                        },
                        Some(close) => {
                            let body = &input[open + 1..close];
                            match str_from_utf8(body) {
                                None => {
                                    return Err(ManaCostParseError::InvalidUtf8);
                                },
                                Some(content) => {
                                    match ManaSymbol::from_spelling(body) {
                                        None => {
                                            proof {
                                                encode_utf8_decode_utf8(content@);
                                            }
                                            return Err(
                                                ManaCostParseError::UnknownSymbol {
                                                    symbol: content.to_owned(),
                                                },
                                            );
                                        },
                                        Some(symbol) => {
                                            let ghost before = segments@.map_values(view);
                                            segments.push(RulesTextSegment::Symbol(symbol));
                                            proof {
                                                let group = seq![SegmentView::Symbol(symbol)];
                                                assert(segments@.map_values(view) =~= before
                                                    + group);
                                                match scan_rules(input@, close + 1) {
                                                    Ok(more) => assert(done + ((prose->Ok_0
                                                        + group) + more) =~= (before + group)
                                                        + more),
                                                    Err(_) => {},
                                                }
                                            }
                                            i = close + 1;
                                        },
                                    }
                                },
                            }
                        },
                    }
                },
            }
        }
        assert(segments@.map_values(view) + Seq::<SegmentView>::empty() =~= segments@.map_values(
            view,
        ));
        Ok(RulesText { segments })
    }

    /// How many segments there are.
    pub fn len(&self) -> (r: usize)
        ensures
            r == self@.len(),
    {
        self.segments.len()
    }

    /// Whether there is no segment at all.
    pub fn is_empty(&self) -> (r: bool)
        ensures
            r == (self@.len() == 0),
    {
        self.segments.len() == 0
    }

    /// The rules text as it is printed: prose as it stands, each symbol under
    /// its one spelling and in its braces.
    pub fn to_string(&self) -> (r: String)
        ensures
            encode_utf8(r@) == rules_text_bytes(self@),
    {
        let mut out: Vec<u8> = Vec::new();
        let mut i: usize = 0;
        assert(self@.take(0) =~= Seq::<SegmentView>::empty());
        while i < self.segments.len()
            invariant
                i <= self.segments.len(),
                out@ == rules_text_bytes(self@.take(i as int)),
            decreases self.segments.len() - i,
        {
            let ghost before = self@.take(i as int);
            let ghost next = self@.take(i + 1);
            assert(next.drop_last() =~= before);
            assert(next.last() == self.segments@[i as int]@);
            match &self.segments[i] {
                RulesTextSegment::Text(text) => {
                    out.extend_from_slice(text.as_str().as_bytes());
                },
                RulesTextSegment::Symbol(symbol) => {
                    push_symbol(&mut out, *symbol);
                },
            }
            i = i + 1;
        }
        proof {
            assert(self@.take(i as int) =~= self@);
            lemma_rules_text_is_utf8(self@);
        }
        string_from_utf8(out.as_slice())
    }
}

/// In text, no stretch is malformed: reading a `str` never fails for its
/// encoding.
pub proof fn lemma_rules_text_is_well_formed(bytes: Seq<u8>, at: int)
    requires
        valid_utf8(bytes),
        0 <= at,
        at < bytes.len() ==> is_char_boundary(bytes, at),
    ensures
        scan_rules(bytes, at) != Err::<Seq<SegmentView>, ParseErrorView>(
            ParseErrorView::InvalidUtf8,
        ),
    decreases bytes.len() - at,
{
    if at < bytes.len() {
        lemma_first_index_of(bytes, OPEN_BRACE, at);
        match first_index_of(bytes, OPEN_BRACE, at) {
            None => {
                is_char_boundary_start_end_of_seq(bytes);
                lemma_utf8_slice(bytes, at, bytes.len() as int);
            },
            Some(open) => {
                lemma_ascii_boundary(bytes, open);
                lemma_utf8_slice(bytes, at, open);
                lemma_first_index_of(bytes, CLOSE_BRACE, open + 1);
                match first_index_of(bytes, CLOSE_BRACE, open + 1) {
                    None => {},
                    Some(close) => {
                        lemma_ascii_boundary(bytes, close);
                        lemma_utf8_slice(bytes, open + 1, close);
                        lemma_rules_text_is_well_formed(bytes, close + 1);
                    },
                }
            },
        }
    }
}

} // verus!
