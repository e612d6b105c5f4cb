//! What can go wrong while a cost or a rules text is read.

use crate::ascii::{decimal_string, decimal_text};
use crate::text::push_char;
use vstd::prelude::*;
use vstd::string::*;
use vstd::utf8::*;

verus! {

/// Why a cost or a rules text could not be read.
#[derive(Debug, Clone, PartialEq, Eq)]
pub enum ManaCostParseError {
    /// A `{` at byte offset `position` is never closed.
    UnclosedBrace { position: usize },
    /// A character outside any bracket group that is not whitespace, with
    /// the byte offset at which it starts.
    UnexpectedCharacter { character: char, position: usize },
    /// A bracket body that spells no symbol.
    UnknownSymbol { symbol: String },
    /// Bytes that are not well-formed UTF-8.
    InvalidUtf8,
}

/// The mathematical value of a [`ManaCostParseError`].
pub enum ParseErrorView {
    UnclosedBrace { position: nat },
    UnexpectedCharacter { character: char, position: nat },
    UnknownSymbol { symbol: Seq<char> },
    InvalidUtf8,
}

impl View for ManaCostParseError {
    type V = ParseErrorView;

    open spec fn view(&self) -> ParseErrorView {
        match *self {
            ManaCostParseError::UnclosedBrace { position } => ParseErrorView::UnclosedBrace {
                position: position as nat,
            },
            ManaCostParseError::UnexpectedCharacter {
                character,
                position,
            } => ParseErrorView::UnexpectedCharacter { character, position: position as nat },
            ManaCostParseError::UnknownSymbol { symbol } => ParseErrorView::UnknownSymbol {
                symbol: symbol@,
            },
            ManaCostParseError::InvalidUtf8 => ParseErrorView::InvalidUtf8,
        }
    }
}

/// The sentence that reports a fault.
pub open spec fn error_message(e: ParseErrorView) -> Seq<char> {
    match e {
        ParseErrorView::UnclosedBrace { position } => "Unclosed brace at position "@
            + decimal_text(position),
        ParseErrorView::UnexpectedCharacter { character, position } => "Unexpected character '"@
            + seq![character] + "' at position "@ + decimal_text(position),
        ParseErrorView::UnknownSymbol { symbol } => "Unknown mana symbol: "@ + symbol,
        ParseErrorView::InvalidUtf8 => "Invalid UTF-8 in mana cost"@,
    }
}

impl ManaCostParseError {
    /// The sentence that reports this fault.
    pub fn to_string(&self) -> (r: String)
        ensures
            r@ == error_message(self@),
    {
        match self {
            ManaCostParseError::UnclosedBrace { position } => {
                let mut message = "Unclosed brace at position ".to_owned();
                let digits = decimal_string(*position as u64);
                message.append(digits.as_str());
                message
            },
            ManaCostParseError::UnexpectedCharacter { character, position } => {
                let mut message = "Unexpected character '".to_owned();
                push_char(&mut message, *character);
                message.append("' at position ");
                let digits = decimal_string(*position as u64);
                message.append(digits.as_str());
                assert(message@ =~= error_message(self@));
                message
            },
            ManaCostParseError::UnknownSymbol { symbol } => {
                let mut message = "Unknown mana symbol: ".to_owned();
                message.append(symbol.as_str());
                message
            },
            ManaCostParseError::InvalidUtf8 => "Invalid UTF-8 in mana cost".to_owned(),
        }
    }
}

} // verus!
