//! The symbol table: every symbol, the spellings under which it is read and
//! the one spelling under which it is printed.

use crate::ascii::{
    decimal_digits, is_digit, lemma_decimal_round_trip, parse_unsigned, push_decimal,
    is_ascii_space, unsigned_decimal, CLOSE_BRACE, OPEN_BRACE, SLASH,
};
use crate::text::is_ascii_bytes;
use vstd::prelude::*;

verus! {

/// A symbol that may stand in a casting cost.
#[derive(Debug, Clone, Copy, PartialEq, Eq, Hash, Structural)]
pub enum CastingManaSymbol {
    White,
    Blue,
    Black,
    Red,
    Green,
    Colorless,
    /// A number of mana of any kind.
    Generic(u32),
    X,
    Y,
    Z,
    Snow,
    // Hybrid: either of two colours.
    WhiteBlue,
    WhiteBlack,
    WhiteRed,
    WhiteGreen,
    BlueBlack,
    BlueRed,
    BlueGreen,
    BlackRed,
    BlackGreen,
    RedGreen,
    // Twobrid: two generic mana or one of a colour.
    TwoWhite,
    TwoBlue,
    TwoBlack,
    TwoRed,
    TwoGreen,
    // Phyrexian: one of a colour or life.
    PhyrexianWhite,
    PhyrexianBlue,
    PhyrexianBlack,
    PhyrexianRed,
    PhyrexianGreen,
}

/// Any symbol that may stand in an action cost or in rules text.
#[derive(Debug, Clone, Copy, PartialEq, Eq, Hash, Structural)]
pub enum ManaSymbol {
    Casting(CastingManaSymbol),
    Tap,
    Untap,
    Energy,
    Chaos,
}

/// The spelling made of one letter.
pub open spec fn letter(c: char) -> Seq<u8> {
    seq![c as u8]
}

/// The spelling made of two letters with a slash between them.
pub open spec fn slashed(a: char, b: char) -> Seq<u8> {
    seq![a as u8, SLASH, b as u8]
}

/// The spelling of the chaos symbol.
pub open spec fn chaos_spelling() -> Seq<u8> {
    seq!['C' as u8, 'H' as u8, 'A' as u8, 'O' as u8, 'S' as u8]
}

/// One of the five colour letters.
pub open spec fn is_color_letter(c: char) -> bool {
    c == 'W' || c == 'U' || c == 'B' || c == 'R' || c == 'G'
}

/// The symbol that a single byte spells.
pub open spec fn letter_symbol(b: u8) -> Option<CastingManaSymbol> {
    match b as char {
        'W' => Some(CastingManaSymbol::White),
        'U' => Some(CastingManaSymbol::Blue),
        'B' => Some(CastingManaSymbol::Black),
        'R' => Some(CastingManaSymbol::Red),
        'G' => Some(CastingManaSymbol::Green),
        'C' => Some(CastingManaSymbol::Colorless),
        'X' => Some(CastingManaSymbol::X),
        'Y' => Some(CastingManaSymbol::Y),
        'Z' => Some(CastingManaSymbol::Z),
        'S' => Some(CastingManaSymbol::Snow),
        _ => None,
    }
}

/// The symbol that two bytes with a slash between them spell. A hybrid is
/// read in either order of its two colours.
pub open spec fn slashed_symbol(a: u8, b: u8) -> Option<CastingManaSymbol> {
    match (a as char, b as char) {
        ('W', 'U') | ('U', 'W') => Some(CastingManaSymbol::WhiteBlue),
        ('W', 'B') | ('B', 'W') => Some(CastingManaSymbol::WhiteBlack),
        ('W', 'R') | ('R', 'W') => Some(CastingManaSymbol::WhiteRed),
        ('W', 'G') | ('G', 'W') => Some(CastingManaSymbol::WhiteGreen),
        ('U', 'B') | ('B', 'U') => Some(CastingManaSymbol::BlueBlack),
        ('U', 'R') | ('R', 'U') => Some(CastingManaSymbol::BlueRed),
        ('U', 'G') | ('G', 'U') => Some(CastingManaSymbol::BlueGreen),
        ('B', 'R') | ('R', 'B') => Some(CastingManaSymbol::BlackRed),
        ('B', 'G') | ('G', 'B') => Some(CastingManaSymbol::BlackGreen),
        ('R', 'G') | ('G', 'R') => Some(CastingManaSymbol::RedGreen),
        ('2', 'W') => Some(CastingManaSymbol::TwoWhite),
        ('2', 'U') => Some(CastingManaSymbol::TwoBlue),
        ('2', 'B') => Some(CastingManaSymbol::TwoBlack),
        ('2', 'R') => Some(CastingManaSymbol::TwoRed),
        ('2', 'G') => Some(CastingManaSymbol::TwoGreen),
        ('W', 'P') => Some(CastingManaSymbol::PhyrexianWhite),
        ('U', 'P') => Some(CastingManaSymbol::PhyrexianBlue),
        ('B', 'P') => Some(CastingManaSymbol::PhyrexianBlack),
        ('R', 'P') => Some(CastingManaSymbol::PhyrexianRed),
        ('G', 'P') => Some(CastingManaSymbol::PhyrexianGreen),
        _ => None,
    }
}

/// The casting symbol that a bracket body spells: a fixed spelling, matched
/// exactly and with regard to case, or else an unsigned decimal number that
/// fits 32 bits, which spells that much generic mana.
pub open spec fn resolve_casting(body: Seq<u8>) -> Option<CastingManaSymbol> {
    if body.len() == 1 && letter_symbol(body[0]) is Some {
        letter_symbol(body[0])
    } else if body.len() == 3 && body[1] == SLASH && slashed_symbol(body[0], body[2]) is Some {
        slashed_symbol(body[0], body[2])
    } else {
        match unsigned_decimal(body, u32::MAX as nat) {
            Some(n) => Some(CastingManaSymbol::Generic(n as u32)),
            None => None,
        }
    }
}

/// The symbol that a bracket body spells in an action cost or in rules text:
/// tap, untap, energy, chaos, or else whatever casting symbol it spells.
pub open spec fn resolve_action(body: Seq<u8>) -> Option<ManaSymbol> {
    if body == letter('T') {
        Some(ManaSymbol::Tap)
    } else if body == letter('Q') {
        Some(ManaSymbol::Untap)
    } else if body == letter('E') {
        Some(ManaSymbol::Energy)
    } else if body == chaos_spelling() {
        Some(ManaSymbol::Chaos)
    } else {
        match resolve_casting(body) {
            Some(s) => Some(ManaSymbol::Casting(s)),
            None => None,
        }
    }
}

/// The bracket body under which a casting symbol is printed.
pub open spec fn casting_spelling(sym: CastingManaSymbol) -> Seq<u8> {
    match sym {
        CastingManaSymbol::White => letter('W'),
        CastingManaSymbol::Blue => letter('U'),
        CastingManaSymbol::Black => letter('B'),
        CastingManaSymbol::Red => letter('R'),
        CastingManaSymbol::Green => letter('G'),
        CastingManaSymbol::Colorless => letter('C'),
        CastingManaSymbol::Generic(n) => decimal_digits(n as nat),
        CastingManaSymbol::X => letter('X'),
        CastingManaSymbol::Y => letter('Y'),
        CastingManaSymbol::Z => letter('Z'),
        CastingManaSymbol::Snow => letter('S'),
        CastingManaSymbol::WhiteBlue => slashed('W', 'U'),
        CastingManaSymbol::WhiteBlack => slashed('W', 'B'),
        CastingManaSymbol::WhiteRed => slashed('W', 'R'),
        CastingManaSymbol::WhiteGreen => slashed('W', 'G'),
        CastingManaSymbol::BlueBlack => slashed('U', 'B'),
        CastingManaSymbol::BlueRed => slashed('U', 'R'),
        CastingManaSymbol::BlueGreen => slashed('U', 'G'),
        CastingManaSymbol::BlackRed => slashed('B', 'R'),
        CastingManaSymbol::BlackGreen => slashed('B', 'G'),
        CastingManaSymbol::RedGreen => slashed('R', 'G'),
        CastingManaSymbol::TwoWhite => slashed('2', 'W'),
        CastingManaSymbol::TwoBlue => slashed('2', 'U'),
        CastingManaSymbol::TwoBlack => slashed('2', 'B'),
        CastingManaSymbol::TwoRed => slashed('2', 'R'),
        CastingManaSymbol::TwoGreen => slashed('2', 'G'),
        CastingManaSymbol::PhyrexianWhite => slashed('W', 'P'),
        CastingManaSymbol::PhyrexianBlue => slashed('U', 'P'),
        CastingManaSymbol::PhyrexianBlack => slashed('B', 'P'),
        CastingManaSymbol::PhyrexianRed => slashed('R', 'P'),
        CastingManaSymbol::PhyrexianGreen => slashed('G', 'P'),
    }
}

/// The bracket body under which a symbol is printed.
pub open spec fn mana_spelling(sym: ManaSymbol) -> Seq<u8> {
    match sym {
        ManaSymbol::Casting(s) => casting_spelling(s),
        ManaSymbol::Tap => letter('T'),
        ManaSymbol::Untap => letter('Q'),
        ManaSymbol::Energy => letter('E'),
        ManaSymbol::Chaos => chaos_spelling(),
    }
}

/// A spelling wrapped in its braces: the printed form of one symbol.
pub open spec fn bracketed(spelling: Seq<u8>) -> Seq<u8> {
    seq![OPEN_BRACE] + spelling + seq![CLOSE_BRACE]
}

/// What sets the symbols of one kind of cost apart: how a bracket body is
/// read and how a symbol is printed.
pub trait CostSymbol: Sized + Copy {
    /// The symbol that a bracket body spells, if it spells one.
    spec fn resolve(body: Seq<u8>) -> Option<Self>;

    /// The one bracket body under which the symbol is printed.
    spec fn spelling(self) -> Seq<u8>;

    /// Reads a bracket body.
    fn from_spelling(body: &[u8]) -> (r: Option<Self>)
        ensures
            r == Self::resolve(body@),
    ;

    /// Appends the symbol's spelling, without braces.
    fn push_spelling(self, out: &mut Vec<u8>)
        ensures
            final(out)@ == old(out)@ + self.spelling(),
    ;

    /// A printed spelling is read back as the symbol it was printed for. It
    /// is plain ASCII and holds neither a brace nor whitespace.
    proof fn lemma_spelling(self)
        ensures
            Self::resolve(self.spelling()) == Some(self),
            is_ascii_bytes(self.spelling()),
            forall|i: int|
                0 <= i < self.spelling().len() ==> #[trigger] self.spelling()[i] != OPEN_BRACE
                    && self.spelling()[i] != CLOSE_BRACE && !is_ascii_space(self.spelling()[i]),
    ;
}

/// The digits written for a number are digits: no letter, slash or brace.
proof fn lemma_decimal_digits_shape(n: nat)
    ensures
        decimal_digits(n).len() > 0,
        forall|i: int| 0 <= i < decimal_digits(n).len() ==> is_digit(#[trigger] decimal_digits(n)[i]),
{
    lemma_decimal_round_trip(n);
}

impl CostSymbol for CastingManaSymbol {
    open spec fn resolve(body: Seq<u8>) -> Option<Self> {
        resolve_casting(body)
    }

    open spec fn spelling(self) -> Seq<u8> {
        casting_spelling(self)
    }

    fn from_spelling(body: &[u8]) -> (r: Option<Self>) {
        assert(Self::resolve(body@) == resolve_casting(body@));
        if body.len() == 1 {
            let found = match body[0] as char {
                'W' => Some(CastingManaSymbol::White),
                'U' => Some(CastingManaSymbol::Blue),
                'B' => Some(CastingManaSymbol::Black),
                'R' => Some(CastingManaSymbol::Red),
                'G' => Some(CastingManaSymbol::Green),
                'C' => Some(CastingManaSymbol::Colorless),
                'X' => Some(CastingManaSymbol::X),
                'Y' => Some(CastingManaSymbol::Y),
                'Z' => Some(CastingManaSymbol::Z),
                'S' => Some(CastingManaSymbol::Snow),
                _ => None,
            };
            if found.is_some() {
                return found;
            }
        } else if body.len() == 3 && body[1] == SLASH {
            let found = match (body[0] as char, body[2] as char) {
                ('W', 'U') | ('U', 'W') => Some(CastingManaSymbol::WhiteBlue),
                ('W', 'B') | ('B', 'W') => Some(CastingManaSymbol::WhiteBlack),
                ('W', 'R') | ('R', 'W') => Some(CastingManaSymbol::WhiteRed),
                ('W', 'G') | ('G', 'W') => Some(CastingManaSymbol::WhiteGreen),
                ('U', 'B') | ('B', 'U') => Some(CastingManaSymbol::BlueBlack),
                ('U', 'R') | ('R', 'U') => Some(CastingManaSymbol::BlueRed),
                ('U', 'G') | ('G', 'U') => Some(CastingManaSymbol::BlueGreen),
                ('B', 'R') | ('R', 'B') => Some(CastingManaSymbol::BlackRed),
                ('B', 'G') | ('G', 'B') => Some(CastingManaSymbol::BlackGreen),
                ('R', 'G') | ('G', 'R') => Some(CastingManaSymbol::RedGreen),
                ('2', 'W') => Some(CastingManaSymbol::TwoWhite),
                ('2', 'U') => Some(CastingManaSymbol::TwoBlue),
                ('2', 'B') => Some(CastingManaSymbol::TwoBlack),
                ('2', 'R') => Some(CastingManaSymbol::TwoRed),
                ('2', 'G') => Some(CastingManaSymbol::TwoGreen),
                ('W', 'P') => Some(CastingManaSymbol::PhyrexianWhite),
                ('U', 'P') => Some(CastingManaSymbol::PhyrexianBlue),
                ('B', 'P') => Some(CastingManaSymbol::PhyrexianBlack),
                ('R', 'P') => Some(CastingManaSymbol::PhyrexianRed),
                ('G', 'P') => Some(CastingManaSymbol::PhyrexianGreen),
                _ => None,
            };
            if found.is_some() {
                return found;
            }
        }
        match parse_unsigned(body, u32::MAX) {
            Some(n) => Some(CastingManaSymbol::Generic(n)),
            None => None,
        }
    }

    fn push_spelling(self, out: &mut Vec<u8>) {
        match self {
            CastingManaSymbol::White => push_letter(out, 'W'),
            CastingManaSymbol::Blue => push_letter(out, 'U'),
            CastingManaSymbol::Black => push_letter(out, 'B'),
            CastingManaSymbol::Red => push_letter(out, 'R'),
            CastingManaSymbol::Green => push_letter(out, 'G'),
            CastingManaSymbol::Colorless => push_letter(out, 'C'),
            CastingManaSymbol::Generic(n) => push_decimal(out, n as u64),
            CastingManaSymbol::X => push_letter(out, 'X'),
            CastingManaSymbol::Y => push_letter(out, 'Y'),
            CastingManaSymbol::Z => push_letter(out, 'Z'),
            CastingManaSymbol::Snow => push_letter(out, 'S'),
            CastingManaSymbol::WhiteBlue => push_slashed(out, 'W', 'U'),
            CastingManaSymbol::WhiteBlack => push_slashed(out, 'W', 'B'),
            CastingManaSymbol::WhiteRed => push_slashed(out, 'W', 'R'),
            CastingManaSymbol::WhiteGreen => push_slashed(out, 'W', 'G'),
            CastingManaSymbol::BlueBlack => push_slashed(out, 'U', 'B'),
            CastingManaSymbol::BlueRed => push_slashed(out, 'U', 'R'),
            CastingManaSymbol::BlueGreen => push_slashed(out, 'U', 'G'),
            CastingManaSymbol::BlackRed => push_slashed(out, 'B', 'R'),
            CastingManaSymbol::BlackGreen => push_slashed(out, 'B', 'G'),
            CastingManaSymbol::RedGreen => push_slashed(out, 'R', 'G'),
            CastingManaSymbol::TwoWhite => push_slashed(out, '2', 'W'),
            CastingManaSymbol::TwoBlue => push_slashed(out, '2', 'U'),
            CastingManaSymbol::TwoBlack => push_slashed(out, '2', 'B'),
            CastingManaSymbol::TwoRed => push_slashed(out, '2', 'R'),
            CastingManaSymbol::TwoGreen => push_slashed(out, '2', 'G'),
            CastingManaSymbol::PhyrexianWhite => push_slashed(out, 'W', 'P'),
            CastingManaSymbol::PhyrexianBlue => push_slashed(out, 'U', 'P'),
            CastingManaSymbol::PhyrexianBlack => push_slashed(out, 'B', 'P'),
            CastingManaSymbol::PhyrexianRed => push_slashed(out, 'R', 'P'),
            CastingManaSymbol::PhyrexianGreen => push_slashed(out, 'G', 'P'),
        }
    }

    proof fn lemma_spelling(self) {
        if let CastingManaSymbol::Generic(n) = self {
            lemma_decimal_round_trip(n as nat);
            lemma_decimal_digits_shape(n as nat);
            let d = decimal_digits(n as nat);
            assert(is_digit(d[0]));
            if d.len() == 3 {
                assert(is_digit(d[1]));
            }
            assert(unsigned_decimal(d, u32::MAX as nat) == Some(n as nat));
        }
    }
}

impl CostSymbol for ManaSymbol {
    open spec fn resolve(body: Seq<u8>) -> Option<Self> {
        resolve_action(body)
    }

    open spec fn spelling(self) -> Seq<u8> {
        mana_spelling(self)
    }

    fn from_spelling(body: &[u8]) -> (r: Option<Self>) {
        proof {
            lemma_is_letter(body@, 'T');
            lemma_is_letter(body@, 'Q');
            lemma_is_letter(body@, 'E');
            lemma_is_chaos(body@);
            assert(Self::resolve(body@) == resolve_action(body@));
        }
        if body.len() == 1 && body[0] == 'T' as u8 {
            Some(ManaSymbol::Tap)
        } else if body.len() == 1 && body[0] == 'Q' as u8 {
            Some(ManaSymbol::Untap)
        } else if body.len() == 1 && body[0] == 'E' as u8 {
            Some(ManaSymbol::Energy)
        } else if body.len() == 5 && body[0] == 'C' as u8 && body[1] == 'H' as u8 && body[2]
            == 'A' as u8 && body[3] == 'O' as u8 && body[4] == 'S' as u8 {
            Some(ManaSymbol::Chaos)
        } else {
            match CastingManaSymbol::from_spelling(body) {
                Some(s) => Some(ManaSymbol::Casting(s)),
                None => None,
            }
        }
    }

    fn push_spelling(self, out: &mut Vec<u8>) {
        match self {
            ManaSymbol::Casting(s) => s.push_spelling(out),
            ManaSymbol::Tap => push_letter(out, 'T'),
            ManaSymbol::Untap => push_letter(out, 'Q'),
            ManaSymbol::Energy => push_letter(out, 'E'),
            ManaSymbol::Chaos => {
                out.push('C' as u8);
                out.push('H' as u8);
                out.push('A' as u8);
                out.push('O' as u8);
                out.push('S' as u8);
                assert(final(out)@ =~= old(out)@ + chaos_spelling());
            },
        }
    }

    proof fn lemma_spelling(self) {
        match self {
            ManaSymbol::Casting(s) => {
                s.lemma_spelling();
                let d = casting_spelling(s);
                if let CastingManaSymbol::Generic(n) = s {
                    lemma_decimal_digits_shape(n as nat);
                    assert(is_digit(d[0]));
                } else {
                    assert(d.len() == 1 || d.len() == 3);
                    assert(d.len() == 1 ==> d[0] != letter('T')[0] && d[0] != letter('Q')[0]
                        && d[0] != letter('E')[0]);
                }
                assert(d != letter('T')) by {
                    assert(d[0] != letter('T')[0] || d.len() != 1);
                }
                assert(d != letter('Q')) by {
                    assert(d[0] != letter('Q')[0] || d.len() != 1);
                }
                assert(d != letter('E')) by {
                    assert(d[0] != letter('E')[0] || d.len() != 1);
                }
                assert(d != chaos_spelling()) by {
                    assert(d[0] != chaos_spelling()[0] || d.len() != 5 || d[1]
                        != chaos_spelling()[1]);
                }
            },
            _ => {
                assert(letter('T')[0] != letter('Q')[0]);
                assert(letter('T')[0] != letter('E')[0]);
                assert(letter('Q')[0] != letter('E')[0]);
                assert(chaos_spelling().len() == 5);
            },
        }
    }
}

/// A body is a one-letter spelling exactly when it is that one byte.
pub proof fn lemma_is_letter(body: Seq<u8>, c: char)
    ensures
        body == letter(c) <==> body.len() == 1 && body[0] == c as u8,
{
    if body.len() == 1 && body[0] == c as u8 {
        assert(body =~= letter(c));
    }
    if body == letter(c) {
        assert(body.len() == 1);
        assert(body[0] == letter(c)[0]);
    }
}

/// A body is the chaos spelling exactly when it is those five bytes.
pub proof fn lemma_is_chaos(body: Seq<u8>)
    ensures
        body == chaos_spelling() <==> body.len() == 5 && body[0] == 'C' as u8 && body[1]
            == 'H' as u8 && body[2] == 'A' as u8 && body[3] == 'O' as u8 && body[4] == 'S' as u8,
{
    if body.len() == 5 && body[0] == 'C' as u8 && body[1] == 'H' as u8 && body[2] == 'A' as u8
        && body[3] == 'O' as u8 && body[4] == 'S' as u8 {
        assert(body =~= chaos_spelling());
    }
    if body == chaos_spelling() {
        assert(body.len() == 5);
        assert(body[0] == chaos_spelling()[0]);
        assert(body[1] == chaos_spelling()[1]);
        assert(body[2] == chaos_spelling()[2]);
        assert(body[3] == chaos_spelling()[3]);
        assert(body[4] == chaos_spelling()[4]);
    }
}

/// Appends a one-letter spelling.
fn push_letter(out: &mut Vec<u8>, c: char)
    requires
        c as u32 <= 0x7f,
    ensures
        final(out)@ == old(out)@ + letter(c),
{
    out.push(c as u8);
    assert(final(out)@ =~= old(out)@ + letter(c));
}

/// Appends a spelling of two letters with a slash between them.
fn push_slashed(out: &mut Vec<u8>, a: char, b: char)
    requires
        a as u32 <= 0x7f,
        b as u32 <= 0x7f,
    ensures
        final(out)@ == old(out)@ + slashed(a, b),
{
    out.push(a as u8);
    out.push(SLASH);
    out.push(b as u8);
    assert(final(out)@ =~= old(out)@ + slashed(a, b));
}

} // verus!
