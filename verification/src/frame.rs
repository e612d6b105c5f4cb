//! What a card's values decide about its looks: the colour of its frame and
//! the names under which its symbols and its rarity are drawn.

use crate::ascii::{decimal_string, decimal_text, SLASH};
use crate::card::Rarity;
use crate::cost::CastingManaCost;
use crate::loyalty::LoyaltyCost;
use crate::symbol::{CastingManaSymbol, CostSymbol};
use crate::text::{is_ascii_bytes, lemma_ascii_is_utf8, string_from_utf8};
use vstd::prelude::*;
use vstd::string::*;
use vstd::utf8::*;

verus! {

/// One of the five colours.
#[derive(Debug, Clone, Copy, PartialEq, Eq, Structural)]
pub enum Color {
    White,
    Blue,
    Black,
    Red,
    Green,
}

/// The colour of a card's frame.
#[derive(Debug, Clone, Copy, PartialEq, Eq, Structural)]
pub enum FrameColor {
    /// No cost at all.
    Land,
    /// No colour, and colourless mana asked for.
    Colorless,
    /// No colour: generic mana only, or nothing.
    Artifact,
    White,
    Blue,
    Black,
    Red,
    Green,
    /// More than one colour.
    Gold,
}

/// The colour that a symbol gives the frame. A hybrid gives the first of
/// its two colours only.
pub open spec fn tint(symbol: CastingManaSymbol) -> Option<Color> {
    match symbol {
        CastingManaSymbol::White
        | CastingManaSymbol::WhiteBlue
        | CastingManaSymbol::WhiteBlack
        | CastingManaSymbol::WhiteRed
        | CastingManaSymbol::WhiteGreen
        | CastingManaSymbol::TwoWhite
        | CastingManaSymbol::PhyrexianWhite => Some(Color::White),
        CastingManaSymbol::Blue
        | CastingManaSymbol::BlueBlack
        | CastingManaSymbol::BlueRed
        | CastingManaSymbol::BlueGreen
        | CastingManaSymbol::TwoBlue
        | CastingManaSymbol::PhyrexianBlue => Some(Color::Blue),
        CastingManaSymbol::Black
        | CastingManaSymbol::BlackRed
        | CastingManaSymbol::BlackGreen
        | CastingManaSymbol::TwoBlack
        | CastingManaSymbol::PhyrexianBlack => Some(Color::Black),
        CastingManaSymbol::Red
        | CastingManaSymbol::RedGreen
        | CastingManaSymbol::TwoRed
        | CastingManaSymbol::PhyrexianRed => Some(Color::Red),
        CastingManaSymbol::Green
        | CastingManaSymbol::TwoGreen
        | CastingManaSymbol::PhyrexianGreen => Some(Color::Green),
        _ => None,
    }
}

/// Whether some symbol of the cost gives the frame this colour.
pub open spec fn tinted(symbols: Seq<CastingManaSymbol>, color: Color) -> bool {
    exists|i: int| 0 <= i < symbols.len() && tint(#[trigger] symbols[i]) == Some(color)
}

/// Whether the cost asks for colourless mana.
pub open spec fn asks_colorless(symbols: Seq<CastingManaSymbol>) -> bool {
    exists|i: int| 0 <= i < symbols.len() && #[trigger] symbols[i] == CastingManaSymbol::Colorless
}

/// One where the condition holds, else none.
pub open spec fn one_if(condition: bool) -> nat {
    if condition {
        1
    } else {
        0
    }
}

/// How many of the five colours the cost gives the frame.
pub open spec fn tint_count(symbols: Seq<CastingManaSymbol>) -> nat {
    one_if(tinted(symbols, Color::White)) + one_if(tinted(symbols, Color::Blue)) + one_if(
        tinted(symbols, Color::Black),
    ) + one_if(tinted(symbols, Color::Red)) + one_if(tinted(symbols, Color::Green))
}

/// The frame that a cost calls for: the frame of a land where there is no
/// cost; without a colour, the colourless frame where colourless mana is
/// asked for and the artifact frame where it is not; the frame of the one
/// colour; gold for more than one.
pub open spec fn frame_of(cost: Option<Seq<CastingManaSymbol>>) -> FrameColor {
    match cost {
        None => FrameColor::Land,
        Some(symbols) => if tint_count(symbols) == 0 {
            if asks_colorless(symbols) {
                FrameColor::Colorless
            } else {
                FrameColor::Artifact
            }
        } else if tint_count(symbols) > 1 {
            FrameColor::Gold
        } else if tinted(symbols, Color::White) {
            FrameColor::White
        } else if tinted(symbols, Color::Blue) {
            FrameColor::Blue
        } else if tinted(symbols, Color::Black) {
            FrameColor::Black
        } else if tinted(symbols, Color::Red) {
            FrameColor::Red
        } else {
            FrameColor::Green
        },
    }
}

/// The name of a frame.
pub open spec fn frame_name(frame: FrameColor) -> Seq<char> {
    match frame {
        FrameColor::Land => "land"@,
        FrameColor::Colorless => "colorless"@,
        FrameColor::Artifact => "artifact"@,
        FrameColor::White => "white"@,
        FrameColor::Blue => "blue"@,
        FrameColor::Black => "black"@,
        FrameColor::Red => "red"@,
        FrameColor::Green => "green"@,
        FrameColor::Gold => "gold"@,
    }
}

impl FrameColor {
    /// The name of the frame.
    pub fn name(self) -> (r: &'static str)
        ensures
            r@ == frame_name(self),
    {
        match self {
            FrameColor::Land => "land",
            FrameColor::Colorless => "colorless",
            FrameColor::Artifact => "artifact",
            FrameColor::White => "white",
            FrameColor::Blue => "blue",
            FrameColor::Black => "black",
            FrameColor::Red => "red",
            FrameColor::Green => "green",
            FrameColor::Gold => "gold",
        }
    }
}

/// The colour that a symbol gives the frame.
pub fn symbol_tint(symbol: CastingManaSymbol) -> (r: Option<Color>)
    ensures
        r == tint(symbol),
{
    match symbol {
        CastingManaSymbol::White
        | CastingManaSymbol::WhiteBlue
        | CastingManaSymbol::WhiteBlack
        | CastingManaSymbol::WhiteRed
        | CastingManaSymbol::WhiteGreen
        | CastingManaSymbol::TwoWhite
        | CastingManaSymbol::PhyrexianWhite => Some(Color::White),
        CastingManaSymbol::Blue
        | CastingManaSymbol::BlueBlack
        | CastingManaSymbol::BlueRed
        | CastingManaSymbol::BlueGreen
        | CastingManaSymbol::TwoBlue
        | CastingManaSymbol::PhyrexianBlue => Some(Color::Blue),
        CastingManaSymbol::Black
        | CastingManaSymbol::BlackRed
        | CastingManaSymbol::BlackGreen
        | CastingManaSymbol::TwoBlack
        | CastingManaSymbol::PhyrexianBlack => Some(Color::Black),
        CastingManaSymbol::Red
        | CastingManaSymbol::RedGreen
        | CastingManaSymbol::TwoRed
        | CastingManaSymbol::PhyrexianRed => Some(Color::Red),
        CastingManaSymbol::Green
        | CastingManaSymbol::TwoGreen
        | CastingManaSymbol::PhyrexianGreen => Some(Color::Green),
        _ => None,
    }
}

/// A colour is given by a longer cost exactly when the shorter cost gives
/// it or the added symbol does.
proof fn lemma_tinted_step(symbols: Seq<CastingManaSymbol>, k: int, color: Color)
    requires
        0 <= k < symbols.len(),
    ensures
        tinted(symbols.take(k + 1), color) == (tinted(symbols.take(k), color) || tint(symbols[k])
            == Some(color)),
{
    let shorter = symbols.take(k);
    let longer = symbols.take(k + 1);
    if tinted(shorter, color) {
        let i = choose|i: int| 0 <= i < shorter.len() && tint(#[trigger] shorter[i]) == Some(color);
        assert(tint(longer[i]) == Some(color));
    }
    if tint(symbols[k]) == Some(color) {
        assert(tint(longer[k]) == Some(color));
    }
    if tinted(longer, color) {
        let i = choose|i: int| 0 <= i < longer.len() && tint(#[trigger] longer[i]) == Some(color);
        if i < k {
            assert(tint(shorter[i]) == Some(color));
        }
    }
}

/// Colourless mana is asked for by a longer cost exactly when the shorter
/// cost asks for it or the added symbol does.
proof fn lemma_asks_colorless_step(symbols: Seq<CastingManaSymbol>, k: int)
    requires
        0 <= k < symbols.len(),
    ensures
        asks_colorless(symbols.take(k + 1)) == (asks_colorless(symbols.take(k)) || symbols[k]
            == CastingManaSymbol::Colorless),
{
    let shorter = symbols.take(k);
    let longer = symbols.take(k + 1);
    if asks_colorless(shorter) {
        let i = choose|i: int|
            0 <= i < shorter.len() && #[trigger] shorter[i] == CastingManaSymbol::Colorless;
        assert(longer[i] == CastingManaSymbol::Colorless);
    }
    if symbols[k] == CastingManaSymbol::Colorless {
        assert(longer[k] == CastingManaSymbol::Colorless);
    }
    if asks_colorless(longer) {
        let i = choose|i: int|
            0 <= i < longer.len() && #[trigger] longer[i] == CastingManaSymbol::Colorless;
        if i < k {
            assert(shorter[i] == CastingManaSymbol::Colorless);
        }
    }
}

/// The frame that a cost calls for.
pub fn frame_color(mana_cost: &Option<CastingManaCost>) -> (r: FrameColor)
    ensures
        r == frame_of(mana_cost.deep_view()),
{
    let cost = match mana_cost {
        None => {
            return FrameColor::Land;
        },
        Some(cost) => cost,
    };
    let mut white = false;
    let mut blue = false;
    let mut black = false;
    let mut red = false;
    let mut green = false;
    let mut colorless = false;
    let mut i: usize = 0;
    while i < cost.symbols.len()
        invariant
            i <= cost.symbols.len(),
            white == tinted(cost@.take(i as int), Color::White),
            blue == tinted(cost@.take(i as int), Color::Blue),
            black == tinted(cost@.take(i as int), Color::Black),
            red == tinted(cost@.take(i as int), Color::Red),
            green == tinted(cost@.take(i as int), Color::Green),
            colorless == asks_colorless(cost@.take(i as int)),
        decreases cost.symbols.len() - i,
    {
        proof {
            lemma_tinted_step(cost@, i as int, Color::White);
            lemma_tinted_step(cost@, i as int, Color::Blue);
            lemma_tinted_step(cost@, i as int, Color::Black);
            lemma_tinted_step(cost@, i as int, Color::Red);
            lemma_tinted_step(cost@, i as int, Color::Green);
            lemma_asks_colorless_step(cost@, i as int);
        }
        match symbol_tint(cost.symbols[i]) {
            Some(Color::White) => {
                white = true;
            },
            Some(Color::Blue) => {
                blue = true;
            },
            Some(Color::Black) => {
                black = true;
            },
            Some(Color::Red) => {
                red = true;
            },
            Some(Color::Green) => {
                green = true;
            },
            None => {
                if cost.symbols[i] == CastingManaSymbol::Colorless {
                    colorless = true;
                }
            },
        }
        i = i + 1;
    }
    assert(cost@.take(i as int) =~= cost@);
    let mut count: u8 = 0;
    if white {
        count = count + 1;
    }
    if blue {
        count = count + 1;
    }
    if black {
        count = count + 1;
    }
    if red {
        count = count + 1;
    }
    if green {
        count = count + 1;
    }
    assert(count as nat == tint_count(cost@));
    if count == 0 {
        if colorless {
            FrameColor::Colorless
        } else {
            FrameColor::Artifact
        }
    } else if count > 1 {
        FrameColor::Gold
    } else if white {
        FrameColor::White
    } else if blue {
        FrameColor::Blue
    } else if black {
        FrameColor::Black
    } else if red {
        FrameColor::Red
    } else {
        FrameColor::Green
    }
}

/// The name of the frame that a cost calls for.
pub fn derive_frame_color(mana_cost: &Option<CastingManaCost>) -> (r: &'static str)
    ensures
        r@ == frame_name(frame_of(mana_cost.deep_view())),
{
    frame_color(mana_cost).name()
}

/// A spelling with its slash left out.
pub open spec fn without_slash(spelling: Seq<u8>) -> Seq<u8> {
    spelling.filter(|b: u8| b != SLASH)
}

/// The name under which a symbol's picture is kept: its spelling with the
/// slash left out.
pub fn symbol_code<S: CostSymbol>(symbol: S) -> (r: String)
    ensures
        encode_utf8(r@) == without_slash(symbol.spelling()),
{
    let ghost keep = |b: u8| b != SLASH;
    let mut spelling: Vec<u8> = Vec::new();
    symbol.push_spelling(&mut spelling);
    proof {
        symbol.lemma_spelling();
        assert(spelling@ =~= symbol.spelling());
    }
    let mut out: Vec<u8> = Vec::new();
    let mut i: usize = 0;
    assert(spelling@.take(0) =~= Seq::<u8>::empty());
    while i < spelling.len()
        invariant
            i <= spelling.len(),
            keep == |b: u8| b != SLASH,
            is_ascii_bytes(spelling@),
            is_ascii_bytes(out@),
            out@ == spelling@.take(i as int).filter(keep),
        decreases spelling.len() - i,
    {
        let ghost before = spelling@.take(i as int);
        let ghost one = seq![spelling@[i as int]];
        proof {
            assert(spelling@.take(i + 1) =~= before + one);
            Seq::filter_distributes_over_add(before, one, keep);
            assert(one.drop_last() =~= Seq::<u8>::empty());
            reveal_with_fuel(Seq::filter, 2);
            assert(one.filter(keep) =~= if keep(spelling@[i as int]) {
                one
            } else {
                Seq::<u8>::empty()
            });
        }
        let ghost old_out = out@;
        if spelling[i] != SLASH {
            out.push(spelling[i]);
            assert(out@ =~= old_out + one);
            assert(spelling@[i as int] < 0x80);
        } else {
            assert(out@ =~= old_out + Seq::<u8>::empty());
        }
        i = i + 1;
    }
    proof {
        assert(spelling@.take(i as int) =~= spelling@);
        lemma_ascii_is_utf8(out@);
    }
    string_from_utf8(out.as_slice())
}

/// The name of the style in which a rarity is drawn.
pub open spec fn rarity_class_of(rarity: Rarity) -> Seq<char> {
    match rarity {
        Rarity::Common => "rarity-common"@,
        Rarity::Uncommon => "rarity-uncommon"@,
        Rarity::Rare => "rarity-rare"@,
        Rarity::Mythic => "rarity-mythic"@,
    }
}

/// The name of the style in which a rarity is drawn.
pub fn rarity_class(rarity: Rarity) -> (r: &'static str)
    ensures
        r@ == rarity_class_of(rarity),
{
    match rarity {
        Rarity::Common => "rarity-common",
        Rarity::Uncommon => "rarity-uncommon",
        Rarity::Rare => "rarity-rare",
        Rarity::Mythic => "rarity-mythic",
    }
}

/// The name of the style in which a loyalty cost is drawn: by its sign.
pub open spec fn loyalty_class_of(cost: LoyaltyCost) -> Seq<char> {
    match cost {
        LoyaltyCost::Plus(_) | LoyaltyCost::PlusX => "loyalty-cost-plus"@,
        LoyaltyCost::Minus(_) | LoyaltyCost::MinusX => "loyalty-cost-minus"@,
        LoyaltyCost::Zero => "loyalty-cost-zero"@,
    }
}

/// The name of the style in which a loyalty cost is drawn.
pub fn loyalty_class(cost: LoyaltyCost) -> (r: &'static str)
    ensures
        r@ == loyalty_class_of(cost),
{
    match cost {
        LoyaltyCost::Plus(_) | LoyaltyCost::PlusX => "loyalty-cost-plus",
        LoyaltyCost::Minus(_) | LoyaltyCost::MinusX => "loyalty-cost-minus",
        LoyaltyCost::Zero => "loyalty-cost-zero",
    }
}

/// What stands beside a saga chapter: its number, or for an ability of
/// several chapters the first and the last with a hyphen between them. A
/// chapter without a number counts as the first.
pub open spec fn chapter_label_of(chapters: Seq<u32>) -> Seq<char> {
    if chapters.len() == 1 {
        decimal_text(chapters[0] as nat)
    } else if chapters.len() == 0 {
        decimal_text(1) + "-"@ + decimal_text(1)
    } else {
        decimal_text(chapters[0] as nat) + "-"@ + decimal_text(chapters.last() as nat)
    }
}

/// What stands beside a saga chapter.
pub fn chapter_label(chapters: &Vec<u32>) -> (r: String)
    ensures
        r@ == chapter_label_of(chapters@),
{
    let n = chapters.len();
    if n == 1 {
        return decimal_string(chapters[0] as u64);
    }
    let first: u32 = if n == 0 {
        1
    } else {
        chapters[0]
    };
    let last: u32 = if n == 0 {
        1
    } else {
        chapters[n - 1]
    };
    let mut label = decimal_string(first as u64);
    label.append("-");
    let end = decimal_string(last as u64);
    label.append(end.as_str());
    label
}

/// What stands above a class level: the first level in brackets, every
/// other with its number.
pub open spec fn level_label_of(level: u32) -> Seq<char> {
    if level == 1 {
        "(Level 1)"@
    } else {
        "Level "@ + decimal_text(level as nat)
    }
}

/// What stands above a class level.
pub fn level_label(level: u32) -> (r: String)
    ensures
        r@ == level_label_of(level),
{
    if level == 1 {
        "(Level 1)".to_owned()
    } else {
        let mut label = "Level ".to_owned();
        let number = decimal_string(level as u64);
        label.append(number.as_str());
        label
    }
}

} // verus!
