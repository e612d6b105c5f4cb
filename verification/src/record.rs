//! A card as a record of strings: what a loader reads before anything in it
//! is understood, and what can go wrong when it is.

use crate::card::Rarity;
use crate::error::{ManaCostParseError, ParseErrorView};
use crate::proxy::{CastingManaCostProxy, LoyaltyCostProxy, LoyaltyValueProxy, RulesTextProxy};
use crate::text::str_equal;
use vstd::prelude::*;
use vstd::string::*;

verus! {

/// The shape of a card.
#[derive(Debug, Clone, Copy, PartialEq, Eq, Structural)]
pub enum CardKind {
    Normal,
    Planeswalker,
    Saga,
    Class,
    Adventure,
    Split,
    Flip,
    Transform,
    ModalDfc,
    Battle,
    Meld,
    Leveler,
    Prototype,
}

/// One loyalty ability as a record carries it.
#[derive(Debug, Clone)]
pub struct LoyaltyAbilityRecord {
    pub cost: LoyaltyCostProxy,
    pub text: RulesTextProxy,
}

/// One saga chapter as a record carries it.
#[derive(Debug, Clone)]
pub struct SagaChapterRecord {
    pub chapters: Vec<u32>,
    pub text: RulesTextProxy,
}

/// One class level as a record carries it.
#[derive(Debug, Clone)]
pub struct ClassLevelRecord {
    pub level: u32,
    pub cost: Option<CastingManaCostProxy>,
    pub text: RulesTextProxy,
}

/// An adventure spell as a record carries it.
#[derive(Debug, Clone)]
pub struct AdventureSpellRecord {
    pub name: String,
    pub mana_cost: CastingManaCostProxy,
    pub type_line: String,
    pub rules_text: RulesTextProxy,
}

/// One stretch of levels as a record carries it.
#[derive(Debug, Clone)]
pub struct LevelerRangeRecord {
    pub range: Vec<Option<u32>>,
    pub power: Option<String>,
    pub toughness: Option<String>,
    pub text: Option<RulesTextProxy>,
}

/// One face as a record carries it.
#[derive(Debug, Clone)]
pub struct CardFaceRecord {
    pub name: Option<String>,
    pub mana_cost: Option<CastingManaCostProxy>,
    pub type_line: Option<String>,
    pub rules_text: Option<RulesTextProxy>,
    pub flavor_text: Option<String>,
    pub power: Option<String>,
    pub toughness: Option<String>,
    pub color_indicator: Option<Vec<String>>,
}

/// A card as a record carries it: the discriminator, the keys of the base,
/// and the keys of every shape side by side, each absent unless the record
/// has it.
#[derive(Debug, Clone)]
pub struct CardRecord {
    /// The discriminator, under the key `type`.
    pub kind: String,
    pub name: String,
    pub mana_cost: Option<CastingManaCostProxy>,
    pub type_line: String,
    pub rules_text: Option<RulesTextProxy>,
    pub flavor_text: Option<String>,
    pub power: Option<String>,
    pub toughness: Option<String>,
    pub rarity: String,
    pub loyalty: Option<LoyaltyValueProxy>,
    pub loyalty_abilities: Option<Vec<LoyaltyAbilityRecord>>,
    pub chapters: Option<Vec<SagaChapterRecord>>,
    pub levels: Option<Vec<ClassLevelRecord>>,
    pub adventure: Option<AdventureSpellRecord>,
    pub faces: Option<Vec<CardFaceRecord>>,
    pub fuse: Option<bool>,
    pub aftermath: Option<bool>,
    pub defense: Option<u32>,
    pub backside_name: Option<String>,
    pub backside_type_line: Option<String>,
    pub backside_rules_text: Option<RulesTextProxy>,
    pub leveler_ranges: Option<Vec<LevelerRangeRecord>>,
    pub prototype: Option<CardFaceRecord>,
}

/// A place in a record. A place inside a list says which item it is in.
#[derive(Debug, Clone, Copy, PartialEq, Eq, Structural)]
pub enum CardField {
    ManaCost,
    RulesText,
    Rarity,
    Loyalty,
    LoyaltyAbilities,
    AbilityCost(usize),
    AbilityText(usize),
    Chapters,
    ChapterText(usize),
    Levels,
    LevelCost(usize),
    LevelText(usize),
    Adventure,
    AdventureManaCost,
    AdventureRulesText,
    Faces,
    FaceManaCost(usize),
    FaceRulesText(usize),
    Defense,
    BacksideName,
    BacksideTypeLine,
    BacksideRulesText,
    LevelerRanges,
    RangeText(usize),
    Prototype,
    PrototypeManaCost,
    PrototypeRulesText,
}

/// Why the text of one field could not be understood.
#[derive(Debug, Clone, PartialEq, Eq)]
pub enum FieldFault {
    /// A cost or a rules text that does not read well.
    Malformed(ManaCostParseError),
    /// No loyalty cost; the report ends in the offending text.
    InvalidLoyaltyCost(String),
    /// No starting loyalty; the report ends in the offending text.
    InvalidLoyaltyValue(String),
    /// No rarity; the offending text.
    UnknownRarity(String),
}

/// Why a record gave no card.
#[derive(Debug, Clone, PartialEq, Eq)]
pub enum CardLoadError {
    /// The discriminator names no shape.
    UnknownCardVariant { discriminator: String },
    /// A key that the shape needs is absent.
    MissingField { card_name: String, field: CardField },
    /// The text of a field could not be understood.
    FieldParseFailure { card_name: String, field: CardField, cause: FieldFault },
}

/// The mathematical value of a [`FieldFault`].
pub enum FieldFaultView {
    Malformed(ParseErrorView),
    InvalidLoyaltyCost(Seq<char>),
    InvalidLoyaltyValue(Seq<char>),
    UnknownRarity(Seq<char>),
}

/// The mathematical value of a [`CardLoadError`].
pub enum CardLoadErrorView {
    UnknownCardVariant { discriminator: Seq<char> },
    MissingField { card_name: Seq<char>, field: CardField },
    FieldParseFailure { card_name: Seq<char>, field: CardField, cause: FieldFaultView },
}

impl DeepView for FieldFault {
    type V = FieldFaultView;

    open spec fn deep_view(&self) -> FieldFaultView {
        match *self {
            FieldFault::Malformed(e) => FieldFaultView::Malformed(e@),
            FieldFault::InvalidLoyaltyCost(report) => FieldFaultView::InvalidLoyaltyCost(report@),
            FieldFault::InvalidLoyaltyValue(report) => FieldFaultView::InvalidLoyaltyValue(
                report@,
            ),
            FieldFault::UnknownRarity(text) => FieldFaultView::UnknownRarity(text@),
        }
    }
}

impl DeepView for CardLoadError {
    type V = CardLoadErrorView;

    open spec fn deep_view(&self) -> CardLoadErrorView {
        match *self {
            CardLoadError::UnknownCardVariant {
                discriminator,
            } => CardLoadErrorView::UnknownCardVariant { discriminator: discriminator@ },
            CardLoadError::MissingField { card_name, field } => CardLoadErrorView::MissingField {
                card_name: card_name@,
                field,
            },
            CardLoadError::FieldParseFailure {
                card_name,
                field,
                cause,
            } => CardLoadErrorView::FieldParseFailure {
                card_name: card_name@,
                field,
                cause: cause.deep_view(),
            },
        }
    }
}

/// The shape that a discriminator names. The names are matched exactly and
/// with regard to case.
pub open spec fn kind_of(discriminator: Seq<char>) -> Option<CardKind> {
    if discriminator == "normal"@ {
        Some(CardKind::Normal)
    } else if discriminator == "planeswalker"@ {
        Some(CardKind::Planeswalker)
    } else if discriminator == "saga"@ {
        Some(CardKind::Saga)
    } else if discriminator == "class"@ {
        Some(CardKind::Class)
    } else if discriminator == "adventure"@ {
        Some(CardKind::Adventure)
    } else if discriminator == "split"@ {
        Some(CardKind::Split)
    } else if discriminator == "flip"@ {
        Some(CardKind::Flip)
    } else if discriminator == "transform"@ {
        Some(CardKind::Transform)
    } else if discriminator == "modal_dfc"@ {
        Some(CardKind::ModalDfc)
    } else if discriminator == "battle"@ {
        Some(CardKind::Battle)
    } else if discriminator == "meld"@ {
        Some(CardKind::Meld)
    } else if discriminator == "leveler"@ {
        Some(CardKind::Leveler)
    } else if discriminator == "prototype"@ {
        Some(CardKind::Prototype)
    } else {
        None
    }
}

/// The rarity that a text names.
pub open spec fn rarity_of(text: Seq<char>) -> Option<Rarity> {
    if text == "common"@ {
        Some(Rarity::Common)
    } else if text == "uncommon"@ {
        Some(Rarity::Uncommon)
    } else if text == "rare"@ {
        Some(Rarity::Rare)
    } else if text == "mythic"@ {
        Some(Rarity::Mythic)
    } else {
        None
    }
}

impl CardKind {
    /// The shape that a discriminator names.
    pub fn parse(discriminator: &str) -> (r: Option<CardKind>)
        ensures
            r == kind_of(discriminator@),
    {
        if str_equal(discriminator, "normal") {
            Some(CardKind::Normal)
        } else if str_equal(discriminator, "planeswalker") {
            Some(CardKind::Planeswalker)
        } else if str_equal(discriminator, "saga") {
            Some(CardKind::Saga)
        } else if str_equal(discriminator, "class") {
            Some(CardKind::Class)
        } else if str_equal(discriminator, "adventure") {
            Some(CardKind::Adventure)
        } else if str_equal(discriminator, "split") {
            Some(CardKind::Split)
        } else if str_equal(discriminator, "flip") {
            Some(CardKind::Flip)
        } else if str_equal(discriminator, "transform") {
            Some(CardKind::Transform)
        } else if str_equal(discriminator, "modal_dfc") {
            Some(CardKind::ModalDfc)
        } else if str_equal(discriminator, "battle") {
            Some(CardKind::Battle)
        } else if str_equal(discriminator, "meld") {
            Some(CardKind::Meld)
        } else if str_equal(discriminator, "leveler") {
            Some(CardKind::Leveler)
        } else if str_equal(discriminator, "prototype") {
            Some(CardKind::Prototype)
        } else {
            None
        }
    }

    /// The discriminator that names the shape.
    pub fn name(self) -> (r: &'static str)
        ensures
            kind_of(r@) == Some(self),
    {
        proof {
            lemma_kind_names_differ();
        }
        match self {
            CardKind::Normal => "normal",
            CardKind::Planeswalker => "planeswalker",
            CardKind::Saga => "saga",
            CardKind::Class => "class",
            CardKind::Adventure => "adventure",
            CardKind::Split => "split",
            CardKind::Flip => "flip",
            CardKind::Transform => "transform",
            CardKind::ModalDfc => "modal_dfc",
            CardKind::Battle => "battle",
            CardKind::Meld => "meld",
            CardKind::Leveler => "leveler",
            CardKind::Prototype => "prototype",
        }
    }
}

/// No two shapes share a name.
proof fn lemma_kind_names_differ()
    ensures
        kind_of("normal"@) == Some(CardKind::Normal),
        kind_of("planeswalker"@) == Some(CardKind::Planeswalker),
        kind_of("saga"@) == Some(CardKind::Saga),
        kind_of("class"@) == Some(CardKind::Class),
        kind_of("adventure"@) == Some(CardKind::Adventure),
        kind_of("split"@) == Some(CardKind::Split),
        kind_of("flip"@) == Some(CardKind::Flip),
        kind_of("transform"@) == Some(CardKind::Transform),
        kind_of("modal_dfc"@) == Some(CardKind::ModalDfc),
        kind_of("battle"@) == Some(CardKind::Battle),
        kind_of("meld"@) == Some(CardKind::Meld),
        kind_of("leveler"@) == Some(CardKind::Leveler),
        kind_of("prototype"@) == Some(CardKind::Prototype),
{
    reveal_strlit("normal");
    reveal_strlit("planeswalker");
    reveal_strlit("saga");
    reveal_strlit("class");
    reveal_strlit("adventure");
    reveal_strlit("split");
    reveal_strlit("flip");
    reveal_strlit("transform");
    reveal_strlit("modal_dfc");
    reveal_strlit("battle");
    reveal_strlit("meld");
    reveal_strlit("leveler");
    reveal_strlit("prototype");
    assert("normal"@.len() == 6);
    assert("planeswalker"@.len() == 12);
    assert("saga"@.len() == 4);
    assert("class"@.len() == 5);
    assert("adventure"@.len() == 9);
    assert("split"@.len() == 5);
    assert("flip"@.len() == 4);
    assert("transform"@.len() == 9);
    assert("modal_dfc"@.len() == 9);
    assert("battle"@.len() == 6);
    assert("meld"@.len() == 4);
    assert("leveler"@.len() == 7);
    assert("prototype"@.len() == 9);
    assert("saga"@[1] != "split"@[1]);
    assert("class"@[0] != "saga"@[0]);
    assert("flip"@[0] != "saga"@[0]);
    assert("flip"@[0] != "meld"@[0]);
    assert("saga"@[0] != "meld"@[0]);
    assert("class"@[0] != "split"@[0]);
    assert("normal"@[0] != "battle"@[0]);
    assert("adventure"@[0] != "transform"@[0]);
    assert("adventure"@[0] != "modal_dfc"@[0]);
    assert("adventure"@[0] != "prototype"@[0]);
    assert("transform"@[0] != "modal_dfc"@[0]);
    assert("transform"@[0] != "prototype"@[0]);
    assert("modal_dfc"@[0] != "prototype"@[0]);
}

impl Rarity {
    /// The rarity that a text names.
    pub fn parse(text: &str) -> (r: Option<Rarity>)
        ensures
            r == rarity_of(text@),
    {
        if str_equal(text, "common") {
            Some(Rarity::Common)
        } else if str_equal(text, "uncommon") {
            Some(Rarity::Uncommon)
        } else if str_equal(text, "rare") {
            Some(Rarity::Rare)
        } else if str_equal(text, "mythic") {
            Some(Rarity::Mythic)
        } else {
            None
        }
    }

    /// The text that names the rarity.
    pub fn name(self) -> (r: &'static str)
        ensures
            rarity_of(r@) == Some(self),
    {
        proof {
            reveal_strlit("common");
            reveal_strlit("uncommon");
            reveal_strlit("rare");
            reveal_strlit("mythic");
            assert("common"@[0] != "rare"@[0]);
            assert("common"@[0] != "mythic"@[0]);
            assert("uncommon"@[0] != "rare"@[0]);
            assert("uncommon"@[0] != "mythic"@[0]);
        }
        match self {
            Rarity::Common => "common",
            Rarity::Uncommon => "uncommon",
            Rarity::Rare => "rare",
            Rarity::Mythic => "mythic",
        }
    }
}

} // verus!
