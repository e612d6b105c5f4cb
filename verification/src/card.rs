//! The shapes a card can have. Every shape shares one base and adds what is
//! its own.

use crate::cost::CastingManaCost;
use crate::loyalty::{LoyaltyCost, LoyaltyValue};
use crate::rules_text::{RulesText, SegmentView};
use crate::symbol::CastingManaSymbol;
use vstd::prelude::*;
use vstd::string::*;

verus! {

/// How rare a card is.
#[derive(Debug, Clone, Copy, PartialEq, Eq, Structural)]
pub enum Rarity {
    Common,
    Uncommon,
    Rare,
    Mythic,
}

/// One chapter ability of a saga.
#[derive(Debug, Clone, PartialEq, Eq)]
pub struct SagaChapter {
    /// The chapter numbers at which the ability happens.
    pub chapters: Vec<u32>,
    pub text: RulesText,
}

/// One level of a class.
#[derive(Debug, Clone)]
pub struct ClassLevel {
    pub level: u32,
    /// What reaching this level costs; the first level costs nothing.
    pub cost: Option<CastingManaCost>,
    pub text: RulesText,
}

/// The spell on the left of an adventure card.
#[derive(Debug, Clone)]
pub struct AdventureSpell {
    pub name: String,
    pub mana_cost: CastingManaCost,
    pub type_line: String,
    pub rules_text: RulesText,
}

/// One loyalty ability of a planeswalker.
#[derive(Debug, Clone)]
pub struct LoyaltyAbility {
    pub cost: LoyaltyCost,
    pub text: RulesText,
}

/// One stretch of levels of a leveler.
#[derive(Debug, Clone)]
pub struct LevelerRange {
    /// The first and last level of the stretch; the last may be open.
    pub range: Vec<Option<u32>>,
    pub power: Option<String>,
    pub toughness: Option<String>,
    pub text: Option<RulesText>,
}

/// One side of a card with more than one: a base of which every part may be
/// absent.
#[derive(Debug, Clone)]
pub struct CardFace {
    pub name: Option<String>,
    pub mana_cost: Option<CastingManaCost>,
    pub type_line: Option<String>,
    pub rules_text: Option<RulesText>,
    pub flavor_text: Option<String>,
    pub power: Option<String>,
    pub toughness: Option<String>,
    /// The colours of a face that has no cost and yet is not colourless.
    pub color_indicator: Option<Vec<String>>,
}

/// What every card has.
#[derive(Debug, Clone)]
pub struct CardBase {
    pub name: String,
    /// Absent on a land. An absent cost is not the cost of no symbols.
    pub mana_cost: Option<CastingManaCost>,
    pub type_line: String,
    pub rules_text: Option<RulesText>,
    pub flavor_text: Option<String>,
    pub power: Option<String>,
    pub toughness: Option<String>,
    pub rarity: Rarity,
}

/// A card with nothing of its own.
#[derive(Debug, Clone)]
pub struct NormalCard {
    pub base: CardBase,
}

#[derive(Debug, Clone)]
pub struct PlaneswalkerCard {
    pub base: CardBase,
    pub loyalty: LoyaltyValue,
    pub loyalty_abilities: Vec<LoyaltyAbility>,
}

#[derive(Debug, Clone)]
pub struct SagaCard {
    pub base: CardBase,
    pub chapters: Vec<SagaChapter>,
}

#[derive(Debug, Clone)]
pub struct ClassCard {
    pub base: CardBase,
    pub levels: Vec<ClassLevel>,
}

#[derive(Debug, Clone)]
pub struct AdventureCard {
    pub base: CardBase,
    pub adventure: AdventureSpell,
}

/// Two spells side by side.
#[derive(Debug, Clone)]
pub struct SplitCard {
    pub base: CardBase,
    pub faces: Vec<CardFace>,
    pub fuse: Option<bool>,
    pub aftermath: Option<bool>,
}

#[derive(Debug, Clone)]
pub struct FlipCard {
    pub base: CardBase,
    pub faces: Vec<CardFace>,
}

#[derive(Debug, Clone)]
pub struct TransformCard {
    pub base: CardBase,
    pub faces: Vec<CardFace>,
}

#[derive(Debug, Clone)]
pub struct ModalDfcCard {
    pub base: CardBase,
    pub faces: Vec<CardFace>,
}

/// A battle. Its back side is kept as three plain fields, not as a face.
#[derive(Debug, Clone)]
pub struct BattleCard {
    pub base: CardBase,
    pub defense: u32,
    pub backside_name: String,
    pub backside_type_line: String,
    pub backside_rules_text: RulesText,
}

#[derive(Debug, Clone)]
pub struct MeldCard {
    pub base: CardBase,
    pub faces: Vec<CardFace>,
}

#[derive(Debug, Clone)]
pub struct LevelerCard {
    pub base: CardBase,
    pub leveler_ranges: Vec<LevelerRange>,
}

/// A card with a second, cheaper set of cost and stats.
#[derive(Debug, Clone)]
pub struct PrototypeCard {
    pub base: CardBase,
    pub prototype: CardFace,
}

/// A card, in one of its thirteen shapes.
#[derive(Debug, Clone)]
pub enum Card {
    Normal(NormalCard),
    Planeswalker(PlaneswalkerCard),
    Saga(SagaCard),
    Class(ClassCard),
    Adventure(AdventureCard),
    Split(SplitCard),
    Flip(FlipCard),
    Transform(TransformCard),
    ModalDfc(ModalDfcCard),
    Battle(BattleCard),
    Meld(MeldCard),
    Leveler(LevelerCard),
    Prototype(PrototypeCard),
}

/// The mathematical value of a [`SagaChapter`].
pub struct SagaChapterView {
    pub chapters: Seq<u32>,
    pub text: Seq<SegmentView>,
}

/// The mathematical value of a [`ClassLevel`].
pub struct ClassLevelView {
    pub level: u32,
    pub cost: Option<Seq<CastingManaSymbol>>,
    pub text: Seq<SegmentView>,
}

/// The mathematical value of an [`AdventureSpell`].
pub struct AdventureSpellView {
    pub name: Seq<char>,
    pub mana_cost: Seq<CastingManaSymbol>,
    pub type_line: Seq<char>,
    pub rules_text: Seq<SegmentView>,
}

/// The mathematical value of a [`LoyaltyAbility`].
pub struct LoyaltyAbilityView {
    pub cost: LoyaltyCost,
    pub text: Seq<SegmentView>,
}

/// The mathematical value of a [`LevelerRange`].
pub struct LevelerRangeView {
    pub range: Seq<Option<u32>>,
    pub power: Option<Seq<char>>,
    pub toughness: Option<Seq<char>>,
    pub text: Option<Seq<SegmentView>>,
}

/// The mathematical value of a [`CardFace`].
pub struct CardFaceView {
    pub name: Option<Seq<char>>,
    pub mana_cost: Option<Seq<CastingManaSymbol>>,
    pub type_line: Option<Seq<char>>,
    pub rules_text: Option<Seq<SegmentView>>,
    pub flavor_text: Option<Seq<char>>,
    pub power: Option<Seq<char>>,
    pub toughness: Option<Seq<char>>,
    pub color_indicator: Option<Seq<Seq<char>>>,
}

/// The mathematical value of a [`CardBase`].
pub struct CardBaseView {
    pub name: Seq<char>,
    pub mana_cost: Option<Seq<CastingManaSymbol>>,
    pub type_line: Seq<char>,
    pub rules_text: Option<Seq<SegmentView>>,
    pub flavor_text: Option<Seq<char>>,
    pub power: Option<Seq<char>>,
    pub toughness: Option<Seq<char>>,
    pub rarity: Rarity,
}

/// The mathematical value of a [`Card`].
pub enum CardView {
    Normal { base: CardBaseView },
    Planeswalker {
        base: CardBaseView,
        loyalty: LoyaltyValue,
        loyalty_abilities: Seq<LoyaltyAbilityView>,
    },
    Saga { base: CardBaseView, chapters: Seq<SagaChapterView> },
    Class { base: CardBaseView, levels: Seq<ClassLevelView> },
    Adventure { base: CardBaseView, adventure: AdventureSpellView },
    Split {
        base: CardBaseView,
        faces: Seq<CardFaceView>,
        fuse: Option<bool>,
        aftermath: Option<bool>,
    },
    Flip { base: CardBaseView, faces: Seq<CardFaceView> },
    Transform { base: CardBaseView, faces: Seq<CardFaceView> },
    ModalDfc { base: CardBaseView, faces: Seq<CardFaceView> },
    Battle {
        base: CardBaseView,
        defense: u32,
        backside_name: Seq<char>,
        backside_type_line: Seq<char>,
        backside_rules_text: Seq<SegmentView>,
    },
    Meld { base: CardBaseView, faces: Seq<CardFaceView> },
    Leveler { base: CardBaseView, leveler_ranges: Seq<LevelerRangeView> },
    Prototype { base: CardBaseView, prototype: CardFaceView },
}

impl DeepView for SagaChapter {
    type V = SagaChapterView;

    open spec fn deep_view(&self) -> SagaChapterView {
        SagaChapterView { chapters: self.chapters@, text: self.text@ }
    }
}

impl DeepView for ClassLevel {
    type V = ClassLevelView;

    open spec fn deep_view(&self) -> ClassLevelView {
        ClassLevelView {
            level: self.level,
            cost: self.cost.deep_view(),
            text: self.text@,
        }
    }
}

impl DeepView for AdventureSpell {
    type V = AdventureSpellView;

    open spec fn deep_view(&self) -> AdventureSpellView {
        AdventureSpellView {
            name: self.name@,
            mana_cost: self.mana_cost@,
            type_line: self.type_line@,
            rules_text: self.rules_text@,
        }
    }
}

impl DeepView for LoyaltyAbility {
    type V = LoyaltyAbilityView;

    open spec fn deep_view(&self) -> LoyaltyAbilityView {
        LoyaltyAbilityView { cost: self.cost, text: self.text@ }
    }
}

impl DeepView for LevelerRange {
    type V = LevelerRangeView;

    open spec fn deep_view(&self) -> LevelerRangeView {
        LevelerRangeView {
            range: self.range@,
            power: self.power.deep_view(),
            toughness: self.toughness.deep_view(),
            text: self.text.deep_view(),
        }
    }
}

impl DeepView for CardFace {
    type V = CardFaceView;

    open spec fn deep_view(&self) -> CardFaceView {
        CardFaceView {
            name: self.name.deep_view(),
            mana_cost: self.mana_cost.deep_view(),
            type_line: self.type_line.deep_view(),
            rules_text: self.rules_text.deep_view(),
            flavor_text: self.flavor_text.deep_view(),
            power: self.power.deep_view(),
            toughness: self.toughness.deep_view(),
            color_indicator: self.color_indicator.deep_view(),
        }
    }
}

impl DeepView for CardBase {
    type V = CardBaseView;

    open spec fn deep_view(&self) -> CardBaseView {
        CardBaseView {
            name: self.name@,
            mana_cost: self.mana_cost.deep_view(),
            type_line: self.type_line@,
            rules_text: self.rules_text.deep_view(),
            flavor_text: self.flavor_text.deep_view(),
            power: self.power.deep_view(),
            toughness: self.toughness.deep_view(),
            rarity: self.rarity,
        }
    }
}

impl DeepView for Card {
    type V = CardView;

    open spec fn deep_view(&self) -> CardView {
        match *self {
            Card::Normal(card) => CardView::Normal { base: card.base.deep_view() },
            Card::Planeswalker(card) => CardView::Planeswalker {
                base: card.base.deep_view(),
                loyalty: card.loyalty,
                loyalty_abilities: card.loyalty_abilities.deep_view(),
            },
            Card::Saga(card) => CardView::Saga {
                base: card.base.deep_view(),
                chapters: card.chapters.deep_view(),
            },
            Card::Class(card) => CardView::Class {
                base: card.base.deep_view(),
                levels: card.levels.deep_view(),
            },
            Card::Adventure(card) => CardView::Adventure {
                base: card.base.deep_view(),
                adventure: card.adventure.deep_view(),
            },
            Card::Split(card) => CardView::Split {
                base: card.base.deep_view(),
                faces: card.faces.deep_view(),
                fuse: card.fuse,
                aftermath: card.aftermath,
            },
            Card::Flip(card) => CardView::Flip {
                base: card.base.deep_view(),
                faces: card.faces.deep_view(),
            },
            Card::Transform(card) => CardView::Transform {
                base: card.base.deep_view(),
                faces: card.faces.deep_view(),
            },
            Card::ModalDfc(card) => CardView::ModalDfc {
                base: card.base.deep_view(),
                faces: card.faces.deep_view(),
            },
            Card::Battle(card) => CardView::Battle {
                base: card.base.deep_view(),
                defense: card.defense,
                backside_name: card.backside_name@,
                backside_type_line: card.backside_type_line@,
                backside_rules_text: card.backside_rules_text@,
            },
            Card::Meld(card) => CardView::Meld {
                base: card.base.deep_view(),
                faces: card.faces.deep_view(),
            },
            Card::Leveler(card) => CardView::Leveler {
                base: card.base.deep_view(),
                leveler_ranges: card.leveler_ranges.deep_view(),
            },
            Card::Prototype(card) => CardView::Prototype {
                base: card.base.deep_view(),
                prototype: card.prototype.deep_view(),
            },
        }
    }
}

impl CardView {
    /// What the card shares with every other, whatever its shape.
    pub open spec fn base(self) -> CardBaseView {
        match self {
            CardView::Normal { base } => base,
            CardView::Planeswalker { base, .. } => base,
            CardView::Saga { base, .. } => base,
            CardView::Class { base, .. } => base,
            CardView::Adventure { base, .. } => base,
            CardView::Split { base, .. } => base,
            CardView::Flip { base, .. } => base,
            CardView::Transform { base, .. } => base,
            CardView::ModalDfc { base, .. } => base,
            CardView::Battle { base, .. } => base,
            CardView::Meld { base, .. } => base,
            CardView::Leveler { base, .. } => base,
            CardView::Prototype { base, .. } => base,
        }
    }
}

impl Card {
    /// What the card shares with every other, whatever its shape.
    #[must_use]
    pub fn base(&self) -> (r: &CardBase)
        ensures
            r.deep_view() == self.deep_view().base(),
    {
        match self {
            Card::Normal(card) => &card.base,
            Card::Planeswalker(card) => &card.base,
            Card::Saga(card) => &card.base,
            Card::Class(card) => &card.base,
            Card::Adventure(card) => &card.base,
            Card::Split(card) => &card.base,
            Card::Flip(card) => &card.base,
            Card::Transform(card) => &card.base,
            Card::ModalDfc(card) => &card.base,
            Card::Battle(card) => &card.base,
            Card::Meld(card) => &card.base,
            Card::Leveler(card) => &card.base,
            Card::Prototype(card) => &card.base,
        }
    }

    /// The card's name.
    #[must_use]
    pub fn name(&self) -> (r: &str)
        ensures
            r@ == self.deep_view().base().name,
    {
        self.base().name.as_str()
    }

    /// How rare the card is.
    #[must_use]
    pub fn rarity(&self) -> (r: Rarity)
        ensures
            r == self.deep_view().base().rarity,
    {
        self.base().rarity
    }
}

} // verus!
