//! From a record of strings to a card: the shape is chosen by the
//! discriminator, the base is filled in whatever the shape, and every text
//! that has a grammar is read by it.

use crate::card::{
    AdventureCard, AdventureSpell, AdventureSpellView, BattleCard, Card, CardBase, CardBaseView,
    CardFace, CardFaceView, CardView, ClassCard, ClassLevel, ClassLevelView, FlipCard,
    LevelerCard, LevelerRange, LevelerRangeView, LoyaltyAbility, LoyaltyAbilityView, MeldCard,
    ModalDfcCard, NormalCard, PlaneswalkerCard, PrototypeCard, Rarity, SagaCard, SagaChapter,
    SagaChapterView, SplitCard, TransformCard,
};
use crate::cost::{cost_symbols, CastingManaCost};
use crate::loyalty::{
    law_loyalty_grammar, loyalty_cost_outcome, loyalty_value_outcome, normalized, LoyaltyCost,
    LoyaltyValue,
};
use crate::proxy::{CastingManaCostProxy, LoyaltyCostProxy, LoyaltyValueProxy, RulesTextProxy};
use crate::record::{
    kind_of, rarity_of, AdventureSpellRecord, CardField, CardFaceRecord, CardKind, CardLoadError,
    CardLoadErrorView, CardRecord, ClassLevelRecord, FieldFault, FieldFaultView,
    LevelerRangeRecord, LoyaltyAbilityRecord, SagaChapterRecord,
};
use crate::rules_text::{rules_segments, RulesText, SegmentView};
use crate::symbol::CastingManaSymbol;
use crate::text::{clone_text, clone_texts, copy_items};
use vstd::prelude::*;
use vstd::string::*;
use vstd::utf8::*;

verus! {

/// The mathematical value of what a loader hands back.
pub open spec fn loaded_view<T: DeepView>(r: Result<T, CardLoadError>) -> Result<
    T::V,
    CardLoadErrorView,
> {
    match r {
        Ok(value) => Ok(value.deep_view()),
        Err(e) => Err(e.deep_view()),
    }
}

/// What reading a field gave, a fault being laid at the card and the field.
pub open spec fn placed<T>(
    card_name: Seq<char>,
    field: CardField,
    r: Result<T, FieldFaultView>,
) -> Result<T, CardLoadErrorView> {
    match r {
        Ok(value) => Ok(value),
        Err(cause) => Err(CardLoadErrorView::FieldParseFailure { card_name, field, cause }),
    }
}

/// A key that the shape needs: its value, or the report that it is absent.
pub open spec fn required<T>(card_name: Seq<char>, field: CardField, value: Option<T>) -> Result<
    T,
    CardLoadErrorView,
> {
    match value {
        Some(v) => Ok(v),
        None => Err(CardLoadErrorView::MissingField { card_name, field }),
    }
}

/// The casting cost that a text denotes.
pub open spec fn cost_read(text: Seq<char>) -> Result<Seq<CastingManaSymbol>, FieldFaultView> {
    match cost_symbols::<CastingManaSymbol>(encode_utf8(text)) {
        Ok(symbols) => Ok(symbols),
        Err(e) => Err(FieldFaultView::Malformed(e)),
    }
}

/// The casting cost of a key that may be absent. An absent key and an empty
/// text are no cost at all; a text of whitespace is the cost of no symbols.
pub open spec fn optional_cost_read(proxy: Option<CastingManaCostProxy>) -> Result<
    Option<Seq<CastingManaSymbol>>,
    FieldFaultView,
> {
    match proxy {
        None => Ok(None),
        Some(p) => if p.0@.len() == 0 {
            Ok(None)
        } else {
            match cost_read(p.0@) {
                Ok(symbols) => Ok(Some(symbols)),
                Err(e) => Err(e),
            }
        },
    }
}

/// The rules text that a text denotes.
pub open spec fn rules_read(text: Seq<char>) -> Result<Seq<SegmentView>, FieldFaultView> {
    match rules_segments(encode_utf8(text)) {
        Ok(segments) => Ok(segments),
        Err(e) => Err(FieldFaultView::Malformed(e)),
    }
}

/// The rules text of a key that may be absent. An absent key and an empty
/// text are no rules text at all.
pub open spec fn optional_rules_read(proxy: Option<RulesTextProxy>) -> Result<
    Option<Seq<SegmentView>>,
    FieldFaultView,
> {
    match proxy {
        None => Ok(None),
        Some(p) => if p.0@.len() == 0 {
            Ok(None)
        } else {
            match rules_read(p.0@) {
                Ok(segments) => Ok(Some(segments)),
                Err(e) => Err(e),
            }
        },
    }
}

/// The loyalty cost that a text denotes.
pub open spec fn loyalty_cost_read(text: Seq<char>) -> Result<LoyaltyCost, FieldFaultView> {
    match loyalty_cost_outcome(normalized(text)) {
        Ok(cost) => Ok(cost),
        Err(report) => Err(FieldFaultView::InvalidLoyaltyCost(report)),
    }
}

/// The starting loyalty that a text denotes.
pub open spec fn loyalty_value_read(text: Seq<char>) -> Result<LoyaltyValue, FieldFaultView> {
    match loyalty_value_outcome(normalized(text)) {
        Ok(value) => Ok(value),
        Err(report) => Err(FieldFaultView::InvalidLoyaltyValue(report)),
    }
}

/// The rarity that a text denotes.
pub open spec fn rarity_read(text: Seq<char>) -> Result<Rarity, FieldFaultView> {
    match rarity_of(text) {
        Some(rarity) => Ok(rarity),
        None => Err(FieldFaultView::UnknownRarity(text)),
    }
}

fn read_cost(card_name: &str, field: CardField, proxy: &CastingManaCostProxy) -> (r: Result<
    CastingManaCost,
    CardLoadError,
>)
    ensures
        loaded_view(r) == placed(card_name@, field, cost_read(proxy.0@)),
{
    match CastingManaCost::parse(proxy.0.as_str()) {
        Ok(cost) => Ok(cost),
        Err(e) => Err(
            CardLoadError::FieldParseFailure {
                card_name: card_name.to_owned(),
                field,
                cause: FieldFault::Malformed(e),
            },
        ),
    }
}

fn read_optional_cost(
    card_name: &str,
    field: CardField,
    proxy: &Option<CastingManaCostProxy>,
) -> (r: Result<Option<CastingManaCost>, CardLoadError>)
    ensures
        loaded_view(r) == placed(card_name@, field, optional_cost_read(*proxy)),
{
    match proxy {
        None => Ok(None),
        Some(p) => if p.0.as_str().is_empty() {
            Ok(None)
        } else {
            match read_cost(card_name, field, p) {
                Ok(cost) => Ok(Some(cost)),
                Err(e) => Err(e),
            }
        },
    }
}

fn read_rules(card_name: &str, field: CardField, proxy: &RulesTextProxy) -> (r: Result<
    RulesText,
    CardLoadError,
>)
    ensures
        loaded_view(r) == placed(card_name@, field, rules_read(proxy.0@)),
{
    match RulesText::parse(proxy.0.as_str()) {
        Ok(text) => Ok(text),
        Err(e) => Err(
            CardLoadError::FieldParseFailure {
                card_name: card_name.to_owned(),
                field,
                cause: FieldFault::Malformed(e),
            },
        ),
    }
}

fn read_optional_rules(card_name: &str, field: CardField, proxy: &Option<RulesTextProxy>) -> (r:
    Result<Option<RulesText>, CardLoadError>)
    ensures
        loaded_view(r) == placed(card_name@, field, optional_rules_read(*proxy)),
{
    match proxy {
        None => Ok(None),
        Some(p) => if p.0.as_str().is_empty() {
            Ok(None)
        } else {
            match read_rules(card_name, field, p) {
                Ok(text) => Ok(Some(text)),
                Err(e) => Err(e),
            }
        },
    }
}

fn read_loyalty_cost(card_name: &str, field: CardField, proxy: &LoyaltyCostProxy) -> (r: Result<
    LoyaltyCost,
    CardLoadError,
>)
    ensures
        loaded_view(r) == placed(card_name@, field, loyalty_cost_read(proxy.0@)),
{
    match LoyaltyCost::parse(proxy.0.as_str()) {
        Ok(cost) => Ok(cost),
        Err(report) => Err(
            CardLoadError::FieldParseFailure {
                card_name: card_name.to_owned(),
                field,
                cause: FieldFault::InvalidLoyaltyCost(report),
            },
        ),
    }
}

fn read_loyalty_value(card_name: &str, field: CardField, proxy: &LoyaltyValueProxy) -> (r: Result<
    LoyaltyValue,
    CardLoadError,
>)
    ensures
        loaded_view(r) == placed(card_name@, field, loyalty_value_read(proxy.0@)),
{
    match LoyaltyValue::parse(proxy.0.as_str()) {
        Ok(value) => Ok(value),
        Err(report) => Err(
            CardLoadError::FieldParseFailure {
                card_name: card_name.to_owned(),
                field,
                cause: FieldFault::InvalidLoyaltyValue(report),
            },
        ),
    }
}

fn read_rarity(card_name: &str, text: &str) -> (r: Result<Rarity, CardLoadError>)
    ensures
        match r {
            Ok(rarity) => placed(card_name@, CardField::Rarity, rarity_read(text@)) == Ok::<
                Rarity,
                CardLoadErrorView,
            >(rarity),
            Err(e) => placed(card_name@, CardField::Rarity, rarity_read(text@)) == Err::<
                Rarity,
                CardLoadErrorView,
            >(e.deep_view()),
        },
{
    match Rarity::parse(text) {
        Some(rarity) => Ok(rarity),
        None => Err(
            CardLoadError::FieldParseFailure {
                card_name: card_name.to_owned(),
                field: CardField::Rarity,
                cause: FieldFault::UnknownRarity(text.to_owned()),
            },
        ),
    }
}

/// The report that a key is absent.
fn missing(card_name: &str, field: CardField) -> (r: CardLoadError)
    ensures
        r.deep_view() == (CardLoadErrorView::MissingField { card_name: card_name@, field }),
{
    CardLoadError::MissingField { card_name: card_name.to_owned(), field }
}

/// The card that a fault is laid at.
pub open spec fn faulty_card(e: CardLoadErrorView) -> Option<Seq<char>> {
    match e {
        CardLoadErrorView::UnknownCardVariant { .. } => None,
        CardLoadErrorView::MissingField { card_name, .. } => Some(card_name),
        CardLoadErrorView::FieldParseFailure { card_name, .. } => Some(card_name),
    }
}

/// What a record that stands in a list is loaded as. The item's place in the
/// list tells where a fault in it lies.
pub trait ListedRecord: Sized {
    type Loaded: DeepView;

    /// What the `index`-th item of a list gives.
    spec fn loaded(self, card_name: Seq<char>, index: int) -> Result<
        <Self::Loaded as DeepView>::V,
        CardLoadErrorView,
    >;

    /// Loads the `index`-th item of a list.
    fn load(&self, card_name: &str, index: usize) -> (r: Result<Self::Loaded, CardLoadError>)
        ensures
            loaded_view(r) == self.loaded(card_name@, index as int),
    ;

    /// A fault in an item is laid at the card that the item belongs to.
    proof fn lemma_fault_names_card(self, card_name: Seq<char>, index: int)
        ensures
            match self.loaded(card_name, index) {
                Ok(_) => true,
                Err(e) => faulty_card(e) == Some(card_name),
            },
    ;
}

/// A fault in a list is laid at the card that the list belongs to.
pub proof fn lemma_items_fault_names_card<R: ListedRecord>(items: Seq<R>, card_name: Seq<char>)
    ensures
        match loaded_items(items, card_name) {
            Ok(_) => true,
            Err(e) => faulty_card(e) == Some(card_name),
        },
    decreases items.len(),
{
    if items.len() > 0 {
        lemma_items_fault_names_card(items.drop_last(), card_name);
        items.last().lemma_fault_names_card(card_name, items.len() - 1);
    }
}

/// What a list of records gives: every item in its order, or the fault of
/// the first item that has one.
pub open spec fn loaded_items<R: ListedRecord>(items: Seq<R>, card_name: Seq<char>) -> Result<
    Seq<<R::Loaded as DeepView>::V>,
    CardLoadErrorView,
>
    decreases items.len(),
{
    if items.len() == 0 {
        Ok(Seq::empty())
    } else {
        match loaded_items(items.drop_last(), card_name) {
            Err(e) => Err(e),
            Ok(front) => match items.last().loaded(card_name, items.len() - 1) {
                Err(e) => Err(e),
                Ok(item) => Ok(front.push(item)),
            },
        }
    }
}

/// Loads a list of records.
pub fn load_items<R: ListedRecord>(items: &Vec<R>, card_name: &str) -> (r: Result<
    Vec<R::Loaded>,
    CardLoadError,
>)
    ensures
        loaded_view(r) == loaded_items(items@, card_name@),
{
    let mut out: Vec<R::Loaded> = Vec::new();
    let mut i: usize = 0;
    assert(items@.take(0) =~= Seq::<R>::empty());
    assert(out.deep_view() =~= Seq::<<R::Loaded as DeepView>::V>::empty());
    while i < items.len()
        invariant
            i <= items.len(),
            loaded_items(items@.take(i as int), card_name@) == Ok::<
                Seq<<R::Loaded as DeepView>::V>,
                CardLoadErrorView,
            >(out.deep_view()),
        decreases items.len() - i,
    {
        let ghost before = items@.take(i as int);
        let ghost next = items@.take(i + 1);
        let ghost front = out.deep_view();
        assert(next.drop_last() =~= before);
        assert(next.last() == items@[i as int]);
        match items[i].load(card_name, i) {
            Err(e) => {
                proof {
                    lemma_loaded_items_fault(items@, card_name@, i + 1);
                }
                return Err(e);
            },
            Ok(item) => {
                out.push(item);
                assert(out.deep_view() =~= front.push(item.deep_view()));
            },
        }
        i = i + 1;
    }
    assert(items@.take(i as int) =~= items@);
    Ok(out)
}

/// A fault in the front of a list is the fault of the whole list.
proof fn lemma_loaded_items_fault<R: ListedRecord>(items: Seq<R>, card_name: Seq<char>, k: int)
    requires
        0 <= k <= items.len(),
        loaded_items(items.take(k), card_name) is Err,
    ensures
        loaded_items(items, card_name) == loaded_items(items.take(k), card_name),
    decreases items.len() - k,
{
    if k == items.len() {
        assert(items.take(k) =~= items);
    } else {
        let longer = items.take(k + 1);
        assert(longer.drop_last() =~= items.take(k));
        lemma_loaded_items_fault(items, card_name, k + 1);
    }
}

/// What one loyalty ability gives: its cost, then its text.
pub open spec fn loaded_ability(item: LoyaltyAbilityRecord, card_name: Seq<char>, index: int) -> Result<
    LoyaltyAbilityView,
    CardLoadErrorView,
> {
    match placed(card_name, CardField::AbilityCost(index as usize), loyalty_cost_read(item.cost.0@)) {
        Err(e) => Err(e),
        Ok(cost) => match placed(
            card_name,
            CardField::AbilityText(index as usize),
            rules_read(item.text.0@),
        ) {
            Err(e) => Err(e),
            Ok(text) => Ok(LoyaltyAbilityView { cost, text }),
        },
    }
}

impl ListedRecord for LoyaltyAbilityRecord {
    type Loaded = LoyaltyAbility;

    open spec fn loaded(self, card_name: Seq<char>, index: int) -> Result<
        LoyaltyAbilityView,
        CardLoadErrorView,
    > {
        loaded_ability(self, card_name, index)
    }

    fn load(&self, card_name: &str, index: usize) -> (r: Result<LoyaltyAbility, CardLoadError>) {
        let cost = match read_loyalty_cost(card_name, CardField::AbilityCost(index), &self.cost) {
            Ok(cost) => cost,
            Err(e) => {
                return Err(e);
            },
        };
        let text = match read_rules(card_name, CardField::AbilityText(index), &self.text) {
            Ok(text) => text,
            Err(e) => {
                return Err(e);
            },
        };
        Ok(LoyaltyAbility { cost, text })
    }

    proof fn lemma_fault_names_card(self, card_name: Seq<char>, index: int) {
    }
}

/// What one saga chapter gives.
pub open spec fn loaded_chapter(item: SagaChapterRecord, card_name: Seq<char>, index: int) -> Result<
    SagaChapterView,
    CardLoadErrorView,
> {
    match placed(card_name, CardField::ChapterText(index as usize), rules_read(item.text.0@)) {
        Err(e) => Err(e),
        Ok(text) => Ok(SagaChapterView { chapters: item.chapters@, text }),
    }
}

impl ListedRecord for SagaChapterRecord {
    type Loaded = SagaChapter;

    open spec fn loaded(self, card_name: Seq<char>, index: int) -> Result<
        SagaChapterView,
        CardLoadErrorView,
    > {
        loaded_chapter(self, card_name, index)
    }

    fn load(&self, card_name: &str, index: usize) -> (r: Result<SagaChapter, CardLoadError>) {
        let text = match read_rules(card_name, CardField::ChapterText(index), &self.text) {
            Ok(text) => text,
            Err(e) => {
                return Err(e);
            },
        };
        Ok(SagaChapter { chapters: copy_items(&self.chapters), text })
    }

    proof fn lemma_fault_names_card(self, card_name: Seq<char>, index: int) {
    }
}

/// What one class level gives: its cost, then its text.
pub open spec fn loaded_level(item: ClassLevelRecord, card_name: Seq<char>, index: int) -> Result<
    ClassLevelView,
    CardLoadErrorView,
> {
    match placed(card_name, CardField::LevelCost(index as usize), optional_cost_read(item.cost)) {
        Err(e) => Err(e),
        Ok(cost) => match placed(
            card_name,
            CardField::LevelText(index as usize),
            rules_read(item.text.0@),
        ) {
            Err(e) => Err(e),
            Ok(text) => Ok(ClassLevelView { level: item.level, cost, text }),
        },
    }
}

impl ListedRecord for ClassLevelRecord {
    type Loaded = ClassLevel;

    open spec fn loaded(self, card_name: Seq<char>, index: int) -> Result<
        ClassLevelView,
        CardLoadErrorView,
    > {
        loaded_level(self, card_name, index)
    }

    fn load(&self, card_name: &str, index: usize) -> (r: Result<ClassLevel, CardLoadError>) {
        let cost = match read_optional_cost(card_name, CardField::LevelCost(index), &self.cost) {
            Ok(cost) => cost,
            Err(e) => {
                return Err(e);
            },
        };
        let text = match read_rules(card_name, CardField::LevelText(index), &self.text) {
            Ok(text) => text,
            Err(e) => {
                return Err(e);
            },
        };
        Ok(ClassLevel { level: self.level, cost, text })
    }

    proof fn lemma_fault_names_card(self, card_name: Seq<char>, index: int) {
    }
}

/// What one stretch of levels gives.
pub open spec fn loaded_range(item: LevelerRangeRecord, card_name: Seq<char>, index: int) -> Result<
    LevelerRangeView,
    CardLoadErrorView,
> {
    match placed(card_name, CardField::RangeText(index as usize), optional_rules_read(item.text)) {
        Err(e) => Err(e),
        Ok(text) => Ok(
            LevelerRangeView {
                range: item.range@,
                power: item.power.deep_view(),
                toughness: item.toughness.deep_view(),
                text,
            },
        ),
    }
}

impl ListedRecord for LevelerRangeRecord {
    type Loaded = LevelerRange;

    open spec fn loaded(self, card_name: Seq<char>, index: int) -> Result<
        LevelerRangeView,
        CardLoadErrorView,
    > {
        loaded_range(self, card_name, index)
    }

    fn load(&self, card_name: &str, index: usize) -> (r: Result<LevelerRange, CardLoadError>) {
        let text = match read_optional_rules(card_name, CardField::RangeText(index), &self.text) {
            Ok(text) => text,
            Err(e) => {
                return Err(e);
            },
        };
        Ok(
            LevelerRange {
                range: copy_items(&self.range),
                power: clone_text(&self.power),
                toughness: clone_text(&self.toughness),
                text,
            },
        )
    }

    proof fn lemma_fault_names_card(self, card_name: Seq<char>, index: int) {
    }
}

/// What one face gives: its cost, then its rules text. The two places say
/// where a fault in either lies.
pub open spec fn loaded_face(
    face: CardFaceRecord,
    card_name: Seq<char>,
    cost_field: CardField,
    text_field: CardField,
) -> Result<CardFaceView, CardLoadErrorView> {
    match placed(card_name, cost_field, optional_cost_read(face.mana_cost)) {
        Err(e) => Err(e),
        Ok(mana_cost) => match placed(card_name, text_field, optional_rules_read(face.rules_text)) {
            Err(e) => Err(e),
            Ok(rules_text) => Ok(
                CardFaceView {
                    name: face.name.deep_view(),
                    mana_cost,
                    type_line: face.type_line.deep_view(),
                    rules_text,
                    flavor_text: face.flavor_text.deep_view(),
                    power: face.power.deep_view(),
                    toughness: face.toughness.deep_view(),
                    color_indicator: face.color_indicator.deep_view(),
                },
            ),
        },
    }
}

/// Loads one face.
pub fn load_face(
    face: &CardFaceRecord,
    card_name: &str,
    cost_field: CardField,
    text_field: CardField,
) -> (r: Result<CardFace, CardLoadError>)
    ensures
        loaded_view(r) == loaded_face(*face, card_name@, cost_field, text_field),
{
    let mana_cost = match read_optional_cost(card_name, cost_field, &face.mana_cost) {
        Ok(cost) => cost,
        Err(e) => {
            return Err(e);
        },
    };
    let rules_text = match read_optional_rules(card_name, text_field, &face.rules_text) {
        Ok(text) => text,
        Err(e) => {
            return Err(e);
        },
    };
    let color_indicator = match &face.color_indicator {
        Some(colors) => Some(clone_texts(colors)),
        None => None,
    };
    Ok(
        CardFace {
            name: clone_text(&face.name),
            mana_cost,
            type_line: clone_text(&face.type_line),
            rules_text,
            flavor_text: clone_text(&face.flavor_text),
            power: clone_text(&face.power),
            toughness: clone_text(&face.toughness),
            color_indicator,
        },
    )
}

impl ListedRecord for CardFaceRecord {
    type Loaded = CardFace;

    open spec fn loaded(self, card_name: Seq<char>, index: int) -> Result<
        CardFaceView,
        CardLoadErrorView,
    > {
        loaded_face(
            self,
            card_name,
            CardField::FaceManaCost(index as usize),
            CardField::FaceRulesText(index as usize),
        )
    }

    fn load(&self, card_name: &str, index: usize) -> (r: Result<CardFace, CardLoadError>) {
        load_face(
            self,
            card_name,
            CardField::FaceManaCost(index),
            CardField::FaceRulesText(index),
        )
    }

    proof fn lemma_fault_names_card(self, card_name: Seq<char>, index: int) {
    }
}

/// What an adventure spell gives: its cost, then its rules text.
pub open spec fn loaded_adventure(spell: AdventureSpellRecord, card_name: Seq<char>) -> Result<
    AdventureSpellView,
    CardLoadErrorView,
> {
    match placed(card_name, CardField::AdventureManaCost, cost_read(spell.mana_cost.0@)) {
        Err(e) => Err(e),
        Ok(mana_cost) => match placed(
            card_name,
            CardField::AdventureRulesText,
            rules_read(spell.rules_text.0@),
        ) {
            Err(e) => Err(e),
            Ok(rules_text) => Ok(
                AdventureSpellView {
                    name: spell.name@,
                    mana_cost,
                    type_line: spell.type_line@,
                    rules_text,
                },
            ),
        },
    }
}

/// Loads an adventure spell.
pub fn load_adventure(spell: &AdventureSpellRecord, card_name: &str) -> (r: Result<
    AdventureSpell,
    CardLoadError,
>)
    ensures
        loaded_view(r) == loaded_adventure(*spell, card_name@),
{
    let mana_cost = match read_cost(card_name, CardField::AdventureManaCost, &spell.mana_cost) {
        Ok(cost) => cost,
        Err(e) => {
            return Err(e);
        },
    };
    let rules_text = match read_rules(card_name, CardField::AdventureRulesText, &spell.rules_text) {
        Ok(text) => text,
        Err(e) => {
            return Err(e);
        },
    };
    Ok(
        AdventureSpell {
            name: spell.name.clone(),
            mana_cost,
            type_line: spell.type_line.clone(),
            rules_text,
        },
    )
}

/// The base that a record gives, whatever its shape: the cost, the rules
/// text and the rarity are read in that order, the rest is kept as it
/// stands.
pub open spec fn loaded_base(record: CardRecord) -> Result<CardBaseView, CardLoadErrorView> {
    match placed(record.name@, CardField::ManaCost, optional_cost_read(record.mana_cost)) {
        Err(e) => Err(e),
        Ok(mana_cost) => match placed(
            record.name@,
            CardField::RulesText,
            optional_rules_read(record.rules_text),
        ) {
            Err(e) => Err(e),
            Ok(rules_text) => match placed(
                record.name@,
                CardField::Rarity,
                rarity_read(record.rarity@),
            ) {
                Err(e) => Err(e),
                Ok(rarity) => Ok(
                    CardBaseView {
                        name: record.name@,
                        mana_cost,
                        type_line: record.type_line@,
                        rules_text,
                        flavor_text: record.flavor_text.deep_view(),
                        power: record.power.deep_view(),
                        toughness: record.toughness.deep_view(),
                        rarity,
                    },
                ),
            },
        },
    }
}

/// Loads the base of a card.
pub fn load_base(record: &CardRecord) -> (r: Result<CardBase, CardLoadError>)
    ensures
        loaded_view(r) == loaded_base(*record),
{
    let card_name = record.name.as_str();
    let mana_cost = match read_optional_cost(card_name, CardField::ManaCost, &record.mana_cost) {
        Ok(cost) => cost,
        Err(e) => {
            return Err(e);
        },
    };
    let rules_text = match read_optional_rules(
        card_name,
        CardField::RulesText,
        &record.rules_text,
    ) {
        Ok(text) => text,
        Err(e) => {
            return Err(e);
        },
    };
    let rarity = match read_rarity(card_name, record.rarity.as_str()) {
        Ok(rarity) => rarity,
        Err(e) => {
            return Err(e);
        },
    };
    Ok(
        CardBase {
            name: record.name.clone(),
            mana_cost,
            type_line: record.type_line.clone(),
            rules_text,
            flavor_text: clone_text(&record.flavor_text),
            power: clone_text(&record.power),
            toughness: clone_text(&record.toughness),
            rarity,
        },
    )
}

/// The faces that a record gives; the key must be there.
pub open spec fn loaded_faces(record: CardRecord) -> Result<Seq<CardFaceView>, CardLoadErrorView> {
    match record.faces {
        None => Err(
            CardLoadErrorView::MissingField { card_name: record.name@, field: CardField::Faces },
        ),
        Some(faces) => loaded_items(faces@, record.name@),
    }
}

/// Loads the faces of a card.
pub fn load_faces(record: &CardRecord) -> (r: Result<Vec<CardFace>, CardLoadError>)
    ensures
        loaded_view(r) == loaded_faces(*record),
{
    match &record.faces {
        None => Err(missing(record.name.as_str(), CardField::Faces)),
        Some(faces) => load_items(faces, record.name.as_str()),
    }
}

/// What a planeswalker adds to its base: the starting loyalty, then the
/// abilities. Both keys must be there.
pub open spec fn loaded_planeswalker(record: CardRecord, base: CardBaseView) -> Result<
    CardView,
    CardLoadErrorView,
> {
    match record.loyalty {
        None => Err(
            CardLoadErrorView::MissingField { card_name: record.name@, field: CardField::Loyalty },
        ),
        Some(proxy) => match placed(
            record.name@,
            CardField::Loyalty,
            loyalty_value_read(proxy.0@),
        ) {
            Err(e) => Err(e),
            Ok(loyalty) => match record.loyalty_abilities {
                None => Err(
                    CardLoadErrorView::MissingField {
                        card_name: record.name@,
                        field: CardField::LoyaltyAbilities,
                    },
                ),
                Some(items) => match loaded_items(items@, record.name@) {
                    Err(e) => Err(e),
                    Ok(loyalty_abilities) => Ok(
                        CardView::Planeswalker { base, loyalty, loyalty_abilities },
                    ),
                },
            },
        },
    }
}

fn load_planeswalker(record: &CardRecord, base: CardBase) -> (r: Result<Card, CardLoadError>)
    ensures
        loaded_view(r) == loaded_planeswalker(*record, base.deep_view()),
{
    let card_name = record.name.as_str();
    let loyalty = match &record.loyalty {
        None => {
            return Err(missing(card_name, CardField::Loyalty));
        },
        Some(proxy) => match read_loyalty_value(card_name, CardField::Loyalty, proxy) {
            Ok(value) => value,
            Err(e) => {
                return Err(e);
            },
        },
    };
    let loyalty_abilities = match &record.loyalty_abilities {
        None => {
            return Err(missing(card_name, CardField::LoyaltyAbilities));
        },
        Some(items) => match load_items(items, card_name) {
            Ok(abilities) => abilities,
            Err(e) => {
                return Err(e);
            },
        },
    };
    Ok(Card::Planeswalker(PlaneswalkerCard { base, loyalty, loyalty_abilities }))
}

/// What a saga adds to its base: its chapters.
pub open spec fn loaded_saga(record: CardRecord, base: CardBaseView) -> Result<
    CardView,
    CardLoadErrorView,
> {
    match record.chapters {
        None => Err(
            CardLoadErrorView::MissingField { card_name: record.name@, field: CardField::Chapters },
        ),
        Some(items) => match loaded_items(items@, record.name@) {
            Err(e) => Err(e),
            Ok(chapters) => Ok(CardView::Saga { base, chapters }),
        },
    }
}

fn load_saga(record: &CardRecord, base: CardBase) -> (r: Result<Card, CardLoadError>)
    ensures
        loaded_view(r) == loaded_saga(*record, base.deep_view()),
{
    match &record.chapters {
        None => Err(missing(record.name.as_str(), CardField::Chapters)),
        Some(items) => match load_items(items, record.name.as_str()) {
            Ok(chapters) => Ok(Card::Saga(SagaCard { base, chapters })),
            Err(e) => Err(e),
        },
    }
}

/// What a class adds to its base: its levels.
pub open spec fn loaded_class(record: CardRecord, base: CardBaseView) -> Result<
    CardView,
    CardLoadErrorView,
> {
    match record.levels {
        None => Err(
            CardLoadErrorView::MissingField { card_name: record.name@, field: CardField::Levels },
        ),
        Some(items) => match loaded_items(items@, record.name@) {
            Err(e) => Err(e),
            Ok(levels) => Ok(CardView::Class { base, levels }),
        },
    }
}

fn load_class(record: &CardRecord, base: CardBase) -> (r: Result<Card, CardLoadError>)
    ensures
        loaded_view(r) == loaded_class(*record, base.deep_view()),
{
    match &record.levels {
        None => Err(missing(record.name.as_str(), CardField::Levels)),
        Some(items) => match load_items(items, record.name.as_str()) {
            Ok(levels) => Ok(Card::Class(ClassCard { base, levels })),
            Err(e) => Err(e),
        },
    }
}

/// What an adventure card adds to its base: its spell.
pub open spec fn loaded_adventure_card(record: CardRecord, base: CardBaseView) -> Result<
    CardView,
    CardLoadErrorView,
> {
    match record.adventure {
        None => Err(
            CardLoadErrorView::MissingField {
                card_name: record.name@,
                field: CardField::Adventure,
            },
        ),
        Some(spell) => match loaded_adventure(spell, record.name@) {
            Err(e) => Err(e),
            Ok(adventure) => Ok(CardView::Adventure { base, adventure }),
        },
    }
}

fn load_adventure_card(record: &CardRecord, base: CardBase) -> (r: Result<Card, CardLoadError>)
    ensures
        loaded_view(r) == loaded_adventure_card(*record, base.deep_view()),
{
    match &record.adventure {
        None => Err(missing(record.name.as_str(), CardField::Adventure)),
        Some(spell) => match load_adventure(spell, record.name.as_str()) {
            Ok(adventure) => Ok(Card::Adventure(AdventureCard { base, adventure })),
            Err(e) => Err(e),
        },
    }
}

/// What a battle adds to its base: its defense and the three fields of its
/// back side, in that order. All four keys must be there.
pub open spec fn loaded_battle(record: CardRecord, base: CardBaseView) -> Result<
    CardView,
    CardLoadErrorView,
> {
    match required(record.name@, CardField::Defense, record.defense) {
        Err(e) => Err(e),
        Ok(defense) => match required(
            record.name@,
            CardField::BacksideName,
            record.backside_name,
        ) {
            Err(e) => Err(e),
            Ok(backside_name) => match required(
                record.name@,
                CardField::BacksideTypeLine,
                record.backside_type_line,
            ) {
                Err(e) => Err(e),
                Ok(backside_type_line) => match required(
                    record.name@,
                    CardField::BacksideRulesText,
                    record.backside_rules_text,
                ) {
                    Err(e) => Err(e),
                    Ok(proxy) => match placed(
                        record.name@,
                        CardField::BacksideRulesText,
                        rules_read(proxy.0@),
                    ) {
                        Err(e) => Err(e),
                        Ok(backside_rules_text) => Ok(
                            CardView::Battle {
                                base,
                                defense,
                                backside_name: backside_name@,
                                backside_type_line: backside_type_line@,
                                backside_rules_text,
                            },
                        ),
                    },
                },
            },
        },
    }
}

fn load_battle(record: &CardRecord, base: CardBase) -> (r: Result<Card, CardLoadError>)
    ensures
        loaded_view(r) == loaded_battle(*record, base.deep_view()),
{
    let card_name = record.name.as_str();
    let defense = match record.defense {
        Some(defense) => defense,
        None => {
            return Err(missing(card_name, CardField::Defense));
        },
    };
    let backside_name = match &record.backside_name {
        Some(name) => name.clone(),
        None => {
            return Err(missing(card_name, CardField::BacksideName));
        },
    };
    let backside_type_line = match &record.backside_type_line {
        Some(type_line) => type_line.clone(),
        None => {
            return Err(missing(card_name, CardField::BacksideTypeLine));
        },
    };
    let backside_rules_text = match &record.backside_rules_text {
        None => {
            return Err(missing(card_name, CardField::BacksideRulesText));
        },
        Some(proxy) => match read_rules(card_name, CardField::BacksideRulesText, proxy) {
            Ok(text) => text,
            Err(e) => {
                return Err(e);
            },
        },
    };
    Ok(
        Card::Battle(
            BattleCard { base, defense, backside_name, backside_type_line, backside_rules_text },
        ),
    )
}

/// What a leveler adds to its base: its stretches of levels.
pub open spec fn loaded_leveler(record: CardRecord, base: CardBaseView) -> Result<
    CardView,
    CardLoadErrorView,
> {
    match record.leveler_ranges {
        None => Err(
            CardLoadErrorView::MissingField {
                card_name: record.name@,
                field: CardField::LevelerRanges,
            },
        ),
        Some(items) => match loaded_items(items@, record.name@) {
            Err(e) => Err(e),
            Ok(leveler_ranges) => Ok(CardView::Leveler { base, leveler_ranges }),
        },
    }
}

fn load_leveler(record: &CardRecord, base: CardBase) -> (r: Result<Card, CardLoadError>)
    ensures
        loaded_view(r) == loaded_leveler(*record, base.deep_view()),
{
    match &record.leveler_ranges {
        None => Err(missing(record.name.as_str(), CardField::LevelerRanges)),
        Some(items) => match load_items(items, record.name.as_str()) {
            Ok(leveler_ranges) => Ok(Card::Leveler(LevelerCard { base, leveler_ranges })),
            Err(e) => Err(e),
        },
    }
}

/// What a prototype card adds to its base: the face with its second cost
/// and stats.
pub open spec fn loaded_prototype(record: CardRecord, base: CardBaseView) -> Result<
    CardView,
    CardLoadErrorView,
> {
    match record.prototype {
        None => Err(
            CardLoadErrorView::MissingField {
                card_name: record.name@,
                field: CardField::Prototype,
            },
        ),
        Some(face) => match loaded_face(
            face,
            record.name@,
            CardField::PrototypeManaCost,
            CardField::PrototypeRulesText,
        ) {
            Err(e) => Err(e),
            Ok(prototype) => Ok(CardView::Prototype { base, prototype }),
        },
    }
}

fn load_prototype(record: &CardRecord, base: CardBase) -> (r: Result<Card, CardLoadError>)
    ensures
        loaded_view(r) == loaded_prototype(*record, base.deep_view()),
{
    match &record.prototype {
        None => Err(missing(record.name.as_str(), CardField::Prototype)),
        Some(face) => match load_face(
            face,
            record.name.as_str(),
            CardField::PrototypeManaCost,
            CardField::PrototypeRulesText,
        ) {
            Ok(prototype) => Ok(Card::Prototype(PrototypeCard { base, prototype })),
            Err(e) => Err(e),
        },
    }
}

/// A card of one of the shapes that add faces and nothing else to the base.
pub open spec fn faced(kind: CardKind, base: CardBaseView, faces: Seq<CardFaceView>) -> CardView {
    match kind {
        CardKind::Flip => CardView::Flip { base, faces },
        CardKind::Transform => CardView::Transform { base, faces },
        CardKind::ModalDfc => CardView::ModalDfc { base, faces },
        _ => CardView::Meld { base, faces },
    }
}

/// What a shape adds to the base of its card.
pub open spec fn loaded_shape(kind: CardKind, record: CardRecord, base: CardBaseView) -> Result<
    CardView,
    CardLoadErrorView,
> {
    match kind {
        CardKind::Normal => Ok(CardView::Normal { base }),
        CardKind::Planeswalker => loaded_planeswalker(record, base),
        CardKind::Saga => loaded_saga(record, base),
        CardKind::Class => loaded_class(record, base),
        CardKind::Adventure => loaded_adventure_card(record, base),
        CardKind::Split => match loaded_faces(record) {
            Err(e) => Err(e),
            Ok(faces) => Ok(
                CardView::Split { base, faces, fuse: record.fuse, aftermath: record.aftermath },
            ),
        },
        CardKind::Flip | CardKind::Transform | CardKind::ModalDfc | CardKind::Meld => match loaded_faces(
            record,
        ) {
            Err(e) => Err(e),
            Ok(faces) => Ok(faced(kind, base, faces)),
        },
        CardKind::Battle => loaded_battle(record, base),
        CardKind::Leveler => loaded_leveler(record, base),
        CardKind::Prototype => loaded_prototype(record, base),
    }
}

/// The card that a record gives, or why it gives none.
///
/// The discriminator chooses the shape; one that names no shape is reported
/// before anything else is looked at. Then the base is filled in, then what
/// the shape adds to it. The first fault ends the loading.
pub open spec fn loaded_card(record: CardRecord) -> Result<CardView, CardLoadErrorView> {
    match kind_of(record.kind@) {
        None => Err(CardLoadErrorView::UnknownCardVariant { discriminator: record.kind@ }),
        Some(kind) => match loaded_base(record) {
            Err(e) => Err(e),
            Ok(base) => loaded_shape(kind, record, base),
        },
    }
}

/// The shape of a card.
pub open spec fn kind_of_card(card: CardView) -> CardKind {
    match card {
        CardView::Normal { .. } => CardKind::Normal,
        CardView::Planeswalker { .. } => CardKind::Planeswalker,
        CardView::Saga { .. } => CardKind::Saga,
        CardView::Class { .. } => CardKind::Class,
        CardView::Adventure { .. } => CardKind::Adventure,
        CardView::Split { .. } => CardKind::Split,
        CardView::Flip { .. } => CardKind::Flip,
        CardView::Transform { .. } => CardKind::Transform,
        CardView::ModalDfc { .. } => CardKind::ModalDfc,
        CardView::Battle { .. } => CardKind::Battle,
        CardView::Meld { .. } => CardKind::Meld,
        CardView::Leveler { .. } => CardKind::Leveler,
        CardView::Prototype { .. } => CardKind::Prototype,
    }
}

impl Card {
    /// Loads a card from a record.
    pub fn load(record: &CardRecord) -> (r: Result<Card, CardLoadError>)
        ensures
            loaded_view(r) == loaded_card(*record),
    {
        let kind = match CardKind::parse(record.kind.as_str()) {
            Some(kind) => kind,
            None => {
                return Err(
                    CardLoadError::UnknownCardVariant { discriminator: record.kind.clone() },
                );
            },
        };
        let base = match load_base(record) {
            Ok(base) => base,
            Err(e) => {
                return Err(e);
            },
        };
        match kind {
            CardKind::Normal => Ok(Card::Normal(NormalCard { base })),
            CardKind::Planeswalker => load_planeswalker(record, base),
            CardKind::Saga => load_saga(record, base),
            CardKind::Class => load_class(record, base),
            CardKind::Adventure => load_adventure_card(record, base),
            CardKind::Split => match load_faces(record) {
                Ok(faces) => Ok(
                    Card::Split(
                        SplitCard { base, faces, fuse: record.fuse, aftermath: record.aftermath },
                    ),
                ),
                Err(e) => Err(e),
            },
            CardKind::Flip => match load_faces(record) {
                Ok(faces) => Ok(Card::Flip(FlipCard { base, faces })),
                Err(e) => Err(e),
            },
            CardKind::Transform => match load_faces(record) {
                Ok(faces) => Ok(Card::Transform(TransformCard { base, faces })),
                Err(e) => Err(e),
            },
            CardKind::ModalDfc => match load_faces(record) {
                Ok(faces) => Ok(Card::ModalDfc(ModalDfcCard { base, faces })),
                Err(e) => Err(e),
            },
            CardKind::Battle => load_battle(record, base),
            CardKind::Meld => match load_faces(record) {
                Ok(faces) => Ok(Card::Meld(MeldCard { base, faces })),
                Err(e) => Err(e),
            },
            CardKind::Leveler => load_leveler(record, base),
            CardKind::Prototype => load_prototype(record, base),
        }
    }

    /// The shape of the card.
    pub fn kind(&self) -> (r: CardKind)
        ensures
            r == kind_of_card(self.deep_view()),
    {
        match self {
            Card::Normal(_) => CardKind::Normal,
            Card::Planeswalker(_) => CardKind::Planeswalker,
            Card::Saga(_) => CardKind::Saga,
            Card::Class(_) => CardKind::Class,
            Card::Adventure(_) => CardKind::Adventure,
            Card::Split(_) => CardKind::Split,
            Card::Flip(_) => CardKind::Flip,
            Card::Transform(_) => CardKind::Transform,
            Card::ModalDfc(_) => CardKind::ModalDfc,
            Card::Battle(_) => CardKind::Battle,
            Card::Meld(_) => CardKind::Meld,
            Card::Leveler(_) => CardKind::Leveler,
            Card::Prototype(_) => CardKind::Prototype,
        }
    }
}

/// Loading keeps its promises: a card that was loaded has the shape that the
/// discriminator names and the name of its record; a record whose
/// discriminator names no shape gives no card, whatever else it holds; and a
/// fault in a field is laid at the card whose record it came from.
pub proof fn law_loading_is_faithful(record: CardRecord)
    ensures
        match loaded_card(record) {
            Ok(card) => kind_of(record.kind@) == Some(kind_of_card(card)) && card.base().name
                == record.name@ && Ok::<CardBaseView, CardLoadErrorView>(card.base())
                == loaded_base(record),
            Err(CardLoadErrorView::UnknownCardVariant { discriminator }) => kind_of(record.kind@)
                is None && discriminator == record.kind@,
            Err(e) => kind_of(record.kind@) is Some && faulty_card(e) == Some(record.name@),
        },
{
    match kind_of(record.kind@) {
        None => {},
        Some(kind) => match loaded_base(record) {
            Err(_) => {},
            Ok(base) => {
                match kind {
                    CardKind::Planeswalker => {
                        if let Some(items) = record.loyalty_abilities {
                            lemma_items_fault_names_card(items@, record.name@);
                        }
                    },
                    CardKind::Saga => {
                        if let Some(items) = record.chapters {
                            lemma_items_fault_names_card(items@, record.name@);
                        }
                    },
                    CardKind::Class => {
                        if let Some(items) = record.levels {
                            lemma_items_fault_names_card(items@, record.name@);
                        }
                    },
                    CardKind::Leveler => {
                        if let Some(items) = record.leveler_ranges {
                            lemma_items_fault_names_card(items@, record.name@);
                        }
                    },
                    CardKind::Split
                    | CardKind::Flip
                    | CardKind::Transform
                    | CardKind::ModalDfc
                    | CardKind::Meld => {
                        if let Some(items) = record.faces {
                            lemma_items_fault_names_card(items@, record.name@);
                        }
                    },
                    _ => {},
                }
            },
        },
    }
}

/// A list loads item by item: where every item loads, the list gives what
/// the items give, as many and in their order; where one does not, the list
/// gives the fault of the first that does not.
pub proof fn law_items_load_in_order<R: ListedRecord>(items: Seq<R>, card_name: Seq<char>)
    ensures
        match loaded_items(items, card_name) {
            Ok(loaded) => loaded.len() == items.len() && forall|i: int|
                0 <= i < items.len() ==> #[trigger] items[i].loaded(card_name, i) == Ok::<
                    <R::Loaded as DeepView>::V,
                    CardLoadErrorView,
                >(loaded[i]),
            Err(e) => exists|k: int|
                0 <= k < items.len() && #[trigger] items[k].loaded(card_name, k) == Err::<
                    <R::Loaded as DeepView>::V,
                    CardLoadErrorView,
                >(e) && forall|i: int| 0 <= i < k ==> (#[trigger] items[i].loaded(card_name, i)) is Ok,
        },
    decreases items.len(),
{
    if items.len() > 0 {
        let front = items.drop_last();
        let last = items.len() - 1;
        law_items_load_in_order(front, card_name);
        assert forall|i: int| 0 <= i < front.len() implies front[i] == items[i] by {}
        match loaded_items(front, card_name) {
            Err(e) => {
                let k = choose|k: int|
                    0 <= k < front.len() && #[trigger] front[k].loaded(card_name, k) == Err::<
                        <R::Loaded as DeepView>::V,
                        CardLoadErrorView,
                    >(e) && forall|i: int|
                        0 <= i < k ==> (#[trigger] front[i].loaded(card_name, i)) is Ok;
                assert(items[k].loaded(card_name, k) == front[k].loaded(card_name, k));
                assert forall|i: int| 0 <= i < k implies (#[trigger] items[i].loaded(
                    card_name,
                    i,
                )) is Ok by {
                    assert(front[i].loaded(card_name, i) is Ok);
                }
            },
            Ok(loaded) => {
                match items.last().loaded(card_name, last) {
                    Err(e) => {
                        assert(items[last].loaded(card_name, last) == Err::<
                            <R::Loaded as DeepView>::V,
                            CardLoadErrorView,
                        >(e));
                        assert forall|i: int| 0 <= i < last implies (#[trigger] items[i].loaded(
                            card_name,
                            i,
                        )) is Ok by {
                            assert(front[i].loaded(card_name, i) is Ok);
                        }
                    },
                    Ok(item) => {
                        let all = loaded.push(item);
                        assert forall|i: int| 0 <= i < items.len() implies #[trigger] items[i].loaded(
                            card_name,
                            i,
                        ) == Ok::<<R::Loaded as DeepView>::V, CardLoadErrorView>(all[i]) by {
                            if i < last {
                                assert(front[i].loaded(card_name, i) == Ok::<
                                    <R::Loaded as DeepView>::V,
                                    CardLoadErrorView,
                                >(loaded[i]));
                            }
                        }
                    },
                }
            },
        }
    }
}

/// An ability whose cost and text read well loads as that cost and text.
proof fn lemma_ability_loads(
    item: LoyaltyAbilityRecord,
    name: Seq<char>,
    index: int,
    cost: LoyaltyCost,
)
    requires
        loyalty_cost_outcome(normalized(item.cost.0@)) == Ok::<LoyaltyCost, Seq<char>>(cost),
        rules_read(item.text.0@) is Ok,
    ensures
        item.loaded(name, index) == Ok::<LoyaltyAbilityView, CardLoadErrorView>(
            LoyaltyAbilityView { cost, text: rules_read(item.text.0@)->Ok_0 },
        ),
{
    assert(loyalty_cost_read(item.cost.0@) == Ok::<LoyaltyCost, FieldFaultView>(cost));
}

/// The four abilities that cost `+2`, `0`, `-1` and `-12` load in their
/// order.
proof fn lemma_four_abilities_load(items: Seq<LoyaltyAbilityRecord>, name: Seq<char>)
    requires
        items.len() == 4,
        items[0].cost.0@ == "+2"@,
        items[1].cost.0@ == "0"@,
        items[2].cost.0@ == "-1"@,
        items[3].cost.0@ == "-12"@,
        forall|i: int| 0 <= i < 4 ==> rules_read(#[trigger] items[i].text.0@) is Ok,
    ensures
        loaded_items(items, name) is Ok,
        ({
            let loaded = loaded_items(items, name)->Ok_0;
            &&& loaded.len() == 4
            &&& loaded[0].cost == LoyaltyCost::Plus(2)
            &&& loaded[1].cost == LoyaltyCost::Zero
            &&& loaded[2].cost == LoyaltyCost::Minus(1)
            &&& loaded[3].cost == LoyaltyCost::Minus(12)
            &&& forall|i: int|
                0 <= i < 4 ==> Ok::<Seq<SegmentView>, FieldFaultView>(#[trigger] loaded[i].text)
                    == rules_read(items[i].text.0@)
        }),
{
    law_loyalty_grammar();
    assert(rules_read(items[0].text.0@) is Ok);
    assert(rules_read(items[1].text.0@) is Ok);
    assert(rules_read(items[2].text.0@) is Ok);
    assert(rules_read(items[3].text.0@) is Ok);
    lemma_ability_loads(items[0], name, 0, LoyaltyCost::Plus(2));
    lemma_ability_loads(items[1], name, 1, LoyaltyCost::Zero);
    lemma_ability_loads(items[2], name, 2, LoyaltyCost::Minus(1));
    lemma_ability_loads(items[3], name, 3, LoyaltyCost::Minus(12));
    law_items_load_in_order(items, name);
    match loaded_items(items, name) {
        Err(e) => {
            let k = choose|k: int|
                0 <= k < items.len() && #[trigger] items[k].loaded(name, k) == Err::<
                    LoyaltyAbilityView,
                    CardLoadErrorView,
                >(e) && forall|i: int| 0 <= i < k ==> (#[trigger] items[i].loaded(name, i)) is Ok;
            assert(k == 0 || k == 1 || k == 2 || k == 3);
        },
        Ok(loaded) => {
            assert(items[0].loaded(name, 0) == Ok::<LoyaltyAbilityView, CardLoadErrorView>(
                loaded[0],
            ));
            assert(items[1].loaded(name, 1) == Ok::<LoyaltyAbilityView, CardLoadErrorView>(
                loaded[1],
            ));
            assert(items[2].loaded(name, 2) == Ok::<LoyaltyAbilityView, CardLoadErrorView>(
                loaded[2],
            ));
            assert(items[3].loaded(name, 3) == Ok::<LoyaltyAbilityView, CardLoadErrorView>(
                loaded[3],
            ));
        },
    }
}

/// The planeswalker whose record carries the loyalty `3` and four abilities
/// that cost `+2`, `0`, `-1` and `-12`: where its base loads and the texts
/// of its abilities read well, the record loads as a planeswalker that
/// starts with three loyalty and has four abilities, which add two, cost
/// nothing, take one and take twelve, in the order of the record.
pub proof fn law_planeswalker_loads(record: CardRecord)
    requires
        kind_of(record.kind@) == Some(CardKind::Planeswalker),
        loaded_base(record) is Ok,
        record.loyalty is Some,
        record.loyalty->Some_0.0@ == "3"@,
        record.loyalty_abilities is Some,
        record.loyalty_abilities->Some_0@.len() == 4,
        record.loyalty_abilities->Some_0@[0].cost.0@ == "+2"@,
        record.loyalty_abilities->Some_0@[1].cost.0@ == "0"@,
        record.loyalty_abilities->Some_0@[2].cost.0@ == "-1"@,
        record.loyalty_abilities->Some_0@[3].cost.0@ == "-12"@,
        forall|i: int|
            0 <= i < 4 ==> rules_read(#[trigger] record.loyalty_abilities->Some_0@[i].text.0@) is Ok,
    ensures
        match loaded_card(record) {
            Ok(CardView::Planeswalker { base, loyalty, loyalty_abilities }) => {
                &&& Ok::<CardBaseView, CardLoadErrorView>(base) == loaded_base(record)
                &&& loyalty == LoyaltyValue::Numeric(3)
                &&& loyalty_abilities.len() == 4
                &&& loyalty_abilities[0].cost == LoyaltyCost::Plus(2)
                &&& loyalty_abilities[1].cost == LoyaltyCost::Zero
                &&& loyalty_abilities[2].cost == LoyaltyCost::Minus(1)
                &&& loyalty_abilities[3].cost == LoyaltyCost::Minus(12)
                &&& forall|i: int|
                    0 <= i < 4 ==> Ok::<Seq<SegmentView>, FieldFaultView>(
                        #[trigger] loyalty_abilities[i].text,
                    ) == rules_read(record.loyalty_abilities->Some_0@[i].text.0@)
            },
            _ => false,
        },
{
    law_loyalty_grammar();
    let items = record.loyalty_abilities->Some_0@;
    lemma_four_abilities_load(items, record.name@);
    assert(loyalty_value_read(record.loyalty->Some_0.0@) == Ok::<LoyaltyValue, FieldFaultView>(
        LoyaltyValue::Numeric(3),
    ));
    let base = loaded_base(record)->Ok_0;
    assert(loaded_card(record) == loaded_planeswalker(record, base));
}

} // verus!
