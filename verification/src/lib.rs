//! Trading cards as typed values: the grammar of costs and of rules text, the
//! shapes a card can have, and the loading of a card from a record of strings.

pub mod ascii;
pub mod card;
pub mod cost;
pub mod error;
pub mod frame;
pub mod laws;
pub mod loader;
pub mod loyalty;
pub mod proxy;
pub mod record;
pub mod rules_text;
pub mod symbol;
pub mod text;
pub mod utils;

pub use card::{
    AdventureCard, AdventureSpell, BattleCard, Card, CardBase, CardFace, ClassCard, ClassLevel,
    FlipCard, LevelerCard, LevelerRange, LoyaltyAbility, MeldCard, ModalDfcCard, NormalCard,
    PlaneswalkerCard, PrototypeCard, Rarity, SagaCard, SagaChapter, SplitCard, TransformCard,
};
pub use cost::{ActionCost, CastingManaCost};
pub use error::ManaCostParseError;
pub use frame::{derive_frame_color, frame_color, Color, FrameColor};
pub use loyalty::{LoyaltyCost, LoyaltyValue};
pub use proxy::{
    ActionCostProxy, CastingManaCostProxy, LoyaltyCostProxy, LoyaltyValueProxy, RulesTextProxy,
};
pub use record::{
    AdventureSpellRecord, CardFaceRecord, CardField, CardKind, CardLoadError, CardRecord,
    ClassLevelRecord, FieldFault, LevelerRangeRecord, LoyaltyAbilityRecord, SagaChapterRecord,
};
pub use rules_text::{RulesText, RulesTextSegment};
pub use symbol::{CastingManaSymbol, ManaSymbol};
pub use utils::sanitize_card_name;
