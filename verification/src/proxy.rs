//! Values as records carry them: unread text, one wrapper for each grammar,
//! and the conversions between a value and its text.

use crate::cost::{cost_symbols, cost_text, ActionCost, CastingManaCost};
use crate::error::{error_message, ParseErrorView};
use crate::loyalty::{
    loyalty_cost_outcome, loyalty_cost_text, loyalty_value_outcome, loyalty_value_text,
    normalized, reported, LoyaltyCost, LoyaltyValue,
};
use crate::rules_text::{rules_segments, rules_text_bytes, RulesText};
use crate::symbol::{CastingManaSymbol, ManaSymbol};
use vstd::prelude::*;
use vstd::std_specs::convert::{FromSpecImpl, TryFromSpecImpl};
use vstd::string::*;
use vstd::utf8::*;

verus! {

/// The text of a casting cost.
#[derive(Debug, Clone, PartialEq, Eq)]
pub struct CastingManaCostProxy(pub String);

/// The text of an action cost.
#[derive(Debug, Clone, PartialEq, Eq)]
pub struct ActionCostProxy(pub String);

/// The text of rules text.
#[derive(Debug, Clone, PartialEq, Eq)]
pub struct RulesTextProxy(pub String);

/// The text of a loyalty cost.
#[derive(Debug, Clone, PartialEq, Eq)]
pub struct LoyaltyCostProxy(pub String);

/// The text of a starting loyalty.
#[derive(Debug, Clone, PartialEq, Eq)]
pub struct LoyaltyValueProxy(pub String);

/// An outcome whose fault is told in a sentence.
pub open spec fn described<T>(r: Result<T, ParseErrorView>) -> Result<T, Seq<char>> {
    match r {
        Ok(value) => Ok(value),
        Err(e) => Err(error_message(e)),
    }
}

/// The mathematical value of a conversion's result.
pub open spec fn converted<T: View>(r: Result<T, String>) -> Result<T::V, Seq<char>> {
    match r {
        Ok(value) => Ok(value@),
        Err(report) => Err(report@),
    }
}

/// The mathematical value of the result of a conversion that may find
/// nothing to convert.
pub open spec fn converted_optional<T: View>(r: Result<Option<T>, String>) -> Result<
    Option<T::V>,
    Seq<char>,
> {
    match r {
        Ok(Some(value)) => Ok(Some(value@)),
        Ok(None) => Ok(None),
        Err(report) => Err(report@),
    }
}

/// What a text that may be empty denotes: nothing where it is empty, else
/// what reading it gives.
pub open spec fn unless_empty<T, E>(text: Seq<char>, outcome: Result<T, E>) -> Result<
    Option<T>,
    E,
> {
    if text.len() == 0 {
        Ok(None)
    } else {
        match outcome {
            Ok(value) => Ok(Some(value)),
            Err(e) => Err(e),
        }
    }
}

impl From<CastingManaSymbol> for ManaSymbol {
    fn from(symbol: CastingManaSymbol) -> (r: ManaSymbol) {
        ManaSymbol::Casting(symbol)
    }
}

impl FromSpecImpl<CastingManaSymbol> for ManaSymbol {
    open spec fn obeys_from_spec() -> bool {
        true
    }

    open spec fn from_spec(symbol: CastingManaSymbol) -> ManaSymbol {
        ManaSymbol::Casting(symbol)
    }
}

impl TryFrom<String> for CastingManaCost {
    type Error = String;

    /// Reads a casting cost; a fault is told in a sentence.
    fn try_from(value: String) -> (r: Result<CastingManaCost, String>)
        ensures
            converted(r) == described(cost_symbols::<CastingManaSymbol>(encode_utf8(value@))),
    {
        match CastingManaCost::parse(value.as_str()) {
            Ok(cost) => Ok(cost),
            Err(e) => Err(e.to_string()),
        }
    }
}

impl TryFromSpecImpl<String> for CastingManaCost {
    open spec fn obeys_try_from_spec() -> bool {
        false
    }

    open spec fn try_from_spec(value: String) -> Result<CastingManaCost, String> {
        arbitrary()
    }
}

impl TryFrom<CastingManaCostProxy> for CastingManaCost {
    type Error = String;

    /// Reads the casting cost that a record carries.
    fn try_from(proxy: CastingManaCostProxy) -> (r: Result<CastingManaCost, String>)
        ensures
            converted(r) == described(cost_symbols::<CastingManaSymbol>(encode_utf8(proxy.0@))),
    {
        match CastingManaCost::parse(proxy.0.as_str()) {
            Ok(cost) => Ok(cost),
            Err(e) => Err(e.to_string()),
        }
    }
}

impl TryFromSpecImpl<CastingManaCostProxy> for CastingManaCost {
    open spec fn obeys_try_from_spec() -> bool {
        false
    }

    open spec fn try_from_spec(proxy: CastingManaCostProxy) -> Result<CastingManaCost, String> {
        arbitrary()
    }
}

impl From<&str> for CastingManaCost {
    /// Reads a casting cost leniently: a text that does not read well gives
    /// the empty cost.
    fn from(text: &str) -> (r: CastingManaCost)
        ensures
            r@ == match cost_symbols::<CastingManaSymbol>(text.spec_bytes()) {
                Ok(symbols) => symbols,
                Err(_) => Seq::empty(),
            },
    {
        match CastingManaCost::parse(text) {
            Ok(cost) => cost,
            Err(_) => CastingManaCost { symbols: Vec::new() },
        }
    }
}

impl FromSpecImpl<&str> for CastingManaCost {
    open spec fn obeys_from_spec() -> bool {
        false
    }

    open spec fn from_spec(text: &str) -> CastingManaCost {
        arbitrary()
    }
}

impl CastingManaCostProxy {
    /// The text of a cost: its printed form.
    pub fn of(cost: &CastingManaCost) -> (r: Self)
        ensures
            encode_utf8(r.0@) == cost_text(cost@),
    {
        CastingManaCostProxy(cost.to_string())
    }

    /// The text of a cost that may be absent: the empty text where it is.
    pub fn of_optional(cost: &Option<CastingManaCost>) -> (r: Self)
        ensures
            encode_utf8(r.0@) == match *cost {
                Some(c) => cost_text(c@),
                None => Seq::empty(),
            },
    {
        match cost {
            Some(c) => CastingManaCostProxy(c.to_string()),
            None => CastingManaCostProxy(String::new()),
        }
    }

    /// Reads a cost that may be absent: the empty text is no cost at all,
    /// which is not the cost of no symbols.
    pub fn into_optional(self) -> (r: Result<Option<CastingManaCost>, String>)
        ensures
            converted_optional(r) == unless_empty(
                self.0@,
                described(cost_symbols::<CastingManaSymbol>(encode_utf8(self.0@))),
            ),
    {
        if self.0.as_str().is_empty() {
            Ok(None)
        } else {
            match CastingManaCost::try_from(self) {
                Ok(cost) => Ok(Some(cost)),
                Err(report) => Err(report),
            }
        }
    }
}

impl TryFrom<String> for ActionCost {
    type Error = String;

    /// Reads an action cost; a fault is told in a sentence.
    fn try_from(value: String) -> (r: Result<ActionCost, String>)
        ensures
            converted(r) == described(cost_symbols::<ManaSymbol>(encode_utf8(value@))),
    {
        match ActionCost::parse(value.as_str()) {
            Ok(cost) => Ok(cost),
            Err(e) => Err(e.to_string()),
        }
    }
}

impl TryFromSpecImpl<String> for ActionCost {
    open spec fn obeys_try_from_spec() -> bool {
        false
    }

    open spec fn try_from_spec(value: String) -> Result<ActionCost, String> {
        arbitrary()
    }
}

impl TryFrom<ActionCostProxy> for ActionCost {
    type Error = String;

    /// Reads the action cost that a record carries.
    fn try_from(proxy: ActionCostProxy) -> (r: Result<ActionCost, String>)
        ensures
            converted(r) == described(cost_symbols::<ManaSymbol>(encode_utf8(proxy.0@))),
    {
        match ActionCost::parse(proxy.0.as_str()) {
            Ok(cost) => Ok(cost),
            Err(e) => Err(e.to_string()),
        }
    }
}

impl TryFromSpecImpl<ActionCostProxy> for ActionCost {
    open spec fn obeys_try_from_spec() -> bool {
        false
    }

    open spec fn try_from_spec(proxy: ActionCostProxy) -> Result<ActionCost, String> {
        arbitrary()
    }
}

impl From<&str> for ActionCost {
    /// Reads an action cost leniently: a text that does not read well gives
    /// the empty cost.
    fn from(text: &str) -> (r: ActionCost)
        ensures
            r@ == match cost_symbols::<ManaSymbol>(text.spec_bytes()) {
                Ok(symbols) => symbols,
                Err(_) => Seq::empty(),
            },
    {
        match ActionCost::parse(text) {
            Ok(cost) => cost,
            Err(_) => ActionCost { symbols: Vec::new() },
        }
    }
}

impl FromSpecImpl<&str> for ActionCost {
    open spec fn obeys_from_spec() -> bool {
        false
    }

    open spec fn from_spec(text: &str) -> ActionCost {
        arbitrary()
    }
}

impl ActionCostProxy {
    /// The text of a cost: its printed form.
    pub fn of(cost: &ActionCost) -> (r: Self)
        ensures
            encode_utf8(r.0@) == cost_text(cost@),
    {
        ActionCostProxy(cost.to_string())
    }
}

impl TryFrom<RulesTextProxy> for RulesText {
    type Error = String;

    /// Reads the rules text that a record carries.
    fn try_from(proxy: RulesTextProxy) -> (r: Result<RulesText, String>)
        ensures
            converted(r) == described(rules_segments(encode_utf8(proxy.0@))),
    {
        match RulesText::parse(proxy.0.as_str()) {
            Ok(text) => Ok(text),
            Err(e) => Err(e.to_string()),
        }
    }
}

impl TryFromSpecImpl<RulesTextProxy> for RulesText {
    open spec fn obeys_try_from_spec() -> bool {
        false
    }

    open spec fn try_from_spec(proxy: RulesTextProxy) -> Result<RulesText, String> {
        arbitrary()
    }
}

impl RulesTextProxy {
    /// The text of rules text: its printed form.
    pub fn of(text: &RulesText) -> (r: Self)
        ensures
            encode_utf8(r.0@) == rules_text_bytes(text@),
    {
        RulesTextProxy(text.to_string())
    }

    /// The text of rules text that may be absent: the empty text where it is.
    pub fn of_optional(text: &Option<RulesText>) -> (r: Self)
        ensures
            encode_utf8(r.0@) == match *text {
                Some(t) => rules_text_bytes(t@),
                None => Seq::empty(),
            },
    {
        match text {
            Some(t) => RulesTextProxy(t.to_string()),
            None => RulesTextProxy(String::new()),
        }
    }

    /// Reads rules text that may be absent: the empty text is none at all.
    pub fn into_optional(self) -> (r: Result<Option<RulesText>, String>)
        ensures
            converted_optional(r) == unless_empty(
                self.0@,
                described(rules_segments(encode_utf8(self.0@))),
            ),
    {
        if self.0.as_str().is_empty() {
            Ok(None)
        } else {
            match RulesText::try_from(self) {
                Ok(text) => Ok(Some(text)),
                Err(report) => Err(report),
            }
        }
    }
}

impl TryFrom<String> for LoyaltyCost {
    type Error = String;

    /// Reads a loyalty cost.
    fn try_from(value: String) -> (r: Result<LoyaltyCost, String>)
        ensures
            reported(r) == loyalty_cost_outcome(normalized(value@)),
    {
        LoyaltyCost::parse(value.as_str())
    }
}

impl TryFromSpecImpl<String> for LoyaltyCost {
    open spec fn obeys_try_from_spec() -> bool {
        false
    }

    open spec fn try_from_spec(value: String) -> Result<LoyaltyCost, String> {
        arbitrary()
    }
}

impl TryFrom<LoyaltyCostProxy> for LoyaltyCost {
    type Error = String;

    /// Reads the loyalty cost that a record carries.
    fn try_from(proxy: LoyaltyCostProxy) -> (r: Result<LoyaltyCost, String>)
        ensures
            reported(r) == loyalty_cost_outcome(normalized(proxy.0@)),
    {
        LoyaltyCost::parse(proxy.0.as_str())
    }
}

impl TryFromSpecImpl<LoyaltyCostProxy> for LoyaltyCost {
    open spec fn obeys_try_from_spec() -> bool {
        false
    }

    open spec fn try_from_spec(proxy: LoyaltyCostProxy) -> Result<LoyaltyCost, String> {
        arbitrary()
    }
}

impl LoyaltyCostProxy {
    /// The text of a loyalty cost: its printed form.
    pub fn of(cost: &LoyaltyCost) -> (r: Self)
        ensures
            encode_utf8(r.0@) == loyalty_cost_text(*cost),
    {
        LoyaltyCostProxy(cost.to_string())
    }
}

impl TryFrom<String> for LoyaltyValue {
    type Error = String;

    /// Reads a starting loyalty.
    fn try_from(value: String) -> (r: Result<LoyaltyValue, String>)
        ensures
            reported(r) == loyalty_value_outcome(normalized(value@)),
    {
        LoyaltyValue::parse(value.as_str())
    }
}

impl TryFromSpecImpl<String> for LoyaltyValue {
    open spec fn obeys_try_from_spec() -> bool {
        false
    }

    open spec fn try_from_spec(value: String) -> Result<LoyaltyValue, String> {
        arbitrary()
    }
}

impl TryFrom<LoyaltyValueProxy> for LoyaltyValue {
    type Error = String;

    /// Reads the starting loyalty that a record carries.
    fn try_from(proxy: LoyaltyValueProxy) -> (r: Result<LoyaltyValue, String>)
        ensures
            reported(r) == loyalty_value_outcome(normalized(proxy.0@)),
    {
        LoyaltyValue::parse(proxy.0.as_str())
    }
}

impl TryFromSpecImpl<LoyaltyValueProxy> for LoyaltyValue {
    open spec fn obeys_try_from_spec() -> bool {
        false
    }

    open spec fn try_from_spec(proxy: LoyaltyValueProxy) -> Result<LoyaltyValue, String> {
        arbitrary()
    }
}

/// The mathematical value of the result of reading a value that may be
/// absent.
pub open spec fn reported_optional<T>(r: Result<Option<T>, String>) -> Result<
    Option<T>,
    Seq<char>,
> {
    match r {
        Ok(value) => Ok(value),
        Err(report) => Err(report@),
    }
}

impl LoyaltyValueProxy {
    /// The text of a starting loyalty: its printed form.
    pub fn of(value: &LoyaltyValue) -> (r: Self)
        ensures
            encode_utf8(r.0@) == loyalty_value_text(*value),
    {
        LoyaltyValueProxy(value.to_string())
    }

    /// The text of a starting loyalty that may be absent: the empty text
    /// where it is.
    pub fn of_optional(value: &Option<LoyaltyValue>) -> (r: Self)
        ensures
            encode_utf8(r.0@) == match *value {
                Some(v) => loyalty_value_text(v),
                None => Seq::empty(),
            },
    {
        match value {
            Some(v) => LoyaltyValueProxy(v.to_string()),
            None => LoyaltyValueProxy(String::new()),
        }
    }

    /// Reads a starting loyalty that may be absent: the empty text is none
    /// at all.
    pub fn into_optional(self) -> (r: Result<Option<LoyaltyValue>, String>)
        ensures
            reported_optional(r) == unless_empty(
                self.0@,
                loyalty_value_outcome(normalized(self.0@)),
            ),
    {
        if self.0.as_str().is_empty() {
            Ok(None)
        } else {
            match LoyaltyValue::try_from(self) {
                Ok(value) => Ok(Some(value)),
                Err(report) => Err(report),
            }
        }
    }
}

} // verus!
