//! A simple type for calculating with monetary values.
//!
//! An amount of money is an exact count of minor units (cents) together with
//! an optional currency symbol.  Arithmetic never goes through floating
//! point, and amounts carrying two different symbols refuse to combine.

use vstd::prelude::*;

pub mod display;
pub mod math;
pub mod parse;
pub mod sum;

verus! {

/// Mathematical model of an amount: the optional currency symbol and the
/// exact count of minor units, free of any machine-integer bound.
pub ghost struct Money {
    pub symbol: Option<char>,
    pub value: int,
}

/// Represents currency through an optional symbol and an amount of coin.
///
/// Each 100 coins make one banknote: a value of 432 with symbol `'$'`
/// renders as `$4.32`.
#[derive(Clone, Copy, Debug, PartialEq, Eq, Structural)]
pub struct Currency {
    /// Currency symbol, e.g. a dollar, euro, pound or yen sign.
    pub symbol: Option<char>,
    /// Value in the smallest possible unit.
    pub value: i64,
}

impl View for Currency {
    type V = Money;

    open spec fn view(&self) -> Money {
        Money { symbol: self.symbol, value: self.value as int }
    }
}

impl DeepView for Currency {
    type V = Money;

    open spec fn deep_view(&self) -> Money {
        self.view()
    }
}

/// The neutral amount: no symbol, zero minor units.
pub open spec fn default_money() -> Money {
    Money { symbol: None, value: 0 }
}

impl Currency {
    /// Creates a blank Currency: no symbol, zero value.
    pub fn new() -> (r: Currency)
        ensures
            r@ == default_money(),
    {
        Currency { symbol: None, value: 0 }
    }

    /// Initializes from a count of minor units, with no symbol.
    pub fn from_value(value: i64) -> (r: Currency)
        ensures
            r.symbol == None::<char>,
            r.value == value,
    {
        Currency { symbol: None, value }
    }

    /// Returns the inner value.
    pub fn value(&self) -> (r: i64)
        ensures
            r == self.value,
    {
        self.value
    }

    /// Returns the inner symbol.
    pub fn symbol(&self) -> (r: Option<char>)
        ensures
            r == self.symbol,
    {
        self.symbol
    }
}

impl Default for Currency {
    /// The default amount is the neutral element used by summation.
    fn default() -> (r: Currency)
        ensures
            r@ == default_money(),
    {
        Currency { symbol: None, value: 0 }
    }
}

impl From<i64> for Currency {
    /// Converts from a count of minor units, with no symbol.
    fn from(value: i64) -> (r: Currency) {
        Currency { symbol: None, value }
    }
}

impl vstd::std_specs::convert::FromSpecImpl<i64> for Currency {
    open spec fn obeys_from_spec() -> bool {
        true
    }

    open spec fn from_spec(value: i64) -> Currency {
        Currency { symbol: None, value }
    }
}

impl From<(char, i64)> for Currency {
    /// Converts from a pair of symbol and minor-unit count.
    fn from(tpl: (char, i64)) -> (r: Currency) {
        Currency { symbol: Some(tpl.0), value: tpl.1 }
    }
}

impl vstd::std_specs::convert::FromSpecImpl<(char, i64)> for Currency {
    open spec fn obeys_from_spec() -> bool {
        true
    }

    open spec fn from_spec(tpl: (char, i64)) -> Currency {
        Currency { symbol: Some(tpl.0), value: tpl.1 }
    }
}

impl From<(i64, char)> for Currency {
    /// Converts from a pair of minor-unit count and symbol.
    fn from(tpl: (i64, char)) -> (r: Currency) {
        Currency { symbol: Some(tpl.1), value: tpl.0 }
    }
}

impl vstd::std_specs::convert::FromSpecImpl<(i64, char)> for Currency {
    open spec fn obeys_from_spec() -> bool {
        true
    }

    open spec fn from_spec(tpl: (i64, char)) -> Currency {
        Currency { symbol: Some(tpl.1), value: tpl.0 }
    }
}

/// Where an amount stands relative to another: by value alone.  The symbol
/// is not part of the ordering key; comparing amounts across symbols is the
/// caller's responsibility.
pub open spec fn cmp_by_value(a: Money, b: Money) -> Option<core::cmp::Ordering> {
    if a.value < b.value {
        Some(core::cmp::Ordering::Less)
    } else if a.value == b.value {
        Some(core::cmp::Ordering::Equal)
    } else {
        Some(core::cmp::Ordering::Greater)
    }
}

impl PartialOrd for Currency {
    /// Ordering compares the values numerically and ignores the symbols.
    fn partial_cmp(&self, other: &Currency) -> (r: Option<core::cmp::Ordering>) {
        if self.value < other.value {
            Some(core::cmp::Ordering::Less)
        } else if self.value == other.value {
            Some(core::cmp::Ordering::Equal)
        } else {
            Some(core::cmp::Ordering::Greater)
        }
    }
}

impl vstd::std_specs::cmp::PartialOrdSpecImpl for Currency {
    open spec fn obeys_partial_cmp_spec() -> bool {
        true
    }

    open spec fn partial_cmp_spec(&self, other: &Currency) -> Option<core::cmp::Ordering> {
        cmp_by_value(self@, other@)
    }
}

/// Borrowed read-only view of an amount that renders with the currency
/// symbol at the end and a comma before the minor units.
pub struct Postfix<'a> {
    money: &'a Currency,
}

/// Borrowed read-only view of an amount that renders with the currency
/// symbol at the front and a dot before the minor units.
pub struct Prefix<'a> {
    money: &'a Currency,
}

impl<'a> View for Postfix<'a> {
    type V = Money;

    closed spec fn view(&self) -> Money {
        self.money@
    }
}

impl<'a> View for Prefix<'a> {
    type V = Money;

    closed spec fn view(&self) -> Money {
        self.money@
    }
}

impl Currency {
    /// Returns a view that renders the amount with the symbol at the end.
    pub fn postfix(&self) -> (r: Postfix<'_>)
        ensures
            r@ == self@,
    {
        Postfix { money: self }
    }

    /// Returns a view that renders the amount with the symbol at the front.
    pub fn prefix(&self) -> (r: Prefix<'_>)
        ensures
            r@ == self@,
    {
        Prefix { money: self }
    }
}

} // verus!
