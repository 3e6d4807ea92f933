//! Identifiers and price bars.
use vstd::prelude::*;
use vstd::std_specs::cmp::PartialEqSpecImpl;
use vstd::std_specs::convert::FromSpecImpl;

verus! {

/// A price: `SCALE` units per currency unit (see [`crate::fixed`]).
pub type Price = i64;

/// A share/contract quantity: `SCALE` units per share.
pub type Quantity = i64;

/// Money (cash, PnL, commission): `MONEY_SCALE` units per currency unit.
pub type Money = i128;

/// A point in time: milliseconds since the Unix epoch, UTC.
pub type Timestamp = i64;

/// A ticker/instrument identifier.
#[derive(Debug, Eq, Hash, PartialOrd, Ord)]
pub struct SymbolId(String);

impl PartialEq for SymbolId {
    fn eq(&self, other: &Self) -> (r: bool) {
        self.0 == other.0
    }
}

/// Two identifiers are equal exactly when they name the same symbol.
impl PartialEqSpecImpl for SymbolId {
    open spec fn obeys_eq_spec() -> bool {
        true
    }

    open spec fn eq_spec(&self, other: &Self) -> bool {
        self@ == other@
    }
}

impl View for SymbolId {
    type V = Seq<char>;

    closed spec fn view(&self) -> Seq<char> {
        self.0@
    }
}

impl Clone for SymbolId {
    fn clone(&self) -> (r: Self)
        ensures
            r == *self,
    {
        SymbolId(self.0.clone())
    }
}

impl From<&str> for SymbolId {
    fn from(value: &str) -> (r: Self)
        ensures
            r@ == value@,
    {
        SymbolId(value.to_owned())
    }
}

impl From<String> for SymbolId {
    fn from(value: String) -> (r: Self)
        ensures
            r@ == value@,
    {
        SymbolId(value)
    }
}

/// A conversion's result is described by its own `ensures` (the view of
/// the identifier is the text it was made from), not by a spec function.
impl FromSpecImpl<&str> for SymbolId {
    open spec fn obeys_from_spec() -> bool {
        false
    }

    open spec fn from_spec(v: &str) -> Self {
        arbitrary()
    }
}

/// A conversion's result is described by its own `ensures` (the view of
/// the identifier is the text it was made from), not by a spec function.
impl FromSpecImpl<String> for SymbolId {
    open spec fn obeys_from_spec() -> bool {
        false
    }

    open spec fn from_spec(v: String) -> Self {
        arbitrary()
    }
}

impl SymbolId {
    pub fn new(symbol: &str) -> (r: Self)
        ensures
            r@ == symbol@,
    {
        SymbolId(symbol.to_owned())
    }

    pub fn as_str(&self) -> (r: &str)
        ensures
            r@ == self@,
    {
        self.0.as_str()
    }

    /// Whether two identifiers name the same symbol.
    pub fn same_as(&self, other: &SymbolId) -> (r: bool)
        ensures
            r == (self@ == other@),
    {
        self.0 == other.0
    }
}

/// A single OHLCV price bar for one symbol at one point in time.
#[derive(Debug, Clone, Copy, PartialEq, Eq, Structural)]
pub struct Bar {
    pub timestamp: Timestamp,
    pub open: Price,
    pub high: Price,
    pub low: Price,
    pub close: Price,
    pub volume: Quantity,
}

impl Bar {
    /// The invariants a well-formed bar satisfies: no negative price or
    /// volume, and `low <= {open, close} <= high`.
    pub open spec fn spec_is_valid(&self) -> bool {
        &&& self.open >= 0
        &&& self.high >= 0
        &&& self.low >= 0
        &&& self.close >= 0
        &&& self.volume >= 0
        &&& self.high >= self.low
        &&& self.high >= self.open
        &&& self.high >= self.close
        &&& self.low <= self.open
        &&& self.low <= self.close
    }

    /// Checks the invariants a well-formed bar must satisfy.
    pub fn is_valid(&self) -> (r: bool)
        ensures
            r == self.spec_is_valid(),
    {
        if self.open < 0 || self.high < 0 || self.low < 0 || self.close < 0 {
            return false;
        }
        if self.volume < 0 {
            return false;
        }
        self.high >= self.low && self.high >= self.open && self.high >= self.close && self.low
            <= self.open && self.low <= self.close
    }
}

} // verus!
