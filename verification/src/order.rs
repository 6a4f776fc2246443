//! Order data model: sides, order types, and the resting order record.

use vstd::prelude::*;

verus! {

/// The side of an order: a bid (`Buy`) or an offer (`Sell`).
#[derive(Clone, Copy, PartialEq, Eq, Structural, Debug)]
pub enum Side {
    Buy,
    Sell,
}

impl Side {
    /// The side that an incoming order of this side matches against.
    pub open spec fn spec_opposite(self) -> Side {
        match self {
            Side::Buy => Side::Sell,
            Side::Sell => Side::Buy,
        }
    }

    /// Executable counterpart of [`Side::spec_opposite`].
    pub fn opposite(self) -> (r: Side)
        ensures
            r == self.spec_opposite(),
    {
        match self {
            Side::Buy => Side::Sell,
            Side::Sell => Side::Buy,
        }
    }
}

/// Order types the book declares. Only `Limit` is exercised by the
/// matching path; the rest are reserved for future extensions and have
/// no behaviour here.
#[derive(Clone, Copy, PartialEq, Eq, Structural, Debug)]
pub enum OrderType {
    Limit,
    Market,
    IOC,
    FOK,
}

/// A limit order. `id`, `side`, `px` and `qty` are immutable once the
/// order is created; `rest` (the remaining quantity) is decremented only
/// by the matching step.
#[derive(Clone, Copy, PartialEq, Eq, Structural, Debug)]
pub struct Order {
    pub id: u64,
    pub side: Side,
    pub px: u64,
    pub qty: u64,
    pub rest: u64,
}

impl Order {
    /// A valid order: positive price, positive original quantity, and a
    /// remaining quantity between 1 and the original (an exhausted order
    /// never appears in a book).
    pub open spec fn wf(self) -> bool {
        &&& self.px >= 1
        &&& self.qty >= 1
        &&& 1 <= self.rest <= self.qty
    }

    /// The same order with its remaining quantity replaced.
    pub open spec fn with_rest(self, rest: u64) -> Order {
        Order { rest, ..self }
    }
}

/// Price `a` is strictly better than price `b` from the resting side's
/// point of view: higher for bids, lower for offers.
pub open spec fn better(side: Side, a: u64, b: u64) -> bool {
    match side {
        Side::Buy => a > b,
        Side::Sell => a < b,
    }
}

/// Price `a` is at least as good as price `b` for this side.
pub open spec fn better_eq(side: Side, a: u64, b: u64) -> bool {
    better(side, a, b) || a == b
}

/// Executable counterpart of [`better`].
pub fn is_better(side: Side, a: u64, b: u64) -> (r: bool)
    ensures
        r == better(side, a, b),
{
    match side {
        Side::Buy => a > b,
        Side::Sell => a < b,
    }
}

/// An incoming order with limit price `limit_px` on side `side` may trade
/// against a resting price `resting_px` on the opposite side: a buy takes
/// offers at or below its limit, a sell takes bids at or above it.
pub open spec fn spec_marketable(side: Side, limit_px: u64, resting_px: u64) -> bool {
    match side {
        Side::Buy => limit_px >= resting_px,
        Side::Sell => limit_px <= resting_px,
    }
}

/// Executable counterpart of [`spec_marketable`].
pub fn marketable(side: Side, limit_px: u64, resting_px: u64) -> (r: bool)
    ensures
        r == spec_marketable(side, limit_px, resting_px),
{
    match side {
        Side::Buy => limit_px >= resting_px,
        Side::Sell => limit_px <= resting_px,
    }
}

} // verus!
