//! The event types of the engine's pipeline.
//!
//! `MarketEvent -> SignalEvent -> OrderEvent -> FillEvent` is a one-way
//! pipeline. `SignalEvent` carries *intent* (direction + strength), not a
//! sized order: sizing is owned by the portfolio's sizing model.
use crate::data::types::{Bar, Money, Price, Quantity, SymbolId, Timestamp};
use vstd::prelude::*;

verus! {

/// A unique identifier for an order, assigned by whatever sizes it.
pub type OrderId = u64;

/// Any one of the four event kinds of the pipeline.
#[derive(Debug, Clone)]
pub enum Event {
    Market(MarketEvent),
    Signal(SignalEvent),
    Order(OrderEvent),
    Fill(FillEvent),
}

/// A new bar has become available for `symbol`.
#[derive(Debug, Clone)]
pub struct MarketEvent {
    pub symbol: SymbolId,
    pub bar: Bar,
}

/// The direction of exposure a strategy wants.
#[derive(Debug, Clone, Copy, PartialEq, Eq, Structural)]
pub enum Direction {
    Long,
    Short,
    Exit,
}

/// A strategy's expressed intent: exposure in a direction, with a
/// conviction (`strength`, fixed-point with `SCALE` units per 1.0).
#[derive(Debug, Clone)]
pub struct SignalEvent {
    pub symbol: SymbolId,
    pub timestamp: Timestamp,
    pub direction: Direction,
    pub strength: i64,
}

/// Which side of the market an order/fill is on.
#[derive(Debug, Clone, Copy, PartialEq, Eq, Structural)]
pub enum Side {
    Buy,
    Sell,
}

/// How an order should be executed.
#[derive(Debug, Clone, Copy, PartialEq, Eq, Structural)]
pub enum OrderType {
    Market,
    Limit { price: Price },
}

/// A concrete, sized instruction to trade.
#[derive(Debug, Clone)]
pub struct OrderEvent {
    pub id: OrderId,
    pub symbol: SymbolId,
    pub timestamp: Timestamp,
    pub side: Side,
    pub order_type: OrderType,
    pub quantity: Quantity,
}

/// A (possibly partial) execution report for a previously submitted order.
/// `reference_price` is what the fill would have cost with zero slippage.
#[derive(Debug, Clone)]
pub struct FillEvent {
    pub order_id: OrderId,
    pub symbol: SymbolId,
    pub timestamp: Timestamp,
    pub side: Side,
    pub quantity_filled: Quantity,
    pub fill_price: Price,
    pub commission: Money,
    pub reference_price: Price,
}

impl OrderEvent {
    /// A copy of this order (same fields, same symbol).
    pub fn copy(&self) -> (r: OrderEvent)
        ensures
            r == *self,
    {
        OrderEvent {
            id: self.id,
            symbol: self.symbol.clone(),
            timestamp: self.timestamp,
            side: self.side,
            order_type: self.order_type,
            quantity: self.quantity,
        }
    }
}

impl FillEvent {
    /// A copy of this fill (same fields, same symbol).
    pub fn copy(&self) -> (r: FillEvent)
        ensures
            r == *self,
    {
        FillEvent {
            order_id: self.order_id,
            symbol: self.symbol.clone(),
            timestamp: self.timestamp,
            side: self.side,
            quantity_filled: self.quantity_filled,
            fill_price: self.fill_price,
            commission: self.commission,
            reference_price: self.reference_price,
        }
    }
}

} // verus!
