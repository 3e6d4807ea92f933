//! How submitted orders turn into fills.
pub mod models;
pub mod simulated;

use crate::events::{FillEvent, MarketEvent, OrderEvent};
use vstd::prelude::*;

verus! {

/// Simulates order execution against market data.
///
/// `bar_step` and `submit_step` describe an implementation's behaviour to
/// the verifier; the defaults describe nothing (every outcome allowed).
pub trait ExecutionModel {
    /// Whether `on_bar(bar)` may leave the model as `next` and return `fills`.
    open spec fn bar_step(&self, bar: &MarketEvent, next: &Self, fills: Seq<FillEvent>) -> bool {
        true
    }

    /// Whether `submit(order)` may leave the model as `next`.
    open spec fn submit_step(&self, order: &OrderEvent, next: &Self) -> bool {
        true
    }

    /// Called with each new bar, before it is dispatched to the strategy,
    /// so resting orders from previous bars get a chance to fill first.
    /// Must never fill an order against the bar that generated it.
    fn on_bar(&mut self, bar: &MarketEvent) -> (r: Vec<FillEvent>)
        ensures
            old(self).bar_step(bar, final(self), r@),
    ;

    /// Accepts a new order for later fill attempts.
    fn submit(&mut self, order: OrderEvent)
        ensures
            old(self).submit_step(&order, final(self)),
    ;
}

} // verus!
