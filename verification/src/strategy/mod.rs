//! Strategies and the context they observe the world through.
//!
//! [`StrategyContext`] is the load-bearing type for lookahead prevention:
//! a strategy is only ever handed one of these, and it only exposes
//! history up to and including the current bar.
pub mod context;
pub mod ma_crossover;
pub mod mean_reversion;

pub mod momentum;
pub mod stats;

pub use context::{RingBuffer, StrategyContext};
pub use ma_crossover::MaCrossover;
pub use mean_reversion::MeanReversion;

pub use momentum::Momentum;

use crate::events::{MarketEvent, SignalEvent};
use vstd::prelude::*;

verus! {

/// A trading strategy: observes market events, emits signals expressing
/// directional intent.
///
/// `market_step` and `warmup_is` describe an implementation's behaviour to
/// the verifier; the defaults describe nothing (every outcome allowed).
pub trait Strategy {
    /// Whether a call of `on_market` on `event` and `ctx` may leave the
    /// strategy as `next` and return `signals`.
    open spec fn market_step(
        &self,
        event: &MarketEvent,
        ctx: &StrategyContext,
        next: &Self,
        signals: Seq<SignalEvent>,
    ) -> bool {
        true
    }

    /// Whether `warmup_bars` may return `n`.
    open spec fn warmup_is(&self, n: usize) -> bool {
        true
    }

    /// Called once per bar. May return zero or more signals.
    fn on_market(&mut self, event: &MarketEvent, ctx: &StrategyContext) -> (r: Vec<SignalEvent>)
        ensures
            old(self).market_step(event, ctx, final(self), r@),
    ;

    /// Number of leading bars the strategy needs before it can produce
    /// meaningful signals; the engine suppresses signals until this many
    /// bars have been observed.
    fn warmup_bars(&self) -> (r: usize)
        ensures
            self.warmup_is(r),
    ;
}

/// A strategy that never trades.
#[derive(Debug, Default)]
pub struct NoOpStrategy;

impl Strategy for NoOpStrategy {
    open spec fn market_step(
        &self,
        event: &MarketEvent,
        ctx: &StrategyContext,
        next: &Self,
        signals: Seq<SignalEvent>,
    ) -> bool {
        signals.len() == 0
    }

    open spec fn warmup_is(&self, n: usize) -> bool {
        n == 0
    }

    fn on_market(&mut self, _event: &MarketEvent, _ctx: &StrategyContext) -> (r: Vec<SignalEvent>)
        ensures
            r@.len() == 0,
    {
        Vec::new()
    }

    fn warmup_bars(&self) -> (r: usize)
        ensures
            r == 0,
    {
        0
    }
}

} // verus!
