//! Momentum: long whenever the trailing `lookback`-bar return exceeds
//! `threshold`; flat otherwise. Returns are compared exactly.
use super::{Strategy, StrategyContext};
use crate::data::types::Bar;
use crate::events::{Direction, MarketEvent, SignalEvent};
use crate::fixed::{wide_mul, SCALE};
use vstd::prelude::*;

verus! {

/// Whether the return from `past` to `current`, `(current - past) / past`,
/// exceeds `threshold / SCALE`; `past` is non-zero.
pub open spec fn return_exceeds(current: int, past: int, threshold: int) -> bool {
    if past > 0 {
        (current - past) * SCALE > threshold * past
    } else {
        (current - past) * SCALE < threshold * past
    }
}

/// Whether momentum over `h` says "long": `None` until `lookback + 1` bars
/// exist, or when the reference close is zero (the return is undefined).
pub open spec fn momentum_long(h: Seq<Bar>, lookback: int, threshold: int) -> Option<bool> {
    if h.len() <= lookback {
        None
    } else {
        let current = h[h.len() - 1].close;
        let past = h[h.len() - 1 - lookback].close;
        if past == 0 {
            None
        } else {
            Some(return_exceeds(current as int, past as int, threshold))
        }
    }
}

/// The signal a momentum strategy in state `is_long` emits on history `h`.
pub open spec fn momentum_direction(h: Seq<Bar>, lookback: int, threshold: int, is_long: bool) -> Option<
    Direction,
> {
    match momentum_long(h, lookback, threshold) {
        None => None,
        Some(up) => if up == is_long {
            None
        } else if up {
            Some(Direction::Long)
        } else {
            Some(Direction::Exit)
        },
    }
}

/// Momentum signals alternate: `Long` only while flat, `Exit` only while
/// long, never `Short`.
pub proof fn lemma_momentum_alternates(h: Seq<Bar>, lookback: int, threshold: int, is_long: bool)
    ensures
        momentum_direction(h, lookback, threshold, is_long) == Some(Direction::Long) ==> !is_long,
        momentum_direction(h, lookback, threshold, is_long) == Some(Direction::Exit) ==> is_long,
        momentum_direction(h, lookback, threshold, is_long) != Some(Direction::Short),
{
}

/// Long whenever the trailing `lookback`-bar return exceeds `threshold`
/// (fixed-point: `SCALE` units per 1.0, so 500 means "up more than 5%").
#[derive(Debug, Clone, Copy)]
pub struct Momentum {
    lookback: usize,
    threshold: i64,
    is_long: bool,
}

impl Momentum {
    #[verifier::type_invariant]
    spec fn inv(&self) -> bool {
        1 <= self.lookback < usize::MAX
    }

    pub closed spec fn spec_lookback(&self) -> int {
        self.lookback as int
    }

    pub closed spec fn spec_threshold(&self) -> int {
        self.threshold as int
    }

    pub closed spec fn spec_is_long(&self) -> bool {
        self.is_long
    }

    /// `lookback` is at least one bar (and `lookback + 1`, the warmup,
    /// must be representable).
    pub fn new(lookback: usize, threshold: i64) -> (r: Self)
        requires
            1 <= lookback < usize::MAX,
        ensures
            r.spec_lookback() == lookback,
            r.spec_threshold() == threshold,
            !r.spec_is_long(),
    {
        Momentum { lookback, threshold, is_long: false }
    }

    /// Whether the trailing return exceeds the threshold, or `None` if it
    /// is not yet defined.
    fn trailing_return_exceeds(&self, history: &[Bar]) -> (r: Option<bool>)
        ensures
            r == momentum_long(history@, self.lookback as int, self.threshold as int),
    {
        let len = history.len();
        if len <= self.lookback {
            return None;
        }
        let current = history[len - 1].close;
        let past = history[len - 1 - self.lookback].close;
        if past == 0 {
            return None;
        }
        let diff: i128 = current as i128 - past as i128;
        assert(-0x1_0000_0000_0000_0000 <= diff <= 0x1_0000_0000_0000_0000);
        let change: i128 = diff * 10_000i128;
        assert(change == diff * SCALE);
        let bar = wide_mul(self.threshold, past);
        if past > 0 {
            Some(change > bar)
        } else {
            Some(change < bar)
        }
    }
}

impl Strategy for Momentum {
    /// The momentum signal, if any, and the new regime (see
    /// [`momentum_direction`]).
    open spec fn market_step(
        &self,
        event: &MarketEvent,
        ctx: &StrategyContext,
        next: &Self,
        signals: Seq<SignalEvent>,
    ) -> bool {
        let d = momentum_direction(ctx.history@, self.spec_lookback(), self.spec_threshold(), self.spec_is_long());
        &&& next.spec_lookback() == self.spec_lookback()
        &&& next.spec_threshold() == self.spec_threshold()
        &&& d is None ==> signals.len() == 0 && next.spec_is_long() == self.spec_is_long()
        &&& d is Some ==> {
            &&& signals.len() == 1
            &&& signals[0].direction == d->0
            &&& signals[0].symbol@ == event.symbol@
            &&& signals[0].timestamp == event.bar.timestamp
            &&& signals[0].strength == SCALE
            &&& next.spec_is_long() == (d->0 == Direction::Long)
        }
    }

    open spec fn warmup_is(&self, n: usize) -> bool {
        n == self.spec_lookback() + 1
    }

    fn on_market(&mut self, event: &MarketEvent, ctx: &StrategyContext) -> (r: Vec<SignalEvent>)
        ensures
            ({
                let d = momentum_direction(
                    ctx.history@,
                    old(self).spec_lookback(),
                    old(self).spec_threshold(),
                    old(self).spec_is_long(),
                );
                &&& final(self).spec_lookback() == old(self).spec_lookback()
                &&& final(self).spec_threshold() == old(self).spec_threshold()
                &&& d is None ==> r@.len() == 0 && final(self).spec_is_long()
                    == old(self).spec_is_long()
                &&& d is Some ==> {
                    &&& r@.len() == 1
                    &&& r@[0].direction == d->0
                    &&& r@[0].symbol@ == event.symbol@
                    &&& r@[0].timestamp == event.bar.timestamp
                    &&& r@[0].strength == SCALE
                    &&& final(self).spec_is_long() == (d->0 == Direction::Long)
                }
            }),
    {
        let should_be_long = match self.trailing_return_exceeds(ctx.history.as_slice()) {
            Some(b) => b,
            None => return Vec::new(),
        };
        if should_be_long == self.is_long {
            return Vec::new();
        }
        proof {
            use_type_invariant(&*self);
        }
        self.is_long = should_be_long;
        let direction = if should_be_long {
            Direction::Long
        } else {
            Direction::Exit
        };
        let mut out = Vec::new();
        out.push(
            SignalEvent {
                symbol: event.symbol.clone(),
                timestamp: event.bar.timestamp,
                direction,
                strength: SCALE,
            },
        );
        out
    }

    fn warmup_bars(&self) -> (r: usize)
        ensures
            r == self.spec_lookback() + 1,
    {
        proof {
            use_type_invariant(self);
        }
        self.lookback + 1
    }
}

} // verus!
