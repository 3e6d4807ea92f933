//! Moving-average crossover: long while the fast average of closing prices
//! is above the slow one, flat otherwise. A signal is emitted only at the
//! moment of the cross, not on every bar. Averages are compared exactly.
use super::stats::{close_sum, ratio_gt, window_close_sum};
use super::{Strategy, StrategyContext};
use crate::data::types::Bar;
use crate::events::{Direction, MarketEvent, SignalEvent};
use crate::fixed::SCALE;
use vstd::prelude::*;

verus! {

/// Whether the average close of the last `fast` bars of `h` is strictly
/// above the average close of the last `slow` bars. An empty fast window
/// has no average, and an undefined average is never above anything.
pub open spec fn fast_above_slow(h: Seq<Bar>, fast: int, slow: int) -> bool {
    fast > 0 && close_sum(h, fast) * slow > close_sum(h, slow) * fast
}

/// The signal a crossover strategy in state `is_long` emits on history `h`:
/// none before `slow` bars exist or when the regime is unchanged, `Long`
/// on an upward cross, `Exit` on a downward one.
pub open spec fn crossover_direction(h: Seq<Bar>, fast: int, slow: int, is_long: bool) -> Option<
    Direction,
> {
    if h.len() < slow {
        None
    } else {
        let up = fast_above_slow(h, fast, slow);
        if up == is_long {
            None
        } else if up {
            Some(Direction::Long)
        } else {
            Some(Direction::Exit)
        }
    }
}

/// Crossover signals alternate: `Long` is only ever emitted while flat and
/// `Exit` only while long, so there is one signal per regime change.
pub proof fn lemma_crossover_alternates(h: Seq<Bar>, fast: int, slow: int, is_long: bool)
    ensures
        crossover_direction(h, fast, slow, is_long) == Some(Direction::Long) ==> !is_long,
        crossover_direction(h, fast, slow, is_long) == Some(Direction::Exit) ==> is_long,
        crossover_direction(h, fast, slow, is_long) != Some(Direction::Short),
{
}

/// Call `i` of a run of `on_market` calls: `states[i]`, shown `events[i]`
/// and `ctxs[i]`, became `states[i + 1]` and emitted `signals[i]`.
pub open spec fn crossover_call(
    states: Seq<MaCrossover>,
    events: Seq<MarketEvent>,
    ctxs: Seq<StrategyContext>,
    signals: Seq<Seq<SignalEvent>>,
    i: int,
) -> bool {
    states[i].market_step(&events[i], &ctxs[i], &states[i + 1], signals[i])
}

/// Crossover signals alternate over a run of `on_market` calls: the
/// signals emitted, in order, are `Long`, `Exit`, `Long`, ... from a flat
/// start (`Exit`, `Long`, ... from a long one), never `Short`; the strategy
/// ends long exactly when an odd number of signals flipped its start.
pub proof fn lemma_crossover_alternates_over_run(
    states: Seq<MaCrossover>,
    events: Seq<MarketEvent>,
    ctxs: Seq<StrategyContext>,
    signals: Seq<Seq<SignalEvent>>,
)
    requires
        states.len() == events.len() + 1,
        ctxs.len() == events.len(),
        signals.len() == events.len(),
        forall|i: int| 0 <= i < events.len() ==> #[trigger] crossover_call(states, events, ctxs, signals, i),
    ensures
        forall|j: int|
            0 <= j < signals.flatten().len() ==> (#[trigger] signals.flatten()[j]).direction == if (j % 2 == 0)
                != states[0].spec_is_long() {
                Direction::Long
            } else {
                Direction::Exit
            },
        states.last().spec_is_long() == ((signals.flatten().len() % 2 == 1) != states[0].spec_is_long()),
    decreases events.len(),
{
    if events.len() == 0 {
        assert(states.last() == states[0]);
    } else {
        assert(crossover_call(states, events, ctxs, signals, 0));
        let s0 = states[0];
        let d = crossover_direction(ctxs[0].history@, s0.spec_fast(), s0.spec_slow(), s0.spec_is_long());
        let ts = states.drop_first();
        let te = events.drop_first();
        let tc = ctxs.drop_first();
        let tsig = signals.drop_first();
        assert forall|i: int| 0 <= i < te.len() implies #[trigger] crossover_call(ts, te, tc, tsig, i) by {
            assert(crossover_call(states, events, ctxs, signals, i + 1));
        }
        lemma_crossover_alternates_over_run(ts, te, tc, tsig);
        assert(ts.last() == states.last());
        let flat = signals.flatten();
        let rest = tsig.flatten();
        assert(flat == signals[0] + rest);
        let n0 = signals[0].len();
        assert forall|j: int| 0 <= j < flat.len() implies (#[trigger] flat[j]).direction == if (j % 2 == 0)
            != s0.spec_is_long() {
            Direction::Long
        } else {
            Direction::Exit
        } by {
            if j < n0 {
                assert(flat[j] == signals[0][j]);
            } else {
                assert(flat[j] == rest[j - n0]);
            }
        }
    }
}

/// Long when the `fast`-bar average closing price is above the
/// `slow`-bar average; flat otherwise.
#[derive(Debug, Clone, Copy)]
pub struct MaCrossover {
    fast: usize,
    slow: usize,
    is_long: bool,
}

impl MaCrossover {
    #[verifier::type_invariant]
    spec fn inv(&self) -> bool {
        self.fast < self.slow
    }

    pub closed spec fn spec_fast(&self) -> int {
        self.fast as int
    }

    pub closed spec fn spec_slow(&self) -> int {
        self.slow as int
    }

    /// Whether the strategy currently wants to be long.
    pub closed spec fn spec_is_long(&self) -> bool {
        self.is_long
    }

    /// `fast` must be shorter than `slow`.
    pub fn new(fast: usize, slow: usize) -> (r: Self)
        requires
            fast < slow,
        ensures
            r.spec_fast() == fast,
            r.spec_slow() == slow,
            !r.spec_is_long(),
    {
        MaCrossover { fast, slow, is_long: false }
    }

    fn desired_direction(&self, history: &[Bar]) -> (r: Option<Direction>)
        ensures
            r == crossover_direction(history@, self.fast as int, self.slow as int, self.is_long),
    {
        proof {
            use_type_invariant(self);
        }
        if history.len() < self.slow {
            return None;
        }
        let should_be_long = if self.fast == 0 {
            false
        } else {
            let fast_sum = window_close_sum(history, self.fast);
            let slow_sum = window_close_sum(history, self.slow);
            ratio_gt(fast_sum, self.fast, slow_sum, self.slow)
        };
        if should_be_long == self.is_long {
            return None;
        }
        Some(
            if should_be_long {
                Direction::Long
            } else {
                Direction::Exit
            },
        )
    }
}

impl Strategy for MaCrossover {
    /// The crossover's signal, if any, and its new regime (see
    /// [`crossover_direction`]).
    open spec fn market_step(
        &self,
        event: &MarketEvent,
        ctx: &StrategyContext,
        next: &Self,
        signals: Seq<SignalEvent>,
    ) -> bool {
        let d = crossover_direction(ctx.history@, self.spec_fast(), self.spec_slow(), self.spec_is_long());
        &&& next.spec_fast() == self.spec_fast()
        &&& next.spec_slow() == self.spec_slow()
        &&& d is None ==> signals.len() == 0 && next.spec_is_long() == self.spec_is_long()
        &&& d is Some ==> {
            &&& signals.len() == 1
            &&& signals[0].direction == d->0
            &&& signals[0].symbol@ == event.symbol@
            &&& signals[0].timestamp == event.bar.timestamp
            &&& signals[0].strength == SCALE
            &&& next.spec_is_long() == (d->0 == Direction::Long)
        }
    }

    open spec fn warmup_is(&self, n: usize) -> bool {
        n == self.spec_slow()
    }

    fn on_market(&mut self, event: &MarketEvent, ctx: &StrategyContext) -> (r: Vec<SignalEvent>)
        ensures
            ({
                let d = crossover_direction(
                    ctx.history@,
                    old(self).spec_fast(),
                    old(self).spec_slow(),
                    old(self).spec_is_long(),
                );
                &&& final(self).spec_fast() == old(self).spec_fast()
                &&& final(self).spec_slow() == old(self).spec_slow()
                &&& d is None ==> r@.len() == 0 && final(self).spec_is_long()
                    == old(self).spec_is_long()
                &&& d is Some ==> {
                    &&& r@.len() == 1
                    &&& r@[0].direction == d->0
                    &&& r@[0].symbol@ == event.symbol@
                    &&& r@[0].timestamp == event.bar.timestamp
                    &&& r@[0].strength == SCALE
                    &&& final(self).spec_is_long() == (d->0 == Direction::Long)
                }
            }),
    {
        let direction = match self.desired_direction(ctx.history.as_slice()) {
            Some(d) => d,
            None => return Vec::new(),
        };
        proof {
            use_type_invariant(&*self);
        }
        self.is_long = direction == Direction::Long;
        let mut out = Vec::new();
        out.push(
            SignalEvent {
                symbol: event.symbol.clone(),
                timestamp: event.bar.timestamp,
                direction,
                strength: SCALE,
            },
        );
        out
    }

    fn warmup_bars(&self) -> (r: usize)
        ensures
            r == self.spec_slow(),
    {
        self.slow
    }
}

} // verus!
