//! Mean reversion: bets that prices unusually far from their recent
//! average snap back toward it.
//!
//! The z-score of the current close against the trailing `lookback`-bar
//! window (population standard deviation) is `z = D / sqrt(V)`, where, over
//! the window's closes `c_1..c_n` with sum `S` and sum of squares `Q`,
//! `D = n * c_n - S` and `V = n * Q - S * S`. Every threshold test on `z`
//! is decided exactly on these integers, without a square root.
use super::stats::{last_bars, sum_closes};
use super::{Strategy, StrategyContext};
use crate::data::types::Bar;
use crate::events::{Direction, MarketEvent, SignalEvent};
use crate::fixed::{frac_ge, SCALE};
use vstd::prelude::*;

verus! {

/// The longest window whose z-score is computed exactly; a longer window
/// has no z-score.
pub const MAX_LOOKBACK: usize = 65_536;

/// The largest close magnitude (in price units) whose z-score is computed
/// exactly; a window holding a larger close has no z-score.
pub const MAX_EXACT_CLOSE: i64 = 1_099_511_627_776;

/// `MAX_EXACT_CLOSE` squared.
pub open spec fn max_close_sq() -> int {
    0x1_0000_0000_0000_0000_0000
}

/// Bound on `|D|` for an exact window.
pub open spec fn max_d() -> int {
    0x2_0000_0000_0000_0000
}

/// Bound on `V` for an exact window.
pub open spec fn max_v() -> int {
    0x1_0000_0000_0000_0000_0000_0000_0000
}

/// Which side (if any) the strategy currently holds.
#[derive(Debug, Clone, Copy, PartialEq, Eq, Structural)]
pub enum PositionState {
    Flat,
    Long,
    Short,
}

/// Sum of the squared closing prices of `s`.
pub open spec fn sum_sq_closes(s: Seq<Bar>) -> int
    decreases s.len(),
{
    if s.len() == 0 {
        0
    } else {
        sum_sq_closes(s.drop_last()) + s.last().close * s.last().close
    }
}

pub open spec fn closes_in_range(s: Seq<Bar>) -> bool {
    forall|i: int| 0 <= i < s.len() ==> -MAX_EXACT_CLOSE <= #[trigger] s[i].close <= MAX_EXACT_CLOSE
}

/// `(D, V)` for the last `lookback` bars of `h`, or `None` when the
/// z-score is undefined: too little history, a close out of the exact
/// range, or a window with zero spread (`V == 0`).
pub open spec fn z_parts(h: Seq<Bar>, lookback: int) -> Option<(int, int)> {
    if h.len() < lookback || lookback > MAX_LOOKBACK {
        None
    } else {
        let w = last_bars(h, lookback);
        let s = sum_closes(w);
        let v = lookback * sum_sq_closes(w) - s * s;
        if !closes_in_range(w) || v <= 0 {
            None
        } else {
            Some((lookback * w.last().close - s, v))
        }
    }
}

/// `z <= -e / SCALE` for `z = d / sqrt(v)`, `v > 0`, `e >= 0`.
pub open spec fn z_at_most_neg(d: int, v: int, e: int) -> bool {
    d <= 0 && (SCALE * d) * (SCALE * d) >= (e * e) * v
}

/// `z >= e / SCALE` for `z = d / sqrt(v)`, `v > 0`, `e >= 0`.
pub open spec fn z_at_least(d: int, v: int, e: int) -> bool {
    d >= 0 && (SCALE * d) * (SCALE * d) >= (e * e) * v
}

/// `|z| < x / SCALE` for `z = d / sqrt(v)`, `v > 0`, `x >= 0`.
pub open spec fn z_within(d: int, v: int, x: int) -> bool {
    (SCALE * d) * (SCALE * d) < (x * x) * v
}

/// The state after seeing a z-score of `d / sqrt(v)` in `state`.
pub open spec fn next_state(state: PositionState, d: int, v: int, entry: int, exit: int) -> PositionState {
    match state {
        PositionState::Flat => if z_at_most_neg(d, v, entry) {
            PositionState::Long
        } else if z_at_least(d, v, entry) {
            PositionState::Short
        } else {
            PositionState::Flat
        },
        _ => if z_within(d, v, exit) {
            PositionState::Flat
        } else {
            state
        },
    }
}

pub open spec fn state_direction(s: PositionState) -> Direction {
    match s {
        PositionState::Long => Direction::Long,
        PositionState::Short => Direction::Short,
        PositionState::Flat => Direction::Exit,
    }
}

/// A mean-reversion position is never flipped in one step: from long the
/// next state is long or flat, from short it is short or flat.
pub proof fn lemma_reversion_never_flips(d: int, v: int, entry: int, exit: int)
    ensures
        next_state(PositionState::Long, d, v, entry, exit) != PositionState::Short,
        next_state(PositionState::Short, d, v, entry, exit) != PositionState::Long,
{
}

/// With `0 <= exit < entry`, no z-score is both an entry and an exit: one
/// that reaches the entry threshold on either side is not within the exit
/// band, so a bar that opens a position never closes it again at once.
pub proof fn lemma_entry_is_not_exit(d: int, v: int, entry: int, exit: int)
    requires
        v > 0,
        0 <= exit < entry,
    ensures
        z_at_most_neg(d, v, entry) ==> !z_within(d, v, exit),
        z_at_least(d, v, entry) ==> !z_within(d, v, exit),
{
    assert((exit * exit) * v < (entry * entry) * v) by (nonlinear_arith)
        requires
            v > 0,
            0 <= exit < entry,
    ;
}

/// The state a mean-reversion strategy moves to on history `h`.
pub open spec fn reversion_state(
    h: Seq<Bar>,
    lookback: int,
    entry: int,
    exit: int,
    state: PositionState,
) -> PositionState {
    match z_parts(h, lookback) {
        None => state,
        Some(p) => next_state(state, p.0, p.1, entry, exit),
    }
}

/// Enters long when the z-score drops to or below `-entry_threshold`,
/// enters short when it rises to or above `entry_threshold`, and exits once
/// its magnitude falls back under `exit_threshold` (thresholds fixed-point,
/// `SCALE` units per 1.0).
#[derive(Debug, Clone, Copy)]
pub struct MeanReversion {
    lookback: usize,
    entry_threshold: i64,
    exit_threshold: i64,
    state: PositionState,
}

impl MeanReversion {
    #[verifier::type_invariant]
    spec fn inv(&self) -> bool {
        &&& 2 <= self.lookback
        &&& 0 <= self.exit_threshold < self.entry_threshold
    }

    pub closed spec fn spec_lookback(&self) -> int {
        self.lookback as int
    }

    pub closed spec fn spec_entry(&self) -> int {
        self.entry_threshold as int
    }

    pub closed spec fn spec_exit(&self) -> int {
        self.exit_threshold as int
    }

    pub closed spec fn spec_state(&self) -> PositionState {
        self.state
    }

    /// `lookback` is at least 2 bars, and
    /// `0 <= exit_threshold < entry_threshold`.
    pub fn new(lookback: usize, entry_threshold: i64, exit_threshold: i64) -> (r: Self)
        requires
            2 <= lookback,
            0 <= exit_threshold < entry_threshold,
        ensures
            r.spec_lookback() == lookback,
            r.spec_entry() == entry_threshold,
            r.spec_exit() == exit_threshold,
            r.spec_state() == PositionState::Flat,
    {
        MeanReversion { lookback, entry_threshold, exit_threshold, state: PositionState::Flat }
    }

    /// `(D, V)` of the z-score over the trailing window, or `None` when it
    /// is undefined.
    fn z_score(&self, history: &[Bar]) -> (r: Option<(i128, i128)>)
        ensures
            r is Some <==> z_parts(history@, self.lookback as int) is Some,
            r matches Some(p) ==> {
                &&& z_parts(history@, self.lookback as int) == Some((p.0 as int, p.1 as int))
                &&& 0 < p.1 <= max_v()
                &&& -max_d() <= p.0 <= max_d()
            },
    {
        proof {
            use_type_invariant(self);
        }
        let n = history.len();
        if n < self.lookback || self.lookback > MAX_LOOKBACK {
            return None;
        }
        let start = n - self.lookback;
        let ghost w = last_bars(history@, self.lookback as int);
        let mut s: i128 = 0;
        let mut q: i128 = 0;
        let mut i = start;
        assert(history@.subrange(start as int, start as int).len() == 0);
        while i < n
            invariant
                n == history@.len(),
                start <= i <= n,
                n - start == self.lookback,
                self.lookback <= MAX_LOOKBACK,
                w == history@.subrange(start as int, n as int),
                closes_in_range(history@.subrange(start as int, i as int)),
                s == sum_closes(history@.subrange(start as int, i as int)),
                q == sum_sq_closes(history@.subrange(start as int, i as int)),
                -(i - start) * MAX_EXACT_CLOSE <= s <= (i - start) * MAX_EXACT_CLOSE,
                0 <= q <= (i - start) * max_close_sq(),
            decreases n - i,
        {
            let c = history[i].close;
            if c < -MAX_EXACT_CLOSE || c > MAX_EXACT_CLOSE {
                proof {
                    assert(w[i - start] == history@[i as int]);
                    assert(!closes_in_range(w));
                }
                return None;
            }
            let ghost pre = history@.subrange(start as int, i as int);
            let ghost post = history@.subrange(start as int, i + 1);
            assert(post.drop_last() =~= pre);
            assert(forall|k: int| 0 <= k < post.len() ==> post[k] == (if k < pre.len() {
                pre[k]
            } else {
                history@[i as int]
            }));
            proof {
                assert(0 <= c * c <= max_close_sq()) by (nonlinear_arith)
                    requires
                        -MAX_EXACT_CLOSE <= c <= MAX_EXACT_CLOSE,
                ;
            }
            s = s + c as i128;
            q = q + (c as i128) * (c as i128);
            i = i + 1;
        }
        assert(history@.subrange(start as int, n as int) =~= w);
        let l = self.lookback as i128;
        proof {
            let li = l as int;
            assert(li * q <= max_v()) by (nonlinear_arith)
                requires
                    0 <= li <= 65_536,
                    0 <= q <= li * max_close_sq(),
            ;
            assert(s * s <= max_v()) by (nonlinear_arith)
                requires
                    -(li * MAX_EXACT_CLOSE) <= s <= li * MAX_EXACT_CLOSE,
                    0 <= li <= 65_536,
            ;
            assert(0 <= s * s) by (nonlinear_arith);
            assert(0 <= li * q) by (nonlinear_arith) requires li >= 0, q >= 0;
        }
        let v = l * q - s * s;
        if v <= 0 {
            return None;
        }
        let last = history[n - 1].close;
        assert(w.last() == history@[n - 1]);
        proof {
            assert(-(65_536 * MAX_EXACT_CLOSE) <= l * last <= 65_536 * MAX_EXACT_CLOSE) by (nonlinear_arith)
                requires
                    -MAX_EXACT_CLOSE <= last <= MAX_EXACT_CLOSE,
                    0 <= l <= 65_536,
            ;
        }
        let d = l * (last as i128) - s;
        proof {
            assert(v <= l * q);
            assert(v <= max_v());
        }
        Some((d, v))
    }
}

/// `(SCALE * |d|)^2 >= t^2 * v`, decided without forming the squares.
fn scaled_square_ge(d: i128, v: i128, t: i64) -> (r: bool)
    requires
        v > 0,
        t >= 0,
        -max_d() <= d <= max_d(),
        v <= max_v(),
    ensures
        r == ((SCALE * d) * (SCALE * d) >= (t * t) * v),
{
    let ad: u128 = if d >= 0 { d as u128 } else { (-d) as u128 };
    let a: u128 = ad * 10_000u128;
    proof {
        assert(0 <= t * t <= 0x4000_0000_0000_0000_0000_0000_0000_0000) by (nonlinear_arith)
            requires
                0 <= t <= i64::MAX,
        ;
    }
    let t2: u128 = (t as u128) * (t as u128);
    proof {
        assert((SCALE * d) * (SCALE * d) == a * a) by (nonlinear_arith)
            requires
                a == ad * 10_000,
                ad == d || ad == -d,
        ;
    }
    if a == 0 {
        proof {
            assert(t2 * v >= 0) by (nonlinear_arith) requires t2 >= 0, v > 0;
            assert((t2 * v == 0) == (t2 == 0)) by (nonlinear_arith) requires t2 >= 0, v > 0;
            assert(a * a == 0) by (nonlinear_arith) requires a == 0;
            assert(t2 == t * t);
        }
        return t2 == 0;
    }
    frac_ge(a, v as u128, t2, a)
}

impl Strategy for MeanReversion {
    /// The state the z-score moves the strategy to, and a signal exactly
    /// when the state changes (see [`reversion_state`]).
    open spec fn market_step(
        &self,
        event: &MarketEvent,
        ctx: &StrategyContext,
        next: &Self,
        signals: Seq<SignalEvent>,
    ) -> bool {
        let s = reversion_state(
            ctx.history@,
            self.spec_lookback(),
            self.spec_entry(),
            self.spec_exit(),
            self.spec_state(),
        );
        &&& next.spec_lookback() == self.spec_lookback()
        &&& next.spec_entry() == self.spec_entry()
        &&& next.spec_exit() == self.spec_exit()
        &&& next.spec_state() == s
        &&& s == self.spec_state() ==> signals.len() == 0
        &&& s != self.spec_state() ==> {
            &&& signals.len() == 1
            &&& signals[0].direction == state_direction(s)
            &&& signals[0].symbol@ == event.symbol@
            &&& signals[0].timestamp == event.bar.timestamp
            &&& signals[0].strength == SCALE
        }
    }

    open spec fn warmup_is(&self, n: usize) -> bool {
        n == self.spec_lookback()
    }

    fn on_market(&mut self, event: &MarketEvent, ctx: &StrategyContext) -> (r: Vec<SignalEvent>)
        ensures
            ({
                let next = reversion_state(
                    ctx.history@,
                    old(self).spec_lookback(),
                    old(self).spec_entry(),
                    old(self).spec_exit(),
                    old(self).spec_state(),
                );
                &&& final(self).spec_lookback() == old(self).spec_lookback()
                &&& final(self).spec_entry() == old(self).spec_entry()
                &&& final(self).spec_exit() == old(self).spec_exit()
                &&& final(self).spec_state() == next
                &&& next == old(self).spec_state() ==> r@.len() == 0
                &&& next != old(self).spec_state() ==> {
                    &&& r@.len() == 1
                    &&& r@[0].direction == state_direction(next)
                    &&& r@[0].symbol@ == event.symbol@
                    &&& r@[0].timestamp == event.bar.timestamp
                    &&& r@[0].strength == SCALE
                }
            }),
    {
        proof {
            use_type_invariant(&*self);
        }
        let (d, v) = match self.z_score(ctx.history.as_slice()) {
            Some(p) => p,
            None => return Vec::new(),
        };
        let next_state = match self.state {
            PositionState::Flat => {
                if d <= 0 && scaled_square_ge(d, v, self.entry_threshold) {
                    PositionState::Long
                } else if d >= 0 && scaled_square_ge(d, v, self.entry_threshold) {
                    PositionState::Short
                } else {
                    PositionState::Flat
                }
            },
            PositionState::Long | PositionState::Short => {
                if !scaled_square_ge(d, v, self.exit_threshold) {
                    PositionState::Flat
                } else {
                    self.state
                }
            },
        };
        if next_state == self.state {
            return Vec::new();
        }
        self.state = next_state;
        let direction = match next_state {
            PositionState::Long => Direction::Long,
            PositionState::Short => Direction::Short,
            PositionState::Flat => Direction::Exit,
        };
        let mut out = Vec::new();
        out.push(
            SignalEvent {
                symbol: event.symbol.clone(),
                timestamp: event.bar.timestamp,
                direction,
                strength: SCALE,
            },
        );
        out
    }

    fn warmup_bars(&self) -> (r: usize)
        ensures
            r == self.spec_lookback(),
    {
        self.lookback
    }
}

} // verus!
