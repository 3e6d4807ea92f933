//! The ring buffer and [`StrategyContext`] that make lookahead prevention
//! structural rather than a matter of discipline.
use crate::data::types::{Bar, Money, Quantity};
use std::collections::VecDeque;
use vstd::prelude::*;

verus! {

/// A fixed-capacity FIFO window of the most recent bars for one symbol.
/// Once full, pushing a new bar evicts the oldest one, so a strategy can
/// never reach further back than `capacity` bars.
#[derive(Debug)]
pub struct RingBuffer {
    bars: VecDeque<Bar>,
    capacity: usize,
}

/// The window kept after appending `bar` to `window` under `capacity`:
/// the last `min(capacity, window.len() + 1)` bars of `window + [bar]`.
pub open spec fn pushed_window(window: Seq<Bar>, capacity: int, bar: Bar) -> Seq<Bar> {
    let all = window.push(bar);
    if all.len() > capacity {
        all.skip(all.len() - capacity)
    } else {
        all
    }
}

impl View for RingBuffer {
    type V = Seq<Bar>;

    closed spec fn view(&self) -> Seq<Bar> {
        self.bars@
    }
}

impl Clone for RingBuffer {
    fn clone(&self) -> (r: Self)
        ensures
            r@ == self@,
            r.spec_capacity() == self.spec_capacity(),
    {
        proof {
            use_type_invariant(self);
        }
        let mut bars: VecDeque<Bar> = VecDeque::new();
        let n = self.bars.len();
        let mut i: usize = 0;
        while i < n
            invariant
                n == self.bars@.len(),
                i <= n,
                bars@ == self.bars@.subrange(0, i as int),
            decreases n - i,
        {
            bars.push_back(self.bars[i]);
            i = i + 1;
            assert(bars@ =~= self.bars@.subrange(0, i as int));
        }
        assert(bars@ =~= self.bars@);
        RingBuffer { bars, capacity: self.capacity }
    }
}

impl RingBuffer {
    #[verifier::type_invariant]
    spec fn inv(&self) -> bool {
        &&& self.capacity >= 1
        &&& self.bars@.len() <= self.capacity
    }

    /// The number of bars this buffer keeps at most.
    pub closed spec fn spec_capacity(&self) -> int {
        self.capacity as int
    }

    /// A buffer of `max(capacity, 1)` slots, initially empty.
    pub fn new(capacity: usize) -> (r: Self)
        ensures
            r@ == Seq::<Bar>::empty(),
            r.spec_capacity() == if capacity == 0 { 1 } else { capacity as int },
    {
        let capacity = if capacity == 0 { 1 } else { capacity };
        RingBuffer { bars: VecDeque::new(), capacity }
    }

    /// Appends `bar`, evicting the oldest entry first if already at
    /// capacity.
    pub fn push(&mut self, bar: Bar)
        ensures
            old(self)@.len() <= old(self).spec_capacity(),
            final(self)@ == pushed_window(old(self)@, old(self).spec_capacity(), bar),
            final(self)@ == if old(self)@.len() == old(self).spec_capacity() {
                old(self)@.skip(1).push(bar)
            } else {
                old(self)@.push(bar)
            },
            final(self).spec_capacity() == old(self).spec_capacity(),
            final(self)@.len() <= final(self).spec_capacity(),
    {
        proof {
            use_type_invariant(&*self);
        }
        let ghost before = self.bars@;
        let mut bars: VecDeque<Bar> = VecDeque::new();
        std::mem::swap(&mut bars, &mut self.bars);
        if bars.len() == self.capacity {
            let _ = bars.pop_front();
            bars.push_back(bar);
            assert(bars@ =~= before.push(bar).skip(1));
        } else {
            bars.push_back(bar);
        }
        self.bars = bars;
    }

    /// A snapshot of the buffered bars, oldest first.
    pub fn as_vec(&self) -> (r: Vec<Bar>)
        ensures
            r@ == self@,
    {
        let mut out: Vec<Bar> = Vec::new();
        let n = self.bars.len();
        let mut i: usize = 0;
        while i < n
            invariant
                n == self.bars@.len(),
                i <= n,
                out@ == self.bars@.subrange(0, i as int),
            decreases n - i,
        {
            out.push(self.bars[i]);
            i = i + 1;
            assert(out@ =~= self.bars@.subrange(0, i as int));
        }
        assert(out@ =~= self.bars@);
        out
    }

    pub fn len(&self) -> (r: usize)
        ensures
            r == self@.len(),
            r <= self.spec_capacity(),
    {
        proof {
            use_type_invariant(self);
        }
        self.bars.len()
    }

    pub fn is_empty(&self) -> (r: bool)
        ensures
            r == (self@.len() == 0),
    {
        self.bars.len() == 0
    }
}

/// The view of the world a strategy is allowed to see: recent history for
/// the symbol being processed (oldest first, ending with the current bar),
/// the current position size in that symbol, and current cash.
#[derive(Debug, Clone)]
pub struct StrategyContext {
    pub history: Vec<Bar>,
    pub position_quantity: Quantity,
    pub cash: Money,
}

impl StrategyContext {
    /// The most recent bar in `history`, i.e. the bar being processed.
    pub fn latest(&self) -> (r: Option<&Bar>)
        ensures
            self.history@.len() == 0 ==> r is None,
            self.history@.len() > 0 ==> r == Some(&self.history@.last()),
    {
        if self.history.len() == 0 {
            None
        } else {
            Some(&self.history[self.history.len() - 1])
        }
    }
}

} // verus!
