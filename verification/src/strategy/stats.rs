//! Exact statistics over windows of closing prices.
use crate::data::types::{Bar, Price};
use crate::fixed::narrow;
use vstd::prelude::*;

verus! {

/// Sum of the closing prices of `s`.
pub open spec fn sum_closes(s: Seq<Bar>) -> int
    decreases s.len(),
{
    if s.len() == 0 {
        0
    } else {
        sum_closes(s.drop_last()) + s.last().close
    }
}

/// The last `k` bars of `h`.
pub open spec fn last_bars(h: Seq<Bar>, k: int) -> Seq<Bar> {
    h.subrange(h.len() - k, h.len() as int)
}

/// Sum of the closing prices of the last `k` bars of `h`.
pub open spec fn close_sum(h: Seq<Bar>, k: int) -> int {
    sum_closes(last_bars(h, k))
}

proof fn lemma_sum_closes_bound(s: Seq<Bar>)
    ensures
        s.len() * i64::MIN <= sum_closes(s) <= s.len() * i64::MAX,
    decreases s.len(),
{
    if s.len() > 0 {
        lemma_sum_closes_bound(s.drop_last());
    }
}

/// Exact sum of the closing prices of the last `period` bars.
pub fn window_close_sum(bars: &[Bar], period: usize) -> (r: i128)
    requires
        period <= bars@.len(),
    ensures
        r == close_sum(bars@, period as int),
{
    let n = bars.len();
    let start = n - period;
    let mut i = start;
    let mut sum: i128 = 0;
    assert(bars@.subrange(start as int, start as int).len() == 0);
    while i < n
        invariant
            n == bars@.len(),
            start <= i <= n,
            sum == sum_closes(bars@.subrange(start as int, i as int)),
            (i - start) * i64::MIN <= sum <= (i - start) * i64::MAX,
        decreases n - i,
    {
        assert(bars@.subrange(start as int, i + 1).drop_last() =~= bars@.subrange(
            start as int,
            i as int,
        ));
        sum = sum + bars[i].close as i128;
        i = i + 1;
    }
    sum
}

/// The floor of the average closing price over the last `period` bars;
/// `None` for an empty window, whose average is undefined.
pub fn simple_moving_average(bars: &[Bar], period: usize) -> (r: Option<Price>)
    requires
        period <= bars@.len(),
    ensures
        period == 0 ==> r is None,
        period > 0 ==> r == Some((close_sum(bars@, period as int) / (period as int)) as i64),
{
    if period == 0 {
        return None;
    }
    let sum = window_close_sum(bars, period);
    proof {
        lemma_sum_closes_bound(last_bars(bars@, period as int));
        let p = period as int;
        let s = sum as int;
        assert(i64::MIN <= s / p <= i64::MAX) by (nonlinear_arith)
            requires
                p * i64::MIN <= s <= p * i64::MAX,
                p > 0,
        ;
    }
    let avg = crate::fixed::floor_div(sum, period as i128);
    Some(narrow(avg))
}

/// Whether `n1 / d1 > n2 / d2` (exact rational comparison).
pub fn ratio_gt(n1: i128, d1: usize, n2: i128, d2: usize) -> (r: bool)
    requires
        d1 > 0,
        d2 > 0,
    ensures
        r == (n1 * d2 > n2 * d1),
{
    let q1 = crate::fixed::floor_div(n1, d1 as i128);
    let q2 = crate::fixed::floor_div(n2, d2 as i128);
    let m1 = crate::fixed::floor_mod(n1, d1 as i128);
    let m2 = crate::fixed::floor_mod(n2, d2 as i128);
    proof {
        assert(m1 == n1 - q1 * d1 && m2 == n2 - q2 * d2) by (nonlinear_arith)
            requires
                q1 == (n1 as int) / (d1 as int),
                q2 == (n2 as int) / (d2 as int),
                m1 == (n1 as int) % (d1 as int),
                m2 == (n2 as int) % (d2 as int),
                d1 > 0,
                d2 > 0,
        ;
    }
    let r1 = m1 as u128;
    let r2 = m2 as u128;
    if q1 != q2 {
        proof {
            lemma_quotients_decide(n1 as int, d1 as int, n2 as int, d2 as int, q1 as int, q2 as int);
        }
        q1 > q2
    } else {
        proof {
            lemma_remainders_decide(n1 as int, d1 as int, n2 as int, d2 as int, q1 as int);
            assert(r1 * d2 < 0x1_0000_0000_0000_0000_0000_0000_0000_0000) by (nonlinear_arith)
                requires
                    r1 < d1,
                    d1 <= usize::MAX,
                    d2 <= usize::MAX,
                    r1 >= 0,
            ;
            assert(r2 * d1 < 0x1_0000_0000_0000_0000_0000_0000_0000_0000) by (nonlinear_arith)
                requires
                    r2 < d2,
                    d1 <= usize::MAX,
                    d2 <= usize::MAX,
                    r2 >= 0,
            ;
        }
        r1 * (d2 as u128) > r2 * (d1 as u128)
    }
}

proof fn lemma_quotients_decide(n1: int, d1: int, n2: int, d2: int, q1: int, q2: int)
    by (nonlinear_arith)
    requires
        d1 > 0,
        d2 > 0,
        q1 == n1 / d1,
        q2 == n2 / d2,
        q1 != q2,
    ensures
        (n1 * d2 > n2 * d1) == (q1 > q2),
{
}

proof fn lemma_remainders_decide(n1: int, d1: int, n2: int, d2: int, q: int)
    by (nonlinear_arith)
    requires
        d1 > 0,
        d2 > 0,
        q == n1 / d1,
        q == n2 / d2,
    ensures
        (n1 * d2 > n2 * d1) == ((n1 - q * d1) * d2 > (n2 - q * d2) * d1),
{
}

} // verus!
