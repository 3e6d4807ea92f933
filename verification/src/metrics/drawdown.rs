//! Maximum drawdown: the worst peak-to-trough decline of an equity curve,
//! found with exact ratio comparisons.
use crate::data::types::{Money, Timestamp};
use crate::fixed::ratio_lt;
use crate::portfolio::EquityPoint;
use vstd::prelude::*;

verus! {

/// The worst decline over an equity curve, when it happened, and when (if
/// ever) equity climbed back to the pre-decline peak. The decline, as a
/// fraction, is `(peak_equity - trough_equity) / peak_equity`; it is zero
/// (with both equal to the first point's equity) if equity never fell
/// below a positive running peak.
#[derive(Debug, Clone, Copy, PartialEq, Eq, Structural)]
pub struct DrawdownReport {
    pub peak_equity: Money,
    pub trough_equity: Money,
    pub peak_timestamp: Timestamp,
    pub trough_timestamp: Timestamp,
    pub recovery_timestamp: Option<Timestamp>,
}

/// The state of a drawdown scan after some prefix of the curve.
#[derive(Debug, Clone, Copy, PartialEq, Eq, Structural)]
pub struct DrawdownScan {
    pub running_peak: Money,
    pub running_peak_timestamp: Timestamp,
    pub found: bool,
    pub worst_peak: Money,
    pub worst_trough: Money,
    pub worst_peak_timestamp: Timestamp,
    pub worst_trough_timestamp: Timestamp,
}

pub open spec fn scan_start(first: EquityPoint) -> DrawdownScan {
    DrawdownScan {
        running_peak: first.equity,
        running_peak_timestamp: first.timestamp,
        found: false,
        worst_peak: first.equity,
        worst_trough: first.equity,
        worst_peak_timestamp: first.timestamp,
        worst_trough_timestamp: first.timestamp,
    }
}

/// Whether equity `e` under a positive running peak `p` is a strictly
/// deeper decline than the worst one recorded in `s`.
pub open spec fn deeper(s: DrawdownScan, p: int, e: int) -> bool {
    p > 0 && e < p && (!s.found || e * s.worst_peak < s.worst_trough * p)
}

pub open spec fn scan_step(s: DrawdownScan, pt: EquityPoint) -> DrawdownScan {
    let new_peak = pt.equity > s.running_peak;
    let peak = if new_peak { pt.equity } else { s.running_peak };
    let peak_ts = if new_peak { pt.timestamp } else { s.running_peak_timestamp };
    if deeper(s, peak as int, pt.equity as int) {
        DrawdownScan {
            running_peak: peak,
            running_peak_timestamp: peak_ts,
            found: true,
            worst_peak: peak,
            worst_trough: pt.equity,
            worst_peak_timestamp: peak_ts,
            worst_trough_timestamp: pt.timestamp,
        }
    } else {
        DrawdownScan { running_peak: peak, running_peak_timestamp: peak_ts, ..s }
    }
}

/// The scan state after every point of `pts`, starting from `first`.
pub open spec fn scan(first: EquityPoint, pts: Seq<EquityPoint>) -> DrawdownScan
    decreases pts.len(),
{
    if pts.len() == 0 {
        scan_start(first)
    } else {
        scan_step(scan(first, pts.drop_last()), pts.last())
    }
}

/// The time of the first point of `pts` after `after` whose equity is at
/// least `level`.
pub open spec fn first_recovery(pts: Seq<EquityPoint>, after: int, level: int) -> Option<Timestamp>
    decreases pts.len(),
{
    if pts.len() == 0 {
        None
    } else if pts[0].timestamp > after && pts[0].equity >= level {
        Some(pts[0].timestamp)
    } else {
        first_recovery(pts.drop_first(), after, level)
    }
}

/// The drawdown report for a non-empty curve.
pub open spec fn drawdown_spec(curve: Seq<EquityPoint>) -> DrawdownReport {
    let s = scan(curve[0], curve);
    DrawdownReport {
        peak_equity: s.worst_peak,
        trough_equity: s.worst_trough,
        peak_timestamp: s.worst_peak_timestamp,
        trough_timestamp: s.worst_trough_timestamp,
        recovery_timestamp: first_recovery(
            curve,
            s.worst_trough_timestamp as int,
            s.worst_peak as int,
        ),
    }
}

/// The max drawdown over `equity_curve`; `None` if the curve is empty.
pub fn max_drawdown(equity_curve: &[EquityPoint]) -> (r: Option<DrawdownReport>)
    ensures
        equity_curve@.len() == 0 ==> r is None,
        equity_curve@.len() > 0 ==> r == Some(drawdown_spec(equity_curve@)),
{
    let n = equity_curve.len();
    if n == 0 {
        return None;
    }
    let first = equity_curve[0];
    let mut s = DrawdownScan {
        running_peak: first.equity,
        running_peak_timestamp: first.timestamp,
        found: false,
        worst_peak: first.equity,
        worst_trough: first.equity,
        worst_peak_timestamp: first.timestamp,
        worst_trough_timestamp: first.timestamp,
    };
    let mut i: usize = 0;
    assert(equity_curve@.take(0).len() == 0);
    while i < n
        invariant
            n == equity_curve@.len(),
            n > 0,
            i <= n,
            first == equity_curve@[0],
            s == scan(first, equity_curve@.take(i as int)),
            s.found ==> s.worst_peak > 0,
        decreases n - i,
    {
        let pt = equity_curve[i];
        assert(equity_curve@.take(i + 1).drop_last() =~= equity_curve@.take(i as int));
        if pt.equity > s.running_peak {
            s.running_peak = pt.equity;
            s.running_peak_timestamp = pt.timestamp;
        }
        let p = s.running_peak;
        if p > 0 && pt.equity < p && (!s.found || ratio_lt(pt.equity, p, s.worst_trough, s.worst_peak)) {
            s.found = true;
            s.worst_peak = p;
            s.worst_trough = pt.equity;
            s.worst_peak_timestamp = s.running_peak_timestamp;
            s.worst_trough_timestamp = pt.timestamp;
        }
        i = i + 1;
    }
    assert(equity_curve@.take(n as int) =~= equity_curve@);
    let mut recovery: Option<Timestamp> = None;
    let mut j: usize = 0;
    assert(equity_curve@.skip(0) =~= equity_curve@);
    while j < n
        invariant_except_break
            n == equity_curve@.len(),
            j <= n,
            first_recovery(equity_curve@, s.worst_trough_timestamp as int, s.worst_peak as int)
                == first_recovery(
                equity_curve@.skip(j as int),
                s.worst_trough_timestamp as int,
                s.worst_peak as int,
            ),
            recovery is None,
        ensures
            recovery == first_recovery(
                equity_curve@,
                s.worst_trough_timestamp as int,
                s.worst_peak as int,
            ),
        decreases n - j,
    {
        let pt = equity_curve[j];
        assert(equity_curve@.skip(j as int)[0] == pt);
        assert(equity_curve@.skip(j as int).drop_first() =~= equity_curve@.skip(j + 1));
        if pt.timestamp > s.worst_trough_timestamp && pt.equity >= s.worst_peak {
            recovery = Some(pt.timestamp);
            break;
        }
        j = j + 1;
        assert(j == n ==> equity_curve@.skip(j as int).len() == 0);
    }
    Some(
        DrawdownReport {
            peak_equity: s.worst_peak,
            trough_equity: s.worst_trough,
            peak_timestamp: s.worst_peak_timestamp,
            trough_timestamp: s.worst_trough_timestamp,
            recovery_timestamp: recovery,
        },
    )
}

/// The highest equity among the first `n + 1` points of `curve`.
pub open spec fn peak_through(curve: Seq<EquityPoint>, n: int) -> int
    decreases n,
{
    if n <= 0 {
        curve[0].equity as int
    } else {
        let before = peak_through(curve, n - 1);
        if curve[n].equity > before {
            curve[n].equity as int
        } else {
            before
        }
    }
}

/// The running peak at every point of `equity_curve`: entry `i` is the
/// highest equity among points `0..=i`. The drawdown from peak at point
/// `i` is `(peaks[i] - equity_curve[i].equity) / peaks[i]`.
pub fn running_peaks(equity_curve: &[EquityPoint]) -> (r: Vec<Money>)
    ensures
        r@.len() == equity_curve@.len(),
        forall|i: int| 0 <= i < r@.len() ==> r@[i] == peak_through(equity_curve@, i),
{
    let n = equity_curve.len();
    let mut out: Vec<Money> = Vec::new();
    if n == 0 {
        return out;
    }
    let mut peak = equity_curve[0].equity;
    let mut i: usize = 0;
    while i < n
        invariant
            n == equity_curve@.len(),
            n > 0,
            i <= n,
            out@.len() == i,
            forall|k: int| 0 <= k < i ==> out@[k] == peak_through(equity_curve@, k),
            i == 0 ==> peak == equity_curve@[0].equity,
            i > 0 ==> peak == peak_through(equity_curve@, i - 1),
        decreases n - i,
    {
        if equity_curve[i].equity > peak {
            peak = equity_curve[i].equity;
        }
        out.push(peak);
        i = i + 1;
    }
    out
}

/// Whether the decline from `peak` to `trough` is at least as deep, as a
/// fraction of the peak, as the decline from `p` to `t` (both peaks positive).
pub open spec fn no_shallower(peak: int, trough: int, p: int, t: int) -> bool {
    (p - t) * peak <= (peak - trough) * p
}

proof fn lemma_higher_peak_deeper(ei: int, ej: int, peak: int)
    by (nonlinear_arith)
    requires
        0 < ei <= peak,
        0 <= ej,
    ensures
        no_shallower(peak, ej, ei, ej),
{
}

proof fn lemma_no_shallower_transitive(a: int, b: int, c: int, d: int, e: int, f: int)
    by (nonlinear_arith)
    requires
        a > 0,
        c > 0,
        e > 0,
        no_shallower(a, b, c, d),
        no_shallower(c, d, e, f),
    ensures
        no_shallower(a, b, e, f),
{
    assert((e - f) * c * a <= (c - d) * e * a);
    assert((c - d) * a * e <= (a - b) * c * e);
}

/// What the scan over the first `n` points of `curve` has established: the
/// running peak bounds every point seen, and the recorded worst decline is
/// at least as deep as the decline between any earlier point and any later one.
spec fn scan_covers(curve: Seq<EquityPoint>, n: int, s: DrawdownScan) -> bool {
    &&& forall|k: int| 0 <= k < n ==> #[trigger] curve[k].equity <= s.running_peak
    &&& s.running_peak >= curve[0].equity
    &&& s.found ==> s.worst_peak > 0 && 0 <= s.worst_trough < s.worst_peak
    &&& forall|i: int, j: int|
        #![trigger curve[i], curve[j]]
        0 <= i <= j < n && curve[i].equity > 0 && curve[j].equity < curve[i].equity ==> s.found
            && no_shallower(
            s.worst_peak as int,
            s.worst_trough as int,
            curve[i].equity as int,
            curve[j].equity as int,
        )
}

proof fn lemma_scan_covers(curve: Seq<EquityPoint>, n: int)
    requires
        0 <= n <= curve.len(),
        curve.len() > 0,
        forall|k: int| 0 <= k < curve.len() ==> #[trigger] curve[k].equity >= 0,
    ensures
        scan_covers(curve, n, scan(curve[0], curve.take(n))),
    decreases n,
{
    let first = curve[0];
    if n == 0 {
        assert(curve.take(0).len() == 0);
    } else {
        lemma_scan_covers(curve, n - 1);
        assert(curve.take(n).drop_last() =~= curve.take(n - 1));
        let s = scan(first, curve.take(n - 1));
        let pt = curve[n - 1];
        assert(curve.take(n).last() == pt);
        let s2 = scan(first, curve.take(n));
        assert(s2 == scan_step(s, pt));
        let peak = if pt.equity > s.running_peak { pt.equity } else { s.running_peak };
        assert(s2.running_peak == peak);
        assert forall|i: int, j: int|
            0 <= i <= j < n && curve[i].equity > 0 && curve[j].equity < curve[i].equity implies s2.found
                && no_shallower(
                s2.worst_peak as int,
                s2.worst_trough as int,
                curve[i].equity as int,
                curve[j].equity as int,
            ) by {
            let ei = curve[i].equity as int;
            let ej = curve[j].equity as int;
            if j < n - 1 {
                if deeper(s, peak as int, pt.equity as int) {
                    if s.found {
                        assert(no_shallower(
                            peak as int,
                            pt.equity as int,
                            s.worst_peak as int,
                            s.worst_trough as int,
                        )) by (nonlinear_arith)
                            requires
                                pt.equity * s.worst_peak < s.worst_trough * peak,
                        ;
                        lemma_no_shallower_transitive(
                            peak as int,
                            pt.equity as int,
                            s.worst_peak as int,
                            s.worst_trough as int,
                            ei,
                            ej,
                        );
                    }
                }
            } else {
                assert(j == n - 1);
                assert(curve[i].equity <= peak);
                lemma_higher_peak_deeper(ei, ej, peak as int);
                if !deeper(s, peak as int, pt.equity as int) {
                    assert(s.found);
                    assert(no_shallower(
                        s.worst_peak as int,
                        s.worst_trough as int,
                        peak as int,
                        pt.equity as int,
                    )) by (nonlinear_arith)
                        requires
                            pt.equity * s.worst_peak >= s.worst_trough * peak,
                    ;
                    lemma_no_shallower_transitive(
                        s.worst_peak as int,
                        s.worst_trough as int,
                        peak as int,
                        ej,
                        ei,
                        ej,
                    );
                }
            }
        }
    }
}

/// The reported drawdown is the worst peak-to-trough decline: on a curve
/// whose equity never goes negative, no point `i` with positive equity
/// followed (at or after it) by a lower point `j` declines, as a fraction
/// of `i`'s equity, by more than the reported peak-to-trough decline.
pub proof fn lemma_drawdown_is_worst_decline(curve: Seq<EquityPoint>, i: int, j: int)
    requires
        0 <= i <= j < curve.len(),
        forall|k: int| 0 <= k < curve.len() ==> #[trigger] curve[k].equity >= 0,
        curve[i].equity > 0,
        curve[j].equity < curve[i].equity,
    ensures
        drawdown_spec(curve).peak_equity > 0,
        drawdown_spec(curve).trough_equity < drawdown_spec(curve).peak_equity,
        no_shallower(
            drawdown_spec(curve).peak_equity as int,
            drawdown_spec(curve).trough_equity as int,
            curve[i].equity as int,
            curve[j].equity as int,
        ),
{
    lemma_scan_covers(curve, curve.len() as int);
    assert(curve.take(curve.len() as int) =~= curve);
}

/// Whether point `k` of `curve` is the running peak that `s` records.
spec fn peak_at(curve: Seq<EquityPoint>, k: int, s: DrawdownScan) -> bool {
    curve[k].equity == s.running_peak && curve[k].timestamp == s.running_peak_timestamp
}

/// Whether points `i` and `j` of `curve` are the worst peak and trough
/// that `s` records.
spec fn pair_at(curve: Seq<EquityPoint>, i: int, j: int, s: DrawdownScan) -> bool {
    &&& curve[i].equity == s.worst_peak
    &&& curve[i].timestamp == s.worst_peak_timestamp
    &&& curve[j].equity == s.worst_trough
    &&& curve[j].timestamp == s.worst_trough_timestamp
}

/// What the scan over the first `n` points of `curve` records is taken
/// from those points: its running peak is one of them, and its worst peak
/// and trough are two of them, the peak no later than the trough.
spec fn scan_attained(curve: Seq<EquityPoint>, n: int, s: DrawdownScan) -> bool {
    &&& exists|k: int| 0 <= k <= n && k < curve.len() && #[trigger] peak_at(curve, k, s)
    &&& exists|i: int, j: int| 0 <= i <= j <= n && j < curve.len() && #[trigger] pair_at(curve, i, j, s)
}

proof fn lemma_scan_attained(curve: Seq<EquityPoint>, n: int)
    requires
        0 <= n <= curve.len(),
        curve.len() > 0,
    ensures
        scan_attained(curve, n, scan(curve[0], curve.take(n))),
    decreases n,
{
    let first = curve[0];
    if n == 0 {
        assert(curve.take(0).len() == 0);
        let s = scan(first, curve.take(0));
        assert(peak_at(curve, 0, s));
        assert(pair_at(curve, 0, 0, s));
    } else {
        lemma_scan_attained(curve, n - 1);
        assert(curve.take(n).drop_last() =~= curve.take(n - 1));
        let s = scan(first, curve.take(n - 1));
        let pt = curve[n - 1];
        assert(curve.take(n).last() == pt);
        let s2 = scan(first, curve.take(n));
        assert(s2 == scan_step(s, pt));
        let k = choose|k: int| 0 <= k <= n - 1 && k < curve.len() && #[trigger] peak_at(curve, k, s);
        let (i, j) = choose|i: int, j: int| 0 <= i <= j <= n - 1 && j < curve.len() && #[trigger] pair_at(curve, i, j, s);
        let k2 = if pt.equity > s.running_peak { n - 1 } else { k };
        assert(peak_at(curve, k2, s2));
        if deeper(s, s2.running_peak as int, pt.equity as int) {
            assert(pair_at(curve, k2, n - 1, s2));
        } else {
            assert(pair_at(curve, i, j, s2));
        }
    }
}

/// The reported drawdown is one the curve went through: its peak and
/// trough (equity and time) are those of two points of the curve, the
/// peak no later than the trough.
pub proof fn lemma_drawdown_is_attained(curve: Seq<EquityPoint>)
    requires
        curve.len() > 0,
    ensures
        exists|i: int, j: int|
            0 <= i <= j < curve.len() && curve[i].equity == drawdown_spec(curve).peak_equity
                && curve[i].timestamp == drawdown_spec(curve).peak_timestamp && curve[j].equity
                == drawdown_spec(curve).trough_equity && curve[j].timestamp
                == drawdown_spec(curve).trough_timestamp,
{
    lemma_scan_attained(curve, curve.len() as int);
    assert(curve.take(curve.len() as int) =~= curve);
    let s = scan(curve[0], curve);
    let (i, j) = choose|i: int, j: int|
        0 <= i <= j <= curve.len() && j < curve.len() && #[trigger] pair_at(curve, i, j, s);
    assert(pair_at(curve, i, j, s));
}

proof fn lemma_first_recovery_is_first(pts: Seq<EquityPoint>, after: int, level: int)
    ensures
        first_recovery(pts, after, level) matches Some(t) ==> exists|k: int|
            0 <= k < pts.len() && #[trigger] pts[k].timestamp == t && pts[k].timestamp > after && pts[k].equity
                >= level && forall|m: int| 0 <= m < k ==> !(pts[m].timestamp > after && #[trigger] pts[m].equity >= level),
        first_recovery(pts, after, level) is None ==> forall|k: int|
            0 <= k < pts.len() ==> !(pts[k].timestamp > after && #[trigger] pts[k].equity >= level),
    decreases pts.len(),
{
    if pts.len() > 0 {
        let rest = pts.drop_first();
        lemma_first_recovery_is_first(rest, after, level);
        if pts[0].timestamp > after && pts[0].equity >= level {
            assert(pts[0].timestamp == pts[0].timestamp);
        } else {
            match first_recovery(rest, after, level) {
                Some(t) => {
                    let k = choose|k: int|
                        0 <= k < rest.len() && #[trigger] rest[k].timestamp == t && rest[k].timestamp > after
                            && rest[k].equity >= level && forall|m: int|
                            0 <= m < k ==> !(rest[m].timestamp > after && #[trigger] rest[m].equity >= level);
                    assert(pts[k + 1] == rest[k]);
                    assert forall|m: int| 0 <= m < k + 1 implies !(pts[m].timestamp > after && #[trigger] pts[m].equity
                        >= level) by {
                        if m > 0 {
                            assert(pts[m] == rest[m - 1]);
                        }
                    }
                },
                None => {
                    assert forall|k: int| 0 <= k < pts.len() implies !(pts[k].timestamp > after
                        && #[trigger] pts[k].equity >= level) by {
                        if k > 0 {
                            assert(pts[k] == rest[k - 1]);
                        }
                    }
                },
            }
        }
    }
}

/// Recovery is measured against the reported drawdown's own peak: when a
/// recovery time `t` is reported, it is the time of a point after the
/// trough (in time) whose equity is back at or above `peak_equity`, and
/// no earlier point of the curve after the trough got there; no recovery
/// is reported only when no point after the trough reaches `peak_equity`.
pub proof fn lemma_recovery_is_first_return_to_peak(curve: Seq<EquityPoint>)
    requires
        curve.len() > 0,
    ensures
        drawdown_spec(curve).recovery_timestamp matches Some(t) ==> exists|k: int|
            0 <= k < curve.len() && #[trigger] curve[k].timestamp == t && t > drawdown_spec(curve).trough_timestamp
                && curve[k].equity >= drawdown_spec(curve).peak_equity && forall|m: int|
                0 <= m < k && curve[m].timestamp > drawdown_spec(curve).trough_timestamp ==> #[trigger] curve[m].equity
                    < drawdown_spec(curve).peak_equity,
        drawdown_spec(curve).recovery_timestamp is None ==> forall|k: int|
            0 <= k < curve.len() && curve[k].timestamp > drawdown_spec(curve).trough_timestamp ==> #[trigger] curve[k].equity
                < drawdown_spec(curve).peak_equity,
{
    let r = drawdown_spec(curve);
    lemma_first_recovery_is_first(curve, r.trough_timestamp as int, r.peak_equity as int);
}

} // verus!
