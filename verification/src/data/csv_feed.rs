//! Validated market data loaded from CSV records.
//!
//! Expected schema: `timestamp,open,high,low,close,volume`. The timestamp
//! column accepts RFC3339 (`2020-01-02T00:00:00Z`), a bare date
//! (`2020-01-02`, UTC midnight), or unix milliseconds, tried in that order.
//! Reading the file and splitting it into records happens at the edge; this
//! module validates the records, orders them, and detects gaps.
use super::types::{Bar, Price, Quantity, SymbolId, Timestamp};
use super::DataFeed;
use crate::events::MarketEvent;
use crate::text::{decimal, decimal_text};
use chrono::TimeZone;
use std::collections::VecDeque;
use vstd::prelude::*;
use vstd::string::StringExecFns;

verus! {

/// How to handle records whose timestamps are not non-decreasing.
#[derive(Debug, Clone, Copy, PartialEq, Eq, Structural)]
pub enum TimestampPolicy {
    /// Fail with [`DataError::OutOfOrderTimestamp`].
    Reject,
    /// Sort all rows into ascending timestamp order before use.
    SortAscending,
}

/// One CSV row: the raw timestamp text and the fixed-point value of each
/// numeric column (`None` for a value that is not a finite number in the
/// fixed-point range, such as `NaN`).
#[derive(Debug, Clone)]
pub struct RawRecord {
    pub timestamp: String,
    pub open: Option<Price>,
    pub high: Option<Price>,
    pub low: Option<Price>,
    pub close: Option<Price>,
    pub volume: Option<Quantity>,
}

impl RawRecord {
    pub fn copy(&self) -> (r: RawRecord)
        ensures
            r == *self,
    {
        RawRecord {
            timestamp: self.timestamp.clone(),
            open: self.open,
            high: self.high,
            low: self.low,
            close: self.close,
            volume: self.volume,
        }
    }
}

/// Why a set of records was refused. Rows are 1-indexed counting the
/// header line, so the first record is row 2.
#[derive(Debug, Clone)]
pub enum DataError {
    InvalidTimestamp { row: usize, raw: String },
    InvalidBar { row: usize, record: RawRecord },
    OutOfOrderTimestamp { row: usize, prev: Timestamp, curr: Timestamp },
    Empty,
}

/// The time `raw` denotes as an RFC3339 timestamp, in ms since the epoch.
pub uninterp spec fn rfc3339_millis(raw: Seq<char>) -> Option<i64>;

/// The UTC midnight of the `%Y-%m-%d` date `raw`, in ms since the epoch.
pub uninterp spec fn ymd_date_millis(raw: Seq<char>) -> Option<i64>;

/// Whether every character of `s` is an ASCII digit.
pub open spec fn all_digits(s: Seq<char>) -> bool {
    forall|i: int| 0 <= i < s.len() ==> '0' <= #[trigger] s[i] <= '9'
}

/// The value of the ASCII digit string `s`, read in base ten.
pub open spec fn digits_value(s: Seq<char>) -> int
    decreases s.len(),
{
    if s.len() == 0 {
        0
    } else {
        digits_value(s.drop_last()) * 10 + (s.last() as int - '0' as int)
    }
}

/// `raw` read as a decimal `i64`: an optional `+` or `-` sign followed by
/// one or more ASCII digits and nothing else, whose value fits in `i64`.
pub open spec fn decimal_i64(raw: Seq<char>) -> Option<i64> {
    let negative = raw.len() > 0 && raw[0] == '-';
    let signed = raw.len() > 0 && (raw[0] == '-' || raw[0] == '+');
    let body = if signed {
        raw.drop_first()
    } else {
        raw
    };
    let value = if negative {
        -digits_value(body)
    } else {
        digits_value(body)
    };
    if body.len() == 0 || !all_digits(body) || value < i64::MIN || value > i64::MAX {
        None
    } else {
        Some(value as i64)
    }
}

/// Whether `millis` since the epoch is a representable UTC date-time:
/// from the first millisecond of January 1 of the year -262143 to the last
/// of December 31 of the year 262142 (proleptic Gregorian calendar).
pub open spec fn utc_millis_representable(millis: i64) -> bool {
    -8_334_601_228_800_000 <= millis <= 8_210_266_876_799_999
}

/// `millis` since the epoch as `chrono` displays a `DateTime<Utc>`.
pub uninterp spec fn utc_display(millis: i64) -> Seq<char>;

/// How a warning shows the timestamp `millis`: its UTC date-time where
/// that is representable, else the bare millisecond count.
pub open spec fn timestamp_text(millis: i64) -> Seq<char> {
    if utc_millis_representable(millis) {
        utc_display(millis)
    } else {
        decimal(millis as int)
    }
}

/// The warning text for a gap of `delta` seconds between row `prev_row`
/// (at `prev`) and row `next_row` (at `next`), against a cadence of `base`:
/// `gap detected between row {prev_row} ({prev}) and row {next_row}
/// ({next}): {delta}s, expected ~{base}s`.
pub open spec fn gap_message_text(
    prev_row: int,
    prev: Seq<char>,
    next_row: int,
    next: Seq<char>,
    delta: i64,
    base: i64,
) -> Seq<char> {
    "gap detected between row "@ + decimal(prev_row) + " ("@ + prev + ") and row "@ + decimal(next_row)
        + " ("@ + next + "): "@ + decimal(delta as int) + "s, expected ~"@ + decimal(base as int) + "s"@
}

/// Parses `raw` with `chrono::DateTime::parse_from_rfc3339`, converted to
/// UTC milliseconds.
#[verifier::external_body]
fn parse_rfc3339(raw: &str) -> (r: Option<i64>)
    ensures
        r == rfc3339_millis(raw@),
{
    match chrono::DateTime::parse_from_rfc3339(raw) {
        Ok(dt) => Some(dt.with_timezone(&chrono::Utc).timestamp_millis()),
        Err(_) => None,
    }
}

/// Parses `raw` with `chrono::NaiveDate::parse_from_str(raw, "%Y-%m-%d")`,
/// taken at UTC midnight, in milliseconds.
#[verifier::external_body]
fn parse_ymd_date(raw: &str) -> (r: Option<i64>)
    ensures
        r == ymd_date_millis(raw@),
{
    match chrono::NaiveDate::parse_from_str(raw, "%Y-%m-%d") {
        Ok(date) => match date.and_hms_opt(0, 0, 0) {
            Some(dt) => Some(dt.and_utc().timestamp_millis()),
            None => None,
        },
        Err(_) => None,
    }
}

/// A prefix of a digit string is worth no more than the whole string.
proof fn lemma_digits_prefix(s: Seq<char>, k: int)
    requires
        0 <= k <= s.len(),
        all_digits(s),
    ensures
        0 <= digits_value(s.take(k)) <= digits_value(s),
    decreases s.len(),
{
    if s.len() > 0 {
        let d = s.drop_last();
        assert(all_digits(d)) by {
            assert forall|i: int| 0 <= i < d.len() implies '0' <= #[trigger] d[i] <= '9' by {
                assert(d[i] == s[i]);
            }
        }
        assert('0' <= s[s.len() - 1] <= '9');
        if k < s.len() {
            assert(s.take(k) =~= d.take(k));
            lemma_digits_prefix(d, k);
        } else {
            assert(s.take(k) =~= s);
        }
        lemma_digits_prefix(d, d.len() as int);
        assert(d.take(d.len() as int) =~= d);
    } else {
        assert(s.take(k) =~= s);
    }
}

/// Reads `raw` as a decimal `i64`: an optional `+` or `-` sign followed by
/// one or more ASCII digits and nothing else, within the range of `i64`
/// (what `str::parse::<i64>` accepts).
pub fn parse_i64(raw: &str) -> (r: Option<i64>)
    ensures
        r == decimal_i64(raw@),
{
    let n = raw.unicode_len();
    let ghost s = raw@;
    let mut start: usize = 0;
    let mut negative = false;
    if n > 0 {
        let c = raw.get_char(0);
        if c == '-' {
            negative = true;
            start = 1;
        } else if c == '+' {
            start = 1;
        }
    }
    let ghost body = s.skip(start as int);
    assert(n > 0 ==> raw@[0] == s[0]);
    assert(start == 0 ==> body =~= s);
    assert(start == 1 ==> body =~= s.drop_first());
    if start == n {
        return None;
    }
    let limit: i128 = 0x8000_0000_0000_0000;
    let mut acc: i128 = 0;
    let mut i: usize = start;
    while i < n
        invariant
            n == s.len(),
            raw@ == s,
            start <= i <= n,
            start < n,
            body == s.skip(start as int),
            negative == (s.len() > 0 && s[0] == '-'),
            (s.len() > 0 && (s[0] == '-' || s[0] == '+')) ==> start == 1 && body == s.drop_first(),
            !(s.len() > 0 && (s[0] == '-' || s[0] == '+')) ==> start == 0 && body == s,
            0 <= acc <= limit,
            limit == 0x8000_0000_0000_0000,
            all_digits(body.take(i - start)),
            acc == digits_value(body.take(i - start)),
        decreases n - i,
    {
        let c = raw.get_char(i);
        assert(body[i - start] == c);
        if !('0' <= c && c <= '9') {
            assert(!all_digits(body));
            return None;
        }
        let d: i128 = (c as u32 - '0' as u32) as i128;
        assert(body.take(i - start + 1).drop_last() =~= body.take(i - start));
        assert(d == c as int - '0' as int);
        let next = acc * 10 + d;
        assert(next == digits_value(body.take(i - start + 1)));
        assert(all_digits(body.take(i - start + 1))) by {
            let t = body.take(i - start + 1);
            assert forall|j: int| 0 <= j < t.len() implies '0' <= #[trigger] t[j] <= '9' by {
                if j < i - start {
                    assert(t[j] == body.take(i - start)[j]);
                }
            }
        }
        if next > limit {
            proof {
                if all_digits(body) {
                    lemma_digits_prefix(body, i - start + 1);
                }
            }
            return None;
        }
        acc = next;
        i = i + 1;
    }
    assert(body.take(n - start) =~= body);
    if negative {
        Some((-acc) as i64)
    } else if acc < limit {
        Some(acc as i64)
    } else {
        None
    }
}

/// Whether `chrono::Utc.timestamp_millis_opt(millis)` yields a single
/// date-time.
#[verifier::external_body]
fn millis_representable(millis: i64) -> (r: bool)
    ensures
        r == utc_millis_representable(millis),
{
    chrono::Utc.timestamp_millis_opt(millis).single().is_some()
}

/// `millis` rendered by `chrono`'s `Display` for the `DateTime<Utc>`
/// that `chrono::DateTime::from_timestamp_millis` builds; `None` exactly
/// when it builds none.
#[verifier::external_body]
fn render_timestamp(millis: i64) -> (r: Option<String>)
    ensures
        r.is_some() == utc_millis_representable(millis),
        r matches Some(s) ==> s@ == utc_display(millis),
{
    chrono::DateTime::from_timestamp_millis(millis).map(|dt| dt.to_string())
}

/// How a gap warning shows a timestamp: as a UTC date-time where one
/// exists, else as the bare millisecond count.
fn timestamp_label(millis: i64) -> (r: String)
    ensures
        r@ == timestamp_text(millis),
{
    match render_timestamp(millis) {
        Some(s) => s,
        None => decimal_text(millis as i128),
    }
}

/// The warning line for one detected gap.
fn render_gap_message(prev_row: i128, prev: &str, next_row: i128, next: &str, delta: i64, base: i64) -> (r: String)
    ensures
        r@ == gap_message_text(prev_row as int, prev@, next_row as int, next@, delta, base),
{
    let mut s = String::from_str("gap detected between row ");
    s.append(decimal_text(prev_row).as_str());
    s.append(" (");
    s.append(prev);
    s.append(") and row ");
    s.append(decimal_text(next_row).as_str());
    s.append(" (");
    s.append(next);
    s.append("): ");
    s.append(decimal_text(delta as i128).as_str());
    s.append("s, expected ~");
    s.append(decimal_text(base as i128).as_str());
    s.append("s");
    s
}

/// The timestamp `raw` denotes: RFC3339, else a bare date, else unix
/// milliseconds (when representable), else none.
pub open spec fn timestamp_of(raw: Seq<char>) -> Option<i64> {
    if rfc3339_millis(raw) is Some {
        rfc3339_millis(raw)
    } else if ymd_date_millis(raw) is Some {
        ymd_date_millis(raw)
    } else {
        match decimal_i64(raw) {
            Some(m) => if utc_millis_representable(m) {
                Some(m)
            } else {
                None
            },
            None => None,
        }
    }
}

/// Parses a timestamp as RFC3339, a bare `YYYY-MM-DD` date (UTC midnight),
/// or unix milliseconds, in that order.
pub fn parse_timestamp(raw: &str) -> (r: Option<Timestamp>)
    ensures
        r == timestamp_of(raw@),
{
    if let Some(ms) = parse_rfc3339(raw) {
        return Some(ms);
    }
    if let Some(ms) = parse_ymd_date(raw) {
        return Some(ms);
    }
    match parse_i64(raw) {
        Some(m) => if millis_representable(m) {
            Some(m)
        } else {
            None
        },
        None => None,
    }
}

/// The bar a record denotes at `timestamp`, if every value is present.
pub open spec fn record_bar(rec: RawRecord, timestamp: i64) -> Option<Bar> {
    match (rec.open, rec.high, rec.low, rec.close, rec.volume) {
        (Some(o), Some(h), Some(l), Some(c), Some(v)) => Some(
            Bar { timestamp, open: o, high: h, low: l, close: c, volume: v },
        ),
        _ => None,
    }
}

/// What row `i` (0-based) of `records` is: a valid bar, or the error it
/// raises.
pub open spec fn check_record(rec: RawRecord, i: int) -> Result<Bar, DataError> {
    match timestamp_of(rec.timestamp@) {
        None => Err(DataError::InvalidTimestamp { row: (i + 2) as usize, raw: rec.timestamp }),
        Some(ts) => match record_bar(rec, ts) {
            Some(bar) => if bar.spec_is_valid() {
                Ok(bar)
            } else {
                Err(DataError::InvalidBar { row: (i + 2) as usize, record: rec })
            },
            None => Err(DataError::InvalidBar { row: (i + 2) as usize, record: rec }),
        },
    }
}

/// The bars of the first `k` records, or the first error among them.
pub open spec fn check_records(records: Seq<RawRecord>, k: int) -> Result<Seq<Bar>, DataError>
    decreases k,
{
    if k <= 0 {
        Ok(seq![])
    } else {
        match check_records(records, k - 1) {
            Err(e) => Err(e),
            Ok(bars) => match check_record(records[k - 1], k - 1) {
                Err(e) => Err(e),
                Ok(bar) => Ok(bars.push(bar)),
            },
        }
    }
}

pub open spec fn sorted_by_time(bars: Seq<Bar>) -> bool {
    forall|i: int, j: int| 0 <= i <= j < bars.len() ==> bars[i].timestamp <= bars[j].timestamp
}

/// Whether a bar is stamped `t`.
pub open spec fn stamped(t: Timestamp) -> spec_fn(Bar) -> bool {
    |b: Bar| b.timestamp == t
}

/// The bars of `bars` stamped `t`, in their order in `bars`.
pub open spec fn at_time(bars: Seq<Bar>, t: Timestamp) -> Seq<Bar> {
    bars.filter(stamped(t))
}

/// A stable reordering of `src` into time order: sorted, and for every
/// timestamp the bars carrying it appear in the same relative order.
pub open spec fn stably_sorted(r: Seq<Bar>, src: Seq<Bar>) -> bool {
    &&& sorted_by_time(r)
    &&& forall|t: Timestamp| #[trigger] at_time(r, t) == at_time(src, t)
}

/// Inserting `x` at `p`, where every bar from `p` on is stamped later than
/// `x`, adds `x` at the end of the bars stamped `x.timestamp` and leaves
/// every other timestamp's bars as they were.
proof fn lemma_insert_before_later(before: Seq<Bar>, p: int, x: Bar, t: Timestamp)
    requires
        0 <= p <= before.len(),
        forall|k: int| p <= k < before.len() ==> before[k].timestamp > x.timestamp,
    ensures
        at_time(before.insert(p, x), t) == if x.timestamp == t {
            at_time(before, t).push(x)
        } else {
            at_time(before, t)
        },
{
    let pred = stamped(t);
    let a = before.subrange(0, p);
    let c = before.subrange(p, before.len() as int);
    let one = Seq::<Bar>::empty().push(x);
    assert(before =~= a + c);
    assert(before.insert(p, x) =~= (a + one) + c);
    Seq::filter_distributes_over_add(a, c, pred);
    Seq::filter_distributes_over_add(a + one, c, pred);
    Seq::filter_distributes_over_add(a, one, pred);
    Seq::<Bar>::empty().lemma_filter_push(x, pred);
    reveal(Seq::filter);
    assert(Seq::<Bar>::empty().filter(pred) =~= Seq::<Bar>::empty());
    if x.timestamp == t {
        assert(c.all(|y: Bar| !pred(y)));
        c.lemma_all_neg_filter_empty(pred);
        assert(c.filter(pred) =~= Seq::<Bar>::empty());
        assert(a.filter(pred) + c.filter(pred) =~= a.filter(pred));
        assert(a.filter(pred) + one =~= a.filter(pred).push(x));
    } else {
        assert(one.filter(pred) =~= Seq::<Bar>::empty());
        assert(a.filter(pred) + Seq::<Bar>::empty() =~= a.filter(pred));
    }
}

/// The index `i` of the first pair `(bars[i], bars[i + 1])` out of order
/// among the first `k` pairs.
pub open spec fn first_inversion(bars: Seq<Bar>, k: int) -> Option<int>
    decreases k,
{
    if k <= 0 {
        None
    } else {
        match first_inversion(bars, k - 1) {
            Some(i) => Some(i),
            None => if bars[k].timestamp < bars[k - 1].timestamp {
                Some(k - 1)
            } else {
                None
            },
        }
    }
}

/// Whole seconds from `a` to `b` (milliseconds), truncated toward zero.
pub open spec fn seconds_between(a: int, b: int) -> int {
    if b - a >= 0 {
        (b - a) / 1000
    } else {
        -((a - b) / 1000)
    }
}

pub open spec fn step_seconds(bars: Seq<Bar>, i: int) -> int {
    seconds_between(bars[i].timestamp as int, bars[i + 1].timestamp as int)
}

/// The smallest positive spacing among the first `k` consecutive pairs.
pub open spec fn min_positive_step(bars: Seq<Bar>, k: int) -> Option<int>
    decreases k,
{
    if k <= 0 {
        None
    } else {
        let d = step_seconds(bars, k - 1);
        let prev = min_positive_step(bars, k - 1);
        if d > 0 {
            match prev {
                Some(m) => if m < d {
                    Some(m)
                } else {
                    Some(d)
                },
                None => Some(d),
            }
        } else {
            prev
        }
    }
}

/// One detected gap: between record `index` and `index + 1` (0-based).
#[derive(Debug, Clone, Copy, PartialEq, Eq, Structural)]
pub struct GapSpan {
    pub index: usize,
    pub prev: Timestamp,
    pub next: Timestamp,
    pub delta_seconds: i64,
    pub base_seconds: i64,
}

/// The gaps among the first `k` pairs: spacings above `4 * base`.
pub open spec fn gaps_upto(bars: Seq<Bar>, k: int, base: int) -> Seq<GapSpan>
    decreases k,
{
    if k <= 0 {
        seq![]
    } else {
        let d = step_seconds(bars, k - 1);
        let prev = gaps_upto(bars, k - 1, base);
        if d > base * 4 {
            prev.push(
                GapSpan {
                    index: (k - 1) as usize,
                    prev: bars[k - 1].timestamp,
                    next: bars[k].timestamp,
                    delta_seconds: d as i64,
                    base_seconds: base as i64,
                },
            )
        } else {
            prev
        }
    }
}

/// Every spacing larger than four times the smallest positive spacing
/// (the finest cadence is taken as the declared frequency; the 4x
/// tolerance lets ordinary weekends through). None for fewer than three
/// bars or when no spacing is positive.
pub open spec fn gaps_of(bars: Seq<Bar>) -> Seq<GapSpan> {
    if bars.len() < 3 {
        seq![]
    } else {
        match min_positive_step(bars, bars.len() - 1) {
            None => seq![],
            Some(base) => gaps_upto(bars, bars.len() - 1, base),
        }
    }
}

fn step_between(a: Timestamp, b: Timestamp) -> (r: i64)
    ensures
        r == seconds_between(a as int, b as int),
        -0x80_0000_0000_0000 < r < 0x80_0000_0000_0000,
{
    let d: i128 = b as i128 - a as i128;
    if d >= 0 {
        (d / 1000) as i64
    } else {
        -(((a as i128 - b as i128) / 1000) as i64)
    }
}

/// The gaps in `bars` (see [`gaps_of`]).
pub fn gap_spans(bars: &[Bar]) -> (r: Vec<GapSpan>)
    ensures
        r@ == gaps_of(bars@),
{
    let n = bars.len();
    if n < 3 {
        return Vec::new();
    }
    let mut base: Option<i64> = None;
    let mut i: usize = 0;
    while i < n - 1
        invariant
            n == bars@.len(),
            n >= 3,
            i <= n - 1,
            match base {
                Some(b) => min_positive_step(bars@, i as int) == Some(b as int),
                None => min_positive_step(bars@, i as int) is None,
            },
            base matches Some(m) ==> 0 < m < 0x80_0000_0000_0000,
        decreases n - 1 - i,
    {
        let d = step_between(bars[i].timestamp, bars[i + 1].timestamp);
        if d > 0 {
            base = match base {
                Some(m) => if m < d {
                    Some(m)
                } else {
                    Some(d)
                },
                None => Some(d),
            };
        }
        i = i + 1;
    }
    let base = match base {
        Some(m) => m,
        None => return Vec::new(),
    };
    let threshold = base * 4;
    let mut out: Vec<GapSpan> = Vec::new();
    let mut k: usize = 0;
    while k < n - 1
        invariant
            n == bars@.len(),
            n >= 3,
            k <= n - 1,
            threshold == base * 4,
            0 < base < 0x80_0000_0000_0000,
            min_positive_step(bars@, n - 1) == Some(base as int),
            out@ == gaps_upto(bars@, k as int, base as int),
        decreases n - 1 - k,
    {
        let d = step_between(bars[k].timestamp, bars[k + 1].timestamp);
        if d > threshold {
            out.push(
                GapSpan {
                    index: k,
                    prev: bars[k].timestamp,
                    next: bars[k + 1].timestamp,
                    delta_seconds: d,
                    base_seconds: base,
                },
            );
        }
        k = k + 1;
    }
    out
}

/// Whether `lines` holds exactly one warning per gap of `bars`, in order.
pub open spec fn gap_warnings(lines: Seq<String>, bars: Seq<Bar>) -> bool {
    &&& lines.len() == gaps_of(bars).len()
    &&& forall|i: int|
        0 <= i < lines.len() ==> {
            let g = gaps_of(bars)[i];
            #[trigger] lines[i]@ == gap_message_text(
                g.index + 2,
                timestamp_text(g.prev),
                g.index + 3,
                timestamp_text(g.next),
                g.delta_seconds,
                g.base_seconds,
            )
        }
}

/// One warning line per gap in `bars` (see [`gaps_of`]).
pub fn detect_gaps(bars: &[Bar]) -> (r: Vec<String>)
    ensures
        gap_warnings(r@, bars@),
{
    let spans = gap_spans(bars);
    let mut out: Vec<String> = Vec::new();
    let mut i: usize = 0;
    while i < spans.len()
        invariant
            i <= spans@.len(),
            spans@ == gaps_of(bars@),
            out@.len() == i,
            forall|j: int|
                0 <= j < i ==> {
                    let g = spans@[j];
                    #[trigger] out@[j]@ == gap_message_text(
                        g.index + 2,
                        timestamp_text(g.prev),
                        g.index + 3,
                        timestamp_text(g.next),
                        g.delta_seconds,
                        g.base_seconds,
                    )
                },
        decreases spans@.len() - i,
    {
        let g = spans[i];
        let prev = timestamp_label(g.prev);
        let next = timestamp_label(g.next);
        out.push(
            render_gap_message(
                g.index as i128 + 2,
                prev.as_str(),
                g.index as i128 + 3,
                next.as_str(),
                g.delta_seconds,
                g.base_seconds,
            ),
        );
        i = i + 1;
    }
    out
}

/// Sorts `bars` into ascending timestamp order, keeping bars with equal
/// timestamps in the order they were given.
pub fn sort_by_timestamp(bars: &Vec<Bar>) -> (r: Vec<Bar>)
    ensures
        stably_sorted(r@, bars@),
        r@.to_multiset() == bars@.to_multiset(),
{
    let n = bars.len();
    let mut out: Vec<Bar> = Vec::new();
    let mut i: usize = 0;
    assert(bars@.take(0) =~= Seq::<Bar>::empty());
    while i < n
        invariant
            n == bars@.len(),
            i <= n,
            sorted_by_time(out@),
            out@.to_multiset() == bars@.take(i as int).to_multiset(),
            forall|t: Timestamp| #[trigger] at_time(out@, t) == at_time(bars@.take(i as int), t),
        decreases n - i,
    {
        let x = bars[i];
        let mut p = out.len();
        while p > 0 && out[p - 1].timestamp > x.timestamp
            invariant
                p <= out@.len(),
                sorted_by_time(out@),
                forall|k: int| p <= k < out@.len() ==> out@[k].timestamp > x.timestamp,
            decreases p,
        {
            p = p - 1;
        }
        let ghost before = out@;
        out.insert(p, x);
        proof {
            vstd::seq_lib::to_multiset_insert(before, p as int, x);
            vstd::seq_lib::to_multiset_build(bars@.take(i as int), x);
            assert(forall|k: int| 0 <= k < p ==> before[k].timestamp <= x.timestamp);
            assert(sorted_by_time(out@)) by {
                assert forall|a: int, b: int| 0 <= a <= b < out@.len() implies out@[a].timestamp
                    <= out@[b].timestamp by {
                    if a < p && b < p {
                        assert(out@[a] == before[a] && out@[b] == before[b]);
                    } else if a < p && b == p {
                        assert(out@[a] == before[a]);
                    } else if a < p && b > p {
                        assert(out@[a] == before[a] && out@[b] == before[b - 1]);
                    } else if a == p && b > p {
                        assert(out@[b] == before[b - 1]);
                    } else if a > p {
                        assert(out@[a] == before[a - 1] && out@[b] == before[b - 1]);
                    }
                }
            }
            assert(bars@.take(i + 1) =~= bars@.take(i as int).push(x));
            assert forall|t: Timestamp| #[trigger] at_time(out@, t) == at_time(bars@.take(i + 1), t) by {
                lemma_insert_before_later(before, p as int, x, t);
                bars@.take(i as int).lemma_filter_push(x, stamped(t));
            }
        }
        i = i + 1;
    }
    assert(bars@.take(n as int) =~= bars@);
    out
}

proof fn lemma_check_error_persists(records: Seq<RawRecord>, i: int, k: int)
    requires
        0 <= i <= k,
        check_records(records, i) is Err,
    ensures
        check_records(records, k) == check_records(records, i),
    decreases k - i,
{
    if k > i {
        lemma_check_error_persists(records, i, k - 1);
    }
}

proof fn lemma_inversion_persists(bars: Seq<Bar>, i: int, k: int)
    requires
        0 <= i <= k,
        first_inversion(bars, i) is Some,
    ensures
        first_inversion(bars, k) == first_inversion(bars, i),
    decreases k - i,
{
    if k > i {
        lemma_inversion_persists(bars, i, k - 1);
    }
}

/// With no inversion among the first `k` pairs, the first `k + 1` bars are
/// in time order.
proof fn lemma_no_inversion_sorted(bars: Seq<Bar>, k: int)
    requires
        0 <= k < bars.len(),
        first_inversion(bars, k) is None,
    ensures
        forall|i: int, j: int| 0 <= i <= j <= k ==> bars[i].timestamp <= bars[j].timestamp,
    decreases k,
{
    if k > 0 {
        lemma_no_inversion_sorted(bars, k - 1);
        assert forall|i: int, j: int| 0 <= i <= j <= k implies bars[i].timestamp <= bars[j].timestamp by {
            if j == k && i < k {
                assert(bars[i].timestamp <= bars[k - 1].timestamp);
            }
        }
    }
}

/// A [`DataFeed`] backed by fully loaded, validated records.
#[derive(Debug)]
pub struct CsvFeed {
    bars: VecDeque<MarketEvent>,
    warnings: Vec<String>,
}

/// The bars carried by `events`.
pub open spec fn event_bars(events: Seq<MarketEvent>) -> Seq<Bar> {
    Seq::new(events.len(), |i: int| events[i].bar)
}

impl CsvFeed {
    /// The events still to be yielded, in order.
    pub closed spec fn spec_events(&self) -> Seq<MarketEvent> {
        self.bars@
    }

    pub closed spec fn spec_warnings(&self) -> Seq<String> {
        self.warnings@
    }

    /// One line per suspicious gap in the loaded data (see [`detect_gaps`]).
    pub fn warnings(&self) -> (r: &Vec<String>)
        ensures
            r@ == self.spec_warnings(),
    {
        &self.warnings
    }

    /// Validates `records` (one per CSV data row, in file order) for
    /// `symbol`: each row's timestamp must parse and its bar must be valid;
    /// the first row failing either refuses the whole set. No rows at all
    /// is refused. Then timestamps out of order are refused or sorted,
    /// per `policy`.
    pub fn from_records(records: &Vec<RawRecord>, symbol: &SymbolId, policy: TimestampPolicy) -> (r: Result<Self, DataError>)
        requires
            records@.len() <= usize::MAX - 3,
        ensures
            match check_records(records@, records@.len() as int) {
                Err(e) => r == Err::<Self, DataError>(e),
                Ok(bars) => if bars.len() == 0 {
                    r == Err::<Self, DataError>(DataError::Empty)
                } else {
                    &&& (policy == TimestampPolicy::Reject) ==> match first_inversion(
                        bars,
                        bars.len() - 1,
                    ) {
                        Some(i) => r == Err::<Self, DataError>(
                            DataError::OutOfOrderTimestamp {
                                row: (i + 3) as usize,
                                prev: bars[i].timestamp,
                                curr: bars[i + 1].timestamp,
                            },
                        ),
                        None => (r matches Ok(feed) && event_bars(feed.spec_events()) == bars),
                    }
                    &&& (policy == TimestampPolicy::SortAscending) ==> (r matches Ok(feed)
                        && stably_sorted(event_bars(feed.spec_events()), bars) && event_bars(
                        feed.spec_events(),
                    ).to_multiset() == bars.to_multiset())
                    &&& r matches Ok(feed) ==> {
                        &&& sorted_by_time(event_bars(feed.spec_events()))
                        &&& forall|i: int|
                            0 <= i < feed.spec_events().len() ==> (#[trigger] feed.spec_events()[i]).symbol
                                == *symbol
                        &&& gap_warnings(feed.spec_warnings(), event_bars(feed.spec_events()))
                    }
                },
            },
    {
        let n = records.len();
        let mut bars: Vec<Bar> = Vec::new();
        let mut i: usize = 0;
        while i < n
            invariant
                n == records@.len(),
                n <= usize::MAX - 3,
                i <= n,
                check_records(records@, i as int) == Ok::<Seq<Bar>, DataError>(bars@),
                bars@.len() == i,
            decreases n - i,
        {
            let rec = &records[i];
            let ts = match parse_timestamp(rec.timestamp.as_str()) {
                Some(t) => t,
                None => {
                    proof {
                        lemma_check_error_persists(records@, i + 1, n as int);
                    }
                    return Err(DataError::InvalidTimestamp { row: i + 2, raw: rec.timestamp.clone() });
                },
            };
            let bar = match (rec.open, rec.high, rec.low, rec.close, rec.volume) {
                (Some(o), Some(h), Some(l), Some(c), Some(v)) => Bar {
                    timestamp: ts,
                    open: o,
                    high: h,
                    low: l,
                    close: c,
                    volume: v,
                },
                _ => {
                    proof {
                        lemma_check_error_persists(records@, i + 1, n as int);
                    }
                    return Err(DataError::InvalidBar { row: i + 2, record: rec.copy() });
                },
            };
            if !bar.is_valid() {
                proof {
                    lemma_check_error_persists(records@, i + 1, n as int);
                }
                return Err(DataError::InvalidBar { row: i + 2, record: rec.copy() });
            }
            bars.push(bar);
            i = i + 1;
        }
        if bars.len() == 0 {
            return Err(DataError::Empty);
        }
        let ghost checked = bars@;
        let ordered = match policy {
            TimestampPolicy::SortAscending => sort_by_timestamp(&bars),
            TimestampPolicy::Reject => {
                let m = bars.len();
                let mut k: usize = 1;
                while k < m
                    invariant
                        m == bars@.len(),
                        m <= usize::MAX - 3,
                        1 <= k <= m,
                        checked == bars@,
                        check_records(records@, records@.len() as int) == Ok::<Seq<Bar>, DataError>(
                            checked,
                        ),
                        policy == TimestampPolicy::Reject,
                        first_inversion(bars@, k - 1) is None,
                    decreases m - k,
                {
                    if bars[k].timestamp < bars[k - 1].timestamp {
                        proof {
                            assert(first_inversion(bars@, k as int) == Some(k - 1));
                            lemma_inversion_persists(bars@, k as int, m - 1);
                            assert(first_inversion(checked, checked.len() - 1) == Some(k - 1));
                        }
                        return Err(
                            DataError::OutOfOrderTimestamp {
                                row: k + 2,
                                prev: bars[k - 1].timestamp,
                                curr: bars[k].timestamp,
                            },
                        );
                    }
                    k = k + 1;
                }
                proof {
                    lemma_no_inversion_sorted(bars@, m - 1);
                }
                bars
            },
        };
        let warnings = detect_gaps(ordered.as_slice());
        let mut events: VecDeque<MarketEvent> = VecDeque::new();
        let mut j: usize = 0;
        while j < ordered.len()
            invariant
                j <= ordered@.len(),
                events@.len() == j,
                forall|k: int| 0 <= k < j ==> (#[trigger] events@[k]).bar == ordered@[k],
                forall|k: int| 0 <= k < j ==> (#[trigger] events@[k]).symbol == *symbol,
            decreases ordered@.len() - j,
        {
            events.push_back(MarketEvent { symbol: symbol.clone(), bar: ordered[j] });
            j = j + 1;
        }
        assert(event_bars(events@) =~= ordered@);
        Ok(CsvFeed { bars: events, warnings })
    }
}

impl DataFeed for CsvFeed {
    open spec fn obeys_feed_laws() -> bool {
        true
    }

    open spec fn pending(&self) -> Seq<MarketEvent> {
        self.spec_events()
    }

    fn next(&mut self) -> (r: Option<MarketEvent>)
        ensures
            old(self).spec_events().len() == 0 ==> r is None && final(self).spec_events()
                == old(self).spec_events(),
            old(self).spec_events().len() > 0 ==> r == Some(old(self).spec_events()[0])
                && final(self).spec_events() == old(self).spec_events().drop_first(),
    {
        self.bars.pop_front()
    }
}

} // verus!
