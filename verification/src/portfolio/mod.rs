//! Portfolio state: cash, positions, marks, and the fill, trade and equity
//! logs; plus the `SizingModel` trait.
//!
//! Positions are signed (long > 0, short < 0) and carry an average entry
//! price; a fill against the position's direction first closes (part of)
//! it, realizing PnL on the closed leg, and any excess opens a fresh leg
//! in the other direction.
pub mod sizing;

use crate::data::symbol_table::{entries_insert, SymbolTable};
use crate::data::types::{Money, Price, Quantity, SymbolId, Timestamp};
use crate::events::{FillEvent, OrderEvent, Side, SignalEvent};
use crate::fixed::{clamp128, clamp64, floor_div, money_add, money_sub, narrow, sat_add, wide_mul};
use vstd::prelude::*;

verus! {

/// An open position in a single symbol.
#[derive(Debug, Clone, Copy, PartialEq, Eq, Structural)]
pub struct Position {
    pub quantity: Quantity,
    pub avg_entry_price: Price,
    pub realized_pnl: Money,
    /// When the current leg was opened; `None` while flat.
    pub entry_timestamp: Option<Timestamp>,
}

/// The flat, never-traded position.
pub open spec fn flat_position() -> Position {
    Position { quantity: 0, avg_entry_price: 0, realized_pnl: 0, entry_timestamp: None }
}

impl Default for Position {
    fn default() -> (r: Self)
        ensures
            r == flat_position(),
    {
        Position { quantity: 0, avg_entry_price: 0, realized_pnl: 0, entry_timestamp: None }
    }
}

/// A closed (part of a) position: one closing leg.
#[derive(Debug, Clone)]
pub struct ClosedTrade {
    pub symbol: SymbolId,
    pub entry_timestamp: Timestamp,
    pub exit_timestamp: Timestamp,
    pub quantity: Quantity,
    pub realized_pnl: Money,
}

/// One sample of the equity curve.
#[derive(Debug, Clone, Copy, PartialEq, Eq, Structural)]
pub struct EquityPoint {
    pub timestamp: Timestamp,
    pub equity: Money,
    pub cash: Money,
    pub gross_exposure: Money,
}

pub open spec fn abs(x: int) -> int {
    if x < 0 {
        -x
    } else {
        x
    }
}

/// The fill's quantity with a sign: positive for a buy, negative for a sell.
pub open spec fn signed_quantity(fill: FillEvent) -> int {
    match fill.side {
        Side::Buy => fill.quantity_filled as int,
        Side::Sell => -(fill.quantity_filled as int),
    }
}

/// The floor of the quantity-weighted average of two prices.
pub open spec fn weighted_average(q1: int, p1: int, q2: int, p2: int) -> int {
    (q1 * p1 + q2 * p2) / (q1 + q2)
}

/// Whether `fill` reduces (closes at least part of) `pos`.
pub open spec fn reduces(pos: Position, fill: FillEvent) -> bool {
    let q = pos.quantity as int;
    let d = signed_quantity(fill);
    (q > 0 && d < 0) || (q < 0 && d > 0)
}

/// The quantity `fill` closes of `pos`, when it reduces it.
pub open spec fn closing_quantity(pos: Position, fill: FillEvent) -> int {
    let q = abs(pos.quantity as int);
    let d = abs(signed_quantity(fill));
    if q < d {
        q
    } else {
        d
    }
}

/// The PnL realized by closing `closing` units of `pos` at `price`.
pub open spec fn leg_pnl(pos: Position, price: int, closing: int) -> int {
    if pos.quantity > 0 {
        (price - pos.avg_entry_price) * closing
    } else {
        (pos.avg_entry_price - price) * closing
    }
}

/// `pos` after `fill`.
pub open spec fn after_fill(pos: Position, fill: FillEvent) -> Position {
    let q = pos.quantity as int;
    let d = signed_quantity(fill);
    let p = fill.fill_price as int;
    if d == 0 {
        pos
    } else if q == 0 {
        Position {
            quantity: clamp64(d) as i64,
            avg_entry_price: fill.fill_price,
            realized_pnl: pos.realized_pnl,
            entry_timestamp: Some(fill.timestamp),
        }
    } else if !reduces(pos, fill) {
        Position {
            quantity: clamp64(q + d) as i64,
            avg_entry_price: weighted_average(abs(q), pos.avg_entry_price as int, abs(d), p) as i64,
            ..pos
        }
    } else {
        let realized = clamp128(
            pos.realized_pnl + leg_pnl(pos, p, closing_quantity(pos, fill)),
        ) as i128;
        if abs(d) < abs(q) {
            Position { quantity: (q + d) as i64, realized_pnl: realized, ..pos }
        } else if abs(d) == abs(q) {
            Position { quantity: 0, avg_entry_price: 0, realized_pnl: realized, entry_timestamp: None }
        } else {
            Position {
                quantity: (q + d) as i64,
                avg_entry_price: fill.fill_price,
                realized_pnl: realized,
                entry_timestamp: Some(fill.timestamp),
            }
        }
    }
}

/// Cash after paying for `fill` (receiving, for a sell) and its commission.
pub open spec fn cash_after_fill(cash: int, fill: FillEvent) -> int {
    clamp128(clamp128(cash - signed_quantity(fill) * fill.fill_price) - fill.commission)
}

/// The price a position is marked at: the last known price of its symbol,
/// or its average entry price if no price has been seen.
pub open spec fn mark(prices: Map<Seq<char>, Price>, symbol: Seq<char>, pos: Position) -> int {
    if prices.dom().contains(symbol) {
        prices[symbol] as int
    } else {
        pos.avg_entry_price as int
    }
}

/// `acc` plus the marked value of every position in `entries`, in order,
/// each addition saturating at the bounds of `i128`; with `gross`, the
/// absolute values.
pub open spec fn value_fold(
    acc: int,
    entries: Seq<(SymbolId, Position)>,
    prices: Map<Seq<char>, Price>,
    gross: bool,
) -> int
    decreases entries.len(),
{
    if entries.len() == 0 {
        acc
    } else {
        let e = entries.last();
        let v = e.1.quantity * mark(prices, e.0@, e.1);
        clamp128(value_fold(acc, entries.drop_last(), prices, gross) + if gross {
            abs(v)
        } else {
            v
        })
    }
}

/// Whether `after` is `before` with `fill` booked: cash pays (or
/// receives) the fill's notional and commission, the position moves as
/// [`after_fill`] says (in place in the entry order, or appended), the fill
/// is logged, and a closed trade is logged for the leg the fill closes, if
/// any.
pub open spec fn fill_booked(before: Portfolio, fill: FillEvent, after: Portfolio) -> bool {
    let pos = before.spec_position(fill.symbol@);
    &&& after.cash == cash_after_fill(before.cash as int, fill)
    &&& after.spec_positions() == before.spec_positions().insert(fill.symbol@, after_fill(pos, fill))
    &&& after.spec_position_entries() == entries_insert(
        before.spec_position_entries(),
        fill.symbol,
        after_fill(pos, fill),
    )
    &&& after.spec_last_prices() == before.spec_last_prices()
    &&& after.fills@ == before.fills@.push(fill)
    &&& after.equity_curve == before.equity_curve
    &&& if reduces(pos, fill) {
        after.closed_trades@ == before.closed_trades@.push(
            ClosedTrade {
                symbol: fill.symbol,
                entry_timestamp: match pos.entry_timestamp {
                    Some(t) => t,
                    None => fill.timestamp,
                },
                exit_timestamp: fill.timestamp,
                quantity: clamp64(closing_quantity(pos, fill)) as i64,
                realized_pnl: leg_pnl(pos, fill.fill_price as int, closing_quantity(pos, fill)) as i128,
            },
        )
    } else {
        after.closed_trades@ == before.closed_trades@
    }
}

/// Whether `after` is `before` with `price` recorded as the mark of
/// `symbol`, and nothing else changed.
pub open spec fn price_marked(before: Portfolio, symbol: Seq<char>, price: Price, after: Portfolio) -> bool {
    &&& after.spec_last_prices() == before.spec_last_prices().insert(symbol, price)
    &&& after.spec_positions() == before.spec_positions()
    &&& after.spec_position_entries() == before.spec_position_entries()
    &&& after.cash == before.cash
    &&& after.fills == before.fills
    &&& after.closed_trades@ == before.closed_trades@
    &&& after.equity_curve == before.equity_curve
}

/// Whether `after` is `before` with one more equity sample, taken at
/// `timestamp`, and nothing else changed.
pub open spec fn equity_sampled(before: Portfolio, timestamp: Timestamp, after: Portfolio) -> bool {
    &&& after.equity_curve@ == before.equity_curve@.push(before.spec_snapshot(timestamp))
    &&& after.cash == before.cash
    &&& after.spec_positions() == before.spec_positions()
    &&& after.spec_position_entries() == before.spec_position_entries()
    &&& after.spec_last_prices() == before.spec_last_prices()
    &&& after.fills == before.fills
    &&& after.closed_trades@ == before.closed_trades@
}

/// Cash, open positions, marks, and the fill, closed-trade and equity logs.
#[derive(Debug)]
pub struct Portfolio {
    pub cash: Money,
    pub positions: SymbolTable<Position>,
    pub last_prices: SymbolTable<Price>,
    pub fills: Vec<FillEvent>,
    pub closed_trades: Vec<ClosedTrade>,
    pub equity_curve: Vec<EquityPoint>,
}

impl Portfolio {
    /// Positions by symbol.
    pub open spec fn spec_positions(&self) -> Map<Seq<char>, Position> {
        self.positions@
    }

    /// Positions in the order their symbols were first traded.
    pub open spec fn spec_position_entries(&self) -> Seq<(SymbolId, Position)> {
        self.positions.spec_entries()
    }

    /// Last known price by symbol.
    pub open spec fn spec_last_prices(&self) -> Map<Seq<char>, Price> {
        self.last_prices@
    }

    /// The position held in `symbol` (flat if never traded).
    pub open spec fn spec_position(&self, symbol: Seq<char>) -> Position {
        if self.spec_positions().dom().contains(symbol) {
            self.spec_positions()[symbol]
        } else {
            flat_position()
        }
    }

    /// The equity sample this portfolio gives at `timestamp`: its equity,
    /// cash and gross exposure as they stand.
    pub open spec fn spec_snapshot(&self, timestamp: Timestamp) -> EquityPoint {
        EquityPoint {
            timestamp,
            equity: value_fold(self.cash as int, self.spec_position_entries(), self.spec_last_prices(), false)
                as i128,
            cash: self.cash,
            gross_exposure: value_fold(0, self.spec_position_entries(), self.spec_last_prices(), true) as i128,
        }
    }

    pub fn new(initial_cash: Money) -> (r: Self)
        ensures
            r.cash == initial_cash,
            r.spec_positions() == Map::<Seq<char>, Position>::empty(),
            r.spec_position_entries().len() == 0,
            r.spec_last_prices() == Map::<Seq<char>, Price>::empty(),
            r.fills@.len() == 0,
            r.closed_trades@.len() == 0,
            r.equity_curve@.len() == 0,
    {
        Portfolio {
            cash: initial_cash,
            positions: SymbolTable::new(),
            last_prices: SymbolTable::new(),
            fills: Vec::new(),
            closed_trades: Vec::new(),
            equity_curve: Vec::new(),
        }
    }

    /// The position held in `symbol`, flat if it was never traded.
    pub fn position(&self, symbol: &SymbolId) -> (r: Position)
        ensures
            r == self.spec_position(symbol@),
    {
        match self.positions.get(symbol) {
            Some(p) => p,
            None => Position { quantity: 0, avg_entry_price: 0, realized_pnl: 0, entry_timestamp: None },
        }
    }

    /// The last price seen for `symbol`.
    pub fn last_price(&self, symbol: &SymbolId) -> (r: Option<Price>)
        ensures
            r == (if self.spec_last_prices().dom().contains(symbol@) {
                Some(self.spec_last_prices()[symbol@])
            } else {
                None
            }),
    {
        self.last_prices.get(symbol)
    }

    /// Records `price` as the latest mark for `symbol`.
    pub fn update_price(&mut self, symbol: &SymbolId, price: Price)
        ensures
            price_marked(*old(self), symbol@, price, *final(self)),
    {
        self.last_prices.insert(symbol, price);
    }

    /// Marked value of position `i`, in money units.
    fn value_at(&self, i: usize) -> (r: i128)
        requires
            i < self.spec_position_entries().len(),
        ensures
            ({
                let e = self.spec_position_entries()[i as int];
                r == e.1.quantity * mark(self.spec_last_prices(), e.0@, e.1)
            }),
            -0x4000_0000_0000_0000_0000_0000_0000_0000 <= r <= 0x4000_0000_0000_0000_0000_0000_0000_0000,
    {
        let (symbol, pos) = self.positions.entry(i);
        let price = match self.last_prices.get(symbol) {
            Some(p) => p,
            None => pos.avg_entry_price,
        };
        let v = wide_mul(pos.quantity, price);
        proof {
            let a = pos.quantity as int;
            let b = price as int;
            assert(-0x4000_0000_0000_0000_0000_0000_0000_0000 <= a * b <= 0x4000_0000_0000_0000_0000_0000_0000_0000) by (nonlinear_arith)
                requires
                    i64::MIN <= a <= i64::MAX,
                    i64::MIN <= b <= i64::MAX,
            ;
        }
        v
    }

    fn fold_values(&self, acc: i128, gross: bool) -> (r: i128)
        ensures
            r == value_fold(acc as int, self.spec_position_entries(), self.spec_last_prices(), gross),
    {
        let n = self.positions.len();
        let mut total = acc;
        let mut i: usize = 0;
        while i < n
            invariant
                n == self.spec_position_entries().len(),
                i <= n,
                total == value_fold(
                    acc as int,
                    self.spec_position_entries().take(i as int),
                    self.spec_last_prices(),
                    gross,
                ),
            decreases n - i,
        {
            let v = self.value_at(i);
            let term = if gross && v < 0 {
                if v == i128::MIN {
                    i128::MAX
                } else {
                    -v
                }
            } else {
                v
            };
            proof {
                assert(self.spec_position_entries().take(i + 1).drop_last() =~= self.spec_position_entries().take(i as int));
            }
            total = money_add(total, term);
            i = i + 1;
        }
        assert(self.spec_position_entries().take(n as int) =~= self.spec_position_entries());
        total
    }

    /// Cash plus the marked value of every open position.
    pub fn equity(&self) -> (r: Money)
        ensures
            r == value_fold(self.cash as int, self.spec_position_entries(), self.spec_last_prices(), false),
    {
        self.fold_values(self.cash, false)
    }

    /// The sum of the absolute marked values of every open position.
    pub fn gross_exposure(&self) -> (r: Money)
        ensures
            r == value_fold(0, self.spec_position_entries(), self.spec_last_prices(), true),
    {
        self.fold_values(0, true)
    }

    /// Appends an equity sample at `timestamp`.
    pub fn snapshot_equity(&mut self, timestamp: Timestamp)
        ensures
            equity_sampled(*old(self), timestamp, *final(self)),
    {
        let point = EquityPoint {
            timestamp,
            equity: self.equity(),
            cash: self.cash,
            gross_exposure: self.gross_exposure(),
        };
        self.equity_curve.push(point);
    }

    /// Whether there is cash for `order` at `price`: a buy needs its whole
    /// notional in cash; a sell (or short) is always affordable.
    pub fn can_afford(&self, order: &OrderEvent, price: Price) -> (r: bool)
        ensures
            r == match order.side {
                Side::Buy => order.quantity * price <= self.cash,
                Side::Sell => true,
            },
    {
        match order.side {
            Side::Buy => wide_mul(order.quantity, price) <= self.cash,
            Side::Sell => true,
        }
    }

    /// `pos` after `fill` (see [`after_fill`]).
    fn next_position(pos: Position, fill: &FillEvent) -> (r: Position)
        ensures
            r == after_fill(pos, *fill),
    {
        let q = pos.quantity as i128;
        let d: i128 = match fill.side {
            Side::Buy => fill.quantity_filled as i128,
            Side::Sell => -(fill.quantity_filled as i128),
        };
        if d == 0 {
            return pos;
        }
        if q == 0 {
            return Position {
                quantity: narrow(d),
                avg_entry_price: fill.fill_price,
                realized_pnl: pos.realized_pnl,
                entry_timestamp: Some(fill.timestamp),
            };
        }
        let aq: i128 = if q < 0 { -q } else { q };
        let ad: i128 = if d < 0 { -d } else { d };
        let p = fill.fill_price as i128;
        let avg = pos.avg_entry_price as i128;
        proof {
            lemma_product_fits(p - avg, ad as int);
            lemma_product_fits(avg - p, ad as int);
        }
        if (q > 0) == (d > 0) {
            // Adding to the position: average the entry price.
            let step = floor_div((p - avg) * ad, aq + ad);
            proof {
                lemma_weighted_average(aq as int, avg as int, ad as int, p as int);
            }
            return Position {
                quantity: narrow(q + d),
                avg_entry_price: (avg + step) as i64,
                ..pos
            };
        }
        let closing: i128 = if aq < ad { aq } else { ad };
        proof {
            lemma_product_fits(p - avg, closing as int);
            lemma_product_fits(avg - p, closing as int);
        }
        let pnl: i128 = if q > 0 {
            (p - avg) * closing
        } else {
            (avg - p) * closing
        };
        proof {
            assert(-0x7fff_ffff_ffff_ffff_8000_0000_0000_0000 <= pnl <= 0x7fff_ffff_ffff_ffff_8000_0000_0000_0000) by (nonlinear_arith)
                requires
                    0 <= closing <= 0x8000_0000_0000_0000,
                    -0xffff_ffff_ffff_ffff <= p - avg <= 0xffff_ffff_ffff_ffff,
                    pnl == (p - avg) * closing || pnl == (avg - p) * closing,
            ;
        }
        let realized = money_add(pos.realized_pnl, pnl);
        if ad < aq {
            Position { quantity: (q + d) as i64, realized_pnl: realized, ..pos }
        } else if ad == aq {
            Position { quantity: 0, avg_entry_price: 0, realized_pnl: realized, entry_timestamp: None }
        } else {
            Position {
                quantity: (q + d) as i64,
                avg_entry_price: fill.fill_price,
                realized_pnl: realized,
                entry_timestamp: Some(fill.timestamp),
            }
        }
    }

    /// Books `fill`: pays (or receives) its notional and commission, updates
    /// the position, logs the fill, and logs a closed trade for any leg the
    /// fill closes.
    pub fn apply_fill(&mut self, fill: &FillEvent)
        ensures
            fill_booked(*old(self), *fill, *final(self)),
    {
        let pos = self.position(&fill.symbol);
        let d: i128 = match fill.side {
            Side::Buy => fill.quantity_filled as i128,
            Side::Sell => -(fill.quantity_filled as i128),
        };
        proof {
            let pp = fill.fill_price as int;
            assert(i128::MIN <= d * pp <= i128::MAX) by (nonlinear_arith)
                requires
                    -0x8000_0000_0000_0000 <= d <= 0x8000_0000_0000_0000,
                    i64::MIN <= pp <= i64::MAX,
            ;
        }
        let notional = d * (fill.fill_price as i128);
        self.cash = money_sub(money_sub(self.cash, notional), fill.commission);
        let next = Self::next_position(pos, fill);
        let q = pos.quantity as i128;
        if (q > 0 && d < 0) || (q < 0 && d > 0) {
            let aq: i128 = if q < 0 { -q } else { q };
            let ad: i128 = if d < 0 { -d } else { d };
            let closing: i128 = if aq < ad { aq } else { ad };
            let p = fill.fill_price as i128;
            let avg = pos.avg_entry_price as i128;
            proof {
                lemma_product_fits(p - avg, closing as int);
                lemma_product_fits(avg - p, closing as int);
            }
            let pnl: i128 = if q > 0 {
                (p - avg) * closing
            } else {
                (avg - p) * closing
            };
            self.closed_trades.push(
                ClosedTrade {
                    symbol: fill.symbol.clone(),
                    entry_timestamp: match pos.entry_timestamp {
                        Some(t) => t,
                        None => fill.timestamp,
                    },
                    exit_timestamp: fill.timestamp,
                    quantity: narrow(closing),
                    realized_pnl: pnl,
                },
            );
        }
        self.positions.insert(&fill.symbol, next);
        self.fills.push(fill.copy());
    }
}

/// Conservation: booking a fill neither creates nor destroys money. Marking
/// the traded position at the fill price, cash plus that position's value
/// after the fill equals cash plus its value before, minus the commission
/// (as long as no value left its representable range).
pub proof fn lemma_fill_conserves_value(cash: i128, pos: Position, fill: FillEvent)
    requires
        i128::MIN <= cash - signed_quantity(fill) * fill.fill_price <= i128::MAX,
        i128::MIN <= cash - signed_quantity(fill) * fill.fill_price - fill.commission <= i128::MAX,
        i64::MIN <= pos.quantity + signed_quantity(fill) <= i64::MAX,
    ensures
        after_fill(pos, fill).quantity == pos.quantity + signed_quantity(fill),
        cash_after_fill(cash as int, fill) + after_fill(pos, fill).quantity * fill.fill_price == cash
            + pos.quantity * fill.fill_price - fill.commission,
{
    let d = signed_quantity(fill);
    let q = pos.quantity as int;
    let p = fill.fill_price as int;
    assert((q + d) * p == q * p + d * p) by (nonlinear_arith);
}

/// A round trip realizes exactly its price difference: opening a position
/// of `quantity` from flat at `entry` and closing all of it at `exit`
/// leaves the position flat with `(exit - entry) * quantity` more realized
/// PnL for a long (`(entry - exit) * quantity` for a short).
pub proof fn lemma_round_trip_realizes_price_difference(
    pos: Position,
    open: FillEvent,
    close: FillEvent,
)
    requires
        pos.quantity == 0,
        open.quantity_filled > 0,
        close.quantity_filled == open.quantity_filled,
        open.side != close.side,
        i128::MIN <= pos.realized_pnl + (close.fill_price - open.fill_price) * open.quantity_filled
            <= i128::MAX,
        i128::MIN <= pos.realized_pnl + (open.fill_price - close.fill_price) * open.quantity_filled
            <= i128::MAX,
    ensures
        after_fill(after_fill(pos, open), close).quantity == 0,
        after_fill(after_fill(pos, open), close).entry_timestamp is None,
        after_fill(after_fill(pos, open), close).realized_pnl == pos.realized_pnl + match open.side {
            Side::Buy => (close.fill_price - open.fill_price) * open.quantity_filled,
            Side::Sell => (open.fill_price - close.fill_price) * open.quantity_filled,
        },
{
}

/// The exact (unsaturated) total marked value of `entries`.
pub open spec fn marked_total(entries: Seq<(SymbolId, Position)>, prices: Map<Seq<char>, Price>) -> int
    decreases entries.len(),
{
    if entries.len() == 0 {
        0
    } else {
        let e = entries.last();
        marked_total(entries.drop_last(), prices) + e.1.quantity * mark(prices, e.0@, e.1)
    }
}

proof fn lemma_long_only_folds(
    cash: int,
    entries: Seq<(SymbolId, Position)>,
    prices: Map<Seq<char>, Price>,
)
    requires
        forall|k: int|
            0 <= k < entries.len() ==> #[trigger] entries[k].1.quantity * mark(
                prices,
                entries[k].0@,
                entries[k].1,
            ) >= 0,
        i128::MIN <= cash,
        cash + marked_total(entries, prices) <= i128::MAX,
        marked_total(entries, prices) <= i128::MAX,
    ensures
        marked_total(entries, prices) >= 0,
        value_fold(cash, entries, prices, false) == cash + marked_total(entries, prices),
        value_fold(0, entries, prices, true) == marked_total(entries, prices),
    decreases entries.len(),
{
    if entries.len() > 0 {
        let rest = entries.drop_last();
        let e = entries.last();
        assert(e == entries[entries.len() - 1]);
        let v = e.1.quantity * mark(prices, e.0@, e.1);
        assert(v >= 0);
        assert forall|k: int|
            0 <= k < rest.len() implies #[trigger] rest[k].1.quantity * mark(prices, rest[k].0@, rest[k].1)
                >= 0 by {
            assert(rest[k] == entries[k]);
        }
        lemma_long_only_folds(cash, rest, prices);
    }
}

/// With no short positions and no negative marks, equity is cash plus gross
/// exposure: the value of every position counts the same in both, as long
/// as the totals stay within the range of money.
pub proof fn lemma_long_only_equity_is_cash_plus_exposure(
    cash: i128,
    entries: Seq<(SymbolId, Position)>,
    prices: Map<Seq<char>, Price>,
)
    requires
        forall|k: int|
            0 <= k < entries.len() ==> #[trigger] entries[k].1.quantity * mark(
                prices,
                entries[k].0@,
                entries[k].1,
            ) >= 0,
        cash + marked_total(entries, prices) <= i128::MAX,
        marked_total(entries, prices) <= i128::MAX,
    ensures
        value_fold(cash as int, entries, prices, false) == cash + value_fold(0, entries, prices, true),
{
    lemma_long_only_folds(cash as int, entries, prices);
}

/// A price difference times a quantity magnitude fits in `i128`.
proof fn lemma_product_fits(x: int, y: int)
    requires
        -0xffff_ffff_ffff_ffff <= x <= 0xffff_ffff_ffff_ffff,
        0 <= y <= 0x8000_0000_0000_0000,
    ensures
        i128::MIN <= x * y <= i128::MAX,
{
    assert(-0xffff_ffff_ffff_ffff * 0x8000_0000_0000_0000 <= x * y <= 0xffff_ffff_ffff_ffff * 0x8000_0000_0000_0000) by (nonlinear_arith)
        requires
            -0xffff_ffff_ffff_ffff <= x <= 0xffff_ffff_ffff_ffff,
            0 <= y <= 0x8000_0000_0000_0000,
    ;
}

proof fn lemma_weighted_average(q1: int, p1: int, q2: int, p2: int)
    requires
        q1 > 0,
        q2 > 0,
        i64::MIN <= p1 <= i64::MAX,
        i64::MIN <= p2 <= i64::MAX,
        q1 <= 0x8000_0000_0000_0000,
        q2 <= 0x8000_0000_0000_0000,
    ensures
        weighted_average(q1, p1, q2, p2) == p1 + ((p2 - p1) * q2) / (q1 + q2),
        i64::MIN <= weighted_average(q1, p1, q2, p2) <= i64::MAX,
        i128::MIN <= (p2 - p1) * q2 <= i128::MAX,
{
    let s = q1 + q2;
    let x = (p2 - p1) * q2;
    assert(i128::MIN <= x <= i128::MAX) by (nonlinear_arith)
        requires
            x == (p2 - p1) * q2,
            0 < q2 <= 0x8000_0000_0000_0000,
            -0xffff_ffff_ffff_ffff <= p2 - p1 <= 0xffff_ffff_ffff_ffff,
    ;
    vstd::arithmetic::div_mod::lemma_fundamental_div_mod(x, s);
    vstd::arithmetic::div_mod::lemma_mod_bound(x, s);
    let qq = x / s;
    let rr = x % s;
    assert(q1 * p1 + q2 * p2 == qq * s + (s * p1 + rr)) by (nonlinear_arith)
        requires
            x == s * qq + rr,
            x == (p2 - p1) * q2,
            s == q1 + q2,
    ;
    assert(q1 * p1 + q2 * p2 == (p1 + qq) * s + rr) by (nonlinear_arith)
        requires
            q1 * p1 + q2 * p2 == qq * s + (s * p1 + rr),
    ;
    vstd::arithmetic::div_mod::lemma_fundamental_div_mod_converse(q1 * p1 + q2 * p2, s, p1 + qq, rr);
    if p2 >= p1 {
        assert(0 <= x <= (p2 - p1) * s) by (nonlinear_arith)
            requires
                x == (p2 - p1) * q2,
                p2 - p1 >= 0,
                0 < q2 <= s,
        ;
        vstd::arithmetic::div_mod::lemma_div_is_ordered(0, x, s);
        vstd::arithmetic::div_mod::lemma_div_is_ordered(x, (p2 - p1) * s, s);
        vstd::arithmetic::div_mod::lemma_div_multiples_vanish(p2 - p1, s);
        assert(((p2 - p1) * s) / s == p2 - p1) by (nonlinear_arith)
            requires
                (s * (p2 - p1)) / s == p2 - p1,
        ;
    } else {
        assert((p2 - p1) * s <= x <= 0) by (nonlinear_arith)
            requires
                x == (p2 - p1) * q2,
                p2 - p1 < 0,
                0 < q2 <= s,
        ;
        vstd::arithmetic::div_mod::lemma_div_is_ordered(x, 0, s);
        vstd::arithmetic::div_mod::lemma_div_is_ordered((p2 - p1) * s, x, s);
        vstd::arithmetic::div_mod::lemma_div_multiples_vanish(p2 - p1, s);
        assert(((p2 - p1) * s) / s == p2 - p1) by (nonlinear_arith)
            requires
                (s * (p2 - p1)) / s == p2 - p1,
        ;
    }
}

/// Converts a `SignalEvent` (intent) into a sized `OrderEvent`, given the
/// current portfolio state. `sizes` describes an implementation's
/// behaviour to the verifier; the default describes nothing.
pub trait SizingModel {
    /// Whether `size` may answer `order` for `signal` in `portfolio`.
    open spec fn sizes(&self, signal: &SignalEvent, portfolio: &Portfolio, order: Option<OrderEvent>) -> bool {
        true
    }

    fn size(&self, signal: &SignalEvent, portfolio: &Portfolio) -> (r: Option<OrderEvent>)
        ensures
            self.sizes(signal, portfolio, r),
    ;
}

/// Adding to an open position on its own side keeps the leg's cost basis:
/// the position grows by the fill's quantity, and its entry price becomes
/// the average cost of the combined leg rounded down to a price unit, so
/// the new size times the new entry price is at most the old size times
/// the old entry price plus the fill's quantity times its price, and falls
/// short of it by less than the new size. Realized PnL and the leg's
/// opening time are unchanged.
pub proof fn lemma_adding_averages_entry_price(pos: Position, fill: FillEvent)
    requires
        fill.quantity_filled > 0,
        pos.quantity > 0 && fill.side == Side::Buy || pos.quantity < 0 && fill.side == Side::Sell,
        i64::MIN <= pos.quantity + signed_quantity(fill) <= i64::MAX,
    ensures
        ({
            let n = after_fill(pos, fill);
            let held = abs(pos.quantity as int);
            let added = fill.quantity_filled as int;
            let cost = held * pos.avg_entry_price + added * fill.fill_price;
            &&& n.quantity == pos.quantity + signed_quantity(fill)
            &&& abs(n.quantity as int) == held + added
            &&& abs(n.quantity as int) * n.avg_entry_price <= cost
            &&& cost < abs(n.quantity as int) * (n.avg_entry_price + 1)
            &&& n.realized_pnl == pos.realized_pnl
            &&& n.entry_timestamp == pos.entry_timestamp
        }),
{
    let held = abs(pos.quantity as int);
    let added = fill.quantity_filled as int;
    let s = held + added;
    let cost = held * pos.avg_entry_price + added * fill.fill_price;
    lemma_weighted_average(held, pos.avg_entry_price as int, added, fill.fill_price as int);
    let w = weighted_average(held, pos.avg_entry_price as int, added, fill.fill_price as int);
    assert(w == cost / s);
    vstd::arithmetic::div_mod::lemma_fundamental_div_mod(cost, s);
    vstd::arithmetic::div_mod::lemma_mod_bound(cost, s);
    assert(s * w <= cost < s * (w + 1)) by (nonlinear_arith)
        requires
            cost == s * (cost / s) + cost % s,
            0 <= cost % s < s,
            w == cost / s,
    ;
    let n = after_fill(pos, fill);
    assert(n.avg_entry_price == w);
    assert(abs(n.quantity as int) == s);
}

} // verus!
