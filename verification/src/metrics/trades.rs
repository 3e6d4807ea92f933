//! Trade-level aggregates and cost totals, computed from the portfolio's
//! fill and closed-trade logs.
use crate::data::types::Money;
use crate::events::{FillEvent, Side};
use crate::fixed::{clamp128, money_add};
use crate::portfolio::ClosedTrade;
use vstd::prelude::*;

verus! {

/// Exact aggregates over a set of closed trades, from which every derived
/// ratio follows: win rate `winning_trades / number_of_trades`, average win
/// `gross_profit / winning_trades`, average loss
/// `gross_loss / losing_trades`, profit factor `gross_profit / -gross_loss`
/// (undefined without a losing trade), and average holding period
/// `total_holding_ms / number_of_trades`.
#[derive(Debug, Clone, Copy, PartialEq, Eq, Structural)]
pub struct TradeStats {
    pub number_of_trades: usize,
    pub winning_trades: usize,
    pub losing_trades: usize,
    /// Sum of the realized PnL of winning trades (non-negative).
    pub gross_profit: Money,
    /// Sum of the realized PnL of losing trades (non-positive).
    pub gross_loss: Money,
    /// Sum over trades of `exit_timestamp - entry_timestamp`.
    pub total_holding_ms: i128,
}

/// The aggregates of `trades`, each sum saturating at the bounds of `i128`.
pub open spec fn stats_of(trades: Seq<ClosedTrade>) -> TradeStats
    decreases trades.len(),
{
    if trades.len() == 0 {
        TradeStats {
            number_of_trades: 0,
            winning_trades: 0,
            losing_trades: 0,
            gross_profit: 0,
            gross_loss: 0,
            total_holding_ms: 0,
        }
    } else {
        let s = stats_of(trades.drop_last());
        let t = trades.last();
        TradeStats {
            number_of_trades: (s.number_of_trades + 1) as usize,
            winning_trades: if t.realized_pnl > 0 {
                (s.winning_trades + 1) as usize
            } else {
                s.winning_trades
            },
            losing_trades: if t.realized_pnl < 0 {
                (s.losing_trades + 1) as usize
            } else {
                s.losing_trades
            },
            gross_profit: if t.realized_pnl > 0 {
                clamp128(s.gross_profit + t.realized_pnl) as i128
            } else {
                s.gross_profit
            },
            gross_loss: if t.realized_pnl < 0 {
                clamp128(s.gross_loss + t.realized_pnl) as i128
            } else {
                s.gross_loss
            },
            total_holding_ms: clamp128(
                s.total_holding_ms + (t.exit_timestamp - t.entry_timestamp),
            ) as i128,
        }
    }
}

proof fn lemma_stats_counts(trades: Seq<ClosedTrade>)
    requires
        trades.len() <= usize::MAX,
    ensures
        stats_of(trades).number_of_trades == trades.len(),
        stats_of(trades).winning_trades + stats_of(trades).losing_trades <= trades.len(),
        stats_of(trades).gross_profit >= 0,
        stats_of(trades).gross_loss <= 0,
    decreases trades.len(),
{
    if trades.len() > 0 {
        lemma_stats_counts(trades.drop_last());
    }
}

/// Computes [`TradeStats`] over `trades`; all zeros if `trades` is empty.
pub fn trade_stats(trades: &[ClosedTrade]) -> (r: TradeStats)
    ensures
        r == stats_of(trades@),
        r.number_of_trades == trades@.len(),
        r.winning_trades + r.losing_trades <= r.number_of_trades,
        r.gross_profit >= 0,
        r.gross_loss <= 0,
{
    let n = trades.len();
    let mut s = TradeStats {
        number_of_trades: 0,
        winning_trades: 0,
        losing_trades: 0,
        gross_profit: 0,
        gross_loss: 0,
        total_holding_ms: 0,
    };
    let mut i: usize = 0;
    assert(trades@.take(0).len() == 0);
    while i < n
        invariant
            n == trades@.len(),
            i <= n,
            s == stats_of(trades@.take(i as int)),
        decreases n - i,
    {
        proof {
            lemma_stats_counts(trades@.take(i as int));
        }
        let t = &trades[i];
        assert(trades@.take(i + 1).drop_last() =~= trades@.take(i as int));
        s.number_of_trades = s.number_of_trades + 1;
        if t.realized_pnl > 0 {
            s.winning_trades = s.winning_trades + 1;
            s.gross_profit = money_add(s.gross_profit, t.realized_pnl);
        }
        if t.realized_pnl < 0 {
            s.losing_trades = s.losing_trades + 1;
            s.gross_loss = money_add(s.gross_loss, t.realized_pnl);
        }
        let held = t.exit_timestamp as i128 - t.entry_timestamp as i128;
        s.total_holding_ms = money_add(s.total_holding_ms, held);
        i = i + 1;
    }
    assert(trades@.take(n as int) =~= trades@);
    proof {
        lemma_stats_counts(trades@);
    }
    s
}

/// The slippage cost of a fill: what was paid (or received) beyond the
/// zero-slippage reference price, positive when slippage worked against
/// the trader.
pub open spec fn slippage_cost_spec(fill: FillEvent) -> int {
    match fill.side {
        Side::Buy => (fill.fill_price - fill.reference_price) * fill.quantity_filled,
        Side::Sell => (fill.reference_price - fill.fill_price) * fill.quantity_filled,
    }
}

pub fn slippage_cost(fill: &FillEvent) -> (r: Money)
    ensures
        r == slippage_cost_spec(*fill),
{
    let diff: i128 = match fill.side {
        Side::Buy => fill.fill_price as i128 - fill.reference_price as i128,
        Side::Sell => fill.reference_price as i128 - fill.fill_price as i128,
    };
    proof {
        let q = fill.quantity_filled as int;
        assert(i128::MIN <= diff * q <= i128::MAX) by (nonlinear_arith)
            requires
                -0xffff_ffff_ffff_ffff <= diff <= 0xffff_ffff_ffff_ffff,
                i64::MIN <= q <= i64::MAX,
        ;
    }
    diff * (fill.quantity_filled as i128)
}

/// `Σ commission` (`costs == false`) or `Σ slippage cost` (`costs == true`)
/// over `fills`, each addition saturating at the bounds of `i128`.
pub open spec fn fill_sum(fills: Seq<FillEvent>, slippage: bool) -> int
    decreases fills.len(),
{
    if fills.len() == 0 {
        0
    } else {
        clamp128(fill_sum(fills.drop_last(), slippage) + if slippage {
            slippage_cost_spec(fills.last())
        } else {
            fills.last().commission as int
        })
    }
}

fn sum_fills(fills: &[FillEvent], slippage: bool) -> (r: Money)
    ensures
        r == fill_sum(fills@, slippage),
{
    let n = fills.len();
    let mut total: i128 = 0;
    let mut i: usize = 0;
    assert(fills@.take(0).len() == 0);
    while i < n
        invariant
            n == fills@.len(),
            i <= n,
            total == fill_sum(fills@.take(i as int), slippage),
        decreases n - i,
    {
        assert(fills@.take(i + 1).drop_last() =~= fills@.take(i as int));
        let term = if slippage {
            slippage_cost(&fills[i])
        } else {
            fills[i].commission
        };
        total = money_add(total, term);
        i = i + 1;
    }
    assert(fills@.take(n as int) =~= fills@);
    total
}

/// Total commission paid across every fill.
pub fn total_commission(fills: &[FillEvent]) -> (r: Money)
    ensures
        r == fill_sum(fills@, false),
{
    sum_fills(fills, false)
}

/// Total slippage cost paid across every fill.
pub fn total_slippage_cost(fills: &[FillEvent]) -> (r: Money)
    ensures
        r == fill_sum(fills@, true),
{
    sum_fills(fills, true)
}

} // verus!
