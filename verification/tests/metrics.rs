use chrono::{TimeZone, Utc};

use chronos_bt::data::types::SymbolId;
use chronos_bt::events::{FillEvent, Side};
use chronos_bt::metrics::drawdown::{max_drawdown, running_peaks};
use chronos_bt::metrics::trades::{slippage_cost, total_commission, total_slippage_cost, trade_stats};
use chronos_bt::portfolio::{ClosedTrade, EquityPoint};

/// A price or quantity in the library's fixed-point units.
fn px(x: f64) -> i64 {
    (x * 10_000.0).round() as i64
}

/// An amount of money in the library's fixed-point units.
fn money(x: f64) -> i128 {
    (x * 100_000_000.0).round() as i128
}

fn ts(day: u32) -> i64 {
    Utc.with_ymd_and_hms(2021, 1, day, 0, 0, 0).unwrap().timestamp_millis()
}

fn point(day: u32, equity: f64) -> EquityPoint {
    EquityPoint { timestamp: ts(day), equity: money(equity), cash: money(equity), gross_exposure: 0 }
}

/// The reported decline as a fraction of the peak.
fn decline(peak: i128, trough: i128) -> f64 {
    (peak - trough) as f64 / peak as f64
}

#[test]
fn max_drawdown_is_none_for_an_empty_curve() {
    assert!(max_drawdown(&[]).is_none());
}

#[test]
fn max_drawdown_hand_computed_with_recovery() {
    let curve = [
        point(1, 100.0),
        point(2, 120.0),
        point(3, 90.0),
        point(4, 80.0),
        point(5, 130.0),
        point(6, 125.0),
    ];
    let report = max_drawdown(&curve).unwrap();
    assert!((decline(report.peak_equity, report.trough_equity) - (1.0 / 3.0)).abs() < 1e-9);
    assert_eq!(report.peak_equity, money(120.0));
    assert_eq!(report.trough_equity, money(80.0));
    assert_eq!(report.peak_timestamp, curve[1].timestamp);
    assert_eq!(report.trough_timestamp, curve[3].timestamp);
    assert_eq!(report.recovery_timestamp, Some(curve[4].timestamp));
}

#[test]
fn max_drawdown_recovery_is_none_if_never_recovered() {
    let curve = [point(1, 100.0), point(2, 50.0)];
    let report = max_drawdown(&curve).unwrap();
    assert_eq!(decline(report.peak_equity, report.trough_equity), 0.5);
    assert_eq!(report.recovery_timestamp, None);
}

#[test]
fn max_drawdown_of_a_rising_curve_is_zero() {
    let curve = [point(1, 100.0), point(2, 110.0), point(3, 110.0)];
    let report = max_drawdown(&curve).unwrap();
    assert_eq!(report.peak_equity, report.trough_equity);
    assert_eq!(report.peak_timestamp, ts(1));
    assert_eq!(report.trough_timestamp, ts(1));
}

#[test]
fn max_drawdown_prefers_the_deeper_fraction_not_the_larger_amount() {
    // 100 -> 60 is a 40% decline; 300 -> 200 is larger in money but only 33%.
    let curve = [point(1, 100.0), point(2, 60.0), point(3, 300.0), point(4, 200.0)];
    let report = max_drawdown(&curve).unwrap();
    assert_eq!(report.peak_equity, money(100.0));
    assert_eq!(report.trough_equity, money(60.0));
    assert_eq!(report.recovery_timestamp, Some(ts(3)));
    // No pair of points declines by more than the report says.
    let worst = decline(report.peak_equity, report.trough_equity);
    for i in 0..curve.len() {
        for j in i..curve.len() {
            if curve[j].equity < curve[i].equity {
                assert!(decline(curve[i].equity, curve[j].equity) <= worst);
            }
        }
    }
}

#[test]
fn running_peaks_track_the_highest_equity_so_far() {
    let curve = [point(1, 100.0), point(2, 120.0), point(3, 90.0), point(4, 130.0), point(5, 125.0)];
    assert_eq!(
        running_peaks(&curve),
        vec![money(100.0), money(120.0), money(120.0), money(130.0), money(130.0)]
    );
    assert!(running_peaks(&[]).is_empty());
}

fn symbol() -> SymbolId {
    SymbolId::new("TEST")
}

fn trade(entry_day: u32, exit_day: u32, quantity: f64, realized_pnl: f64) -> ClosedTrade {
    ClosedTrade {
        symbol: symbol(),
        entry_timestamp: ts(entry_day),
        exit_timestamp: ts(exit_day),
        quantity: px(quantity),
        realized_pnl: money(realized_pnl),
    }
}

const DAY_MS: i128 = 86_400_000;

#[test]
fn trade_stats_on_empty_trades_is_all_zero() {
    let stats = trade_stats(&[]);
    assert_eq!(stats.number_of_trades, 0);
    assert_eq!(stats.winning_trades, 0);
    assert_eq!(stats.losing_trades, 0);
    assert_eq!(stats.gross_loss, 0);
}

#[test]
fn trade_stats_hand_computed() {
    let trades = [trade(1, 3, 10.0, 100.0), trade(1, 5, 10.0, -50.0), trade(1, 4, 10.0, 30.0)];
    let stats = trade_stats(&trades);
    assert_eq!(stats.number_of_trades, 3);
    assert_eq!(stats.winning_trades, 2);
    assert_eq!(stats.losing_trades, 1);
    // win rate 2/3; average win (100 + 30) / 2 = 65; average loss -50;
    // profit factor 130 / 50 = 2.6; average holding (2 + 4 + 3) / 3 = 3 days.
    assert_eq!(stats.gross_profit, money(130.0));
    assert_eq!(stats.gross_loss, money(-50.0));
    assert_eq!(stats.gross_profit / stats.winning_trades as i128, money(65.0));
    assert_eq!(stats.gross_loss / stats.losing_trades as i128, money(-50.0));
    assert_eq!(stats.gross_profit * 10 / -stats.gross_loss, 26);
    assert_eq!(stats.total_holding_ms, 9 * DAY_MS);
    assert_eq!(stats.total_holding_ms / 3, 3 * DAY_MS);
}

#[test]
fn profit_factor_is_none_with_no_losing_trades() {
    let trades = [trade(1, 2, 10.0, 100.0)];
    let stats = trade_stats(&trades);
    assert_eq!(stats.losing_trades, 0);
    assert_eq!(stats.gross_loss, 0);
}

#[test]
fn breakeven_trades_are_neither_wins_nor_losses() {
    let stats = trade_stats(&[trade(1, 2, 1.0, 0.0), trade(2, 3, 1.0, 5.0)]);
    assert_eq!(stats.number_of_trades, 2);
    assert_eq!(stats.winning_trades, 1);
    assert_eq!(stats.losing_trades, 0);
}

fn fill(side: Side, quantity: f64, fill_price: f64, reference_price: f64, commission: f64) -> FillEvent {
    FillEvent {
        order_id: 1,
        symbol: symbol(),
        timestamp: ts(1),
        side,
        quantity_filled: px(quantity),
        fill_price: px(fill_price),
        commission: money(commission),
        reference_price: px(reference_price),
    }
}

#[test]
fn total_commission_sums_every_fill() {
    let fills = [fill(Side::Buy, 10.0, 100.0, 100.0, 1.5), fill(Side::Sell, 10.0, 110.0, 110.0, 2.0)];
    assert_eq!(total_commission(&fills), money(3.5));
}

#[test]
fn total_slippage_cost_hand_computed() {
    let fills = [fill(Side::Buy, 10.0, 101.0, 100.0, 0.0), fill(Side::Sell, 10.0, 108.0, 110.0, 0.0)];
    assert_eq!(total_slippage_cost(&fills), money(30.0));
}

#[test]
fn slippage_cost_of_a_single_fill() {
    assert_eq!(slippage_cost(&fill(Side::Buy, 2.0, 10.5, 10.0, 0.0)), money(1.0));
    assert_eq!(slippage_cost(&fill(Side::Sell, 2.0, 10.5, 10.0, 0.0)), money(-1.0));
    assert_eq!(slippage_cost(&fill(Side::Sell, 2.0, 10.0, 10.0, 0.0)), 0);
}
