use chrono::{TimeZone, Utc};

use chronos_bt::data::types::SymbolId;
use chronos_bt::events::{Direction, FillEvent, OrderEvent, OrderType, Side, SignalEvent};
use chronos_bt::portfolio::sizing::FixedFraction;
use chronos_bt::portfolio::{Portfolio, SizingModel};

/// A price or quantity in the library's fixed-point units.
fn px(x: f64) -> i64 {
    (x * 10_000.0).round() as i64
}

/// An amount of money in the library's fixed-point units.
fn money(x: f64) -> i128 {
    (x * 100_000_000.0).round() as i128
}

fn symbol() -> SymbolId {
    SymbolId::new("TEST")
}

fn ts(day: u32) -> i64 {
    Utc.with_ymd_and_hms(2021, 1, day, 0, 0, 0).unwrap().timestamp_millis()
}

fn fill(day: u32, side: Side, quantity: f64, price: f64, commission: f64) -> FillEvent {
    FillEvent {
        order_id: 1,
        symbol: symbol(),
        timestamp: ts(day),
        side,
        quantity_filled: px(quantity),
        fill_price: px(price),
        commission: money(commission),
        reference_price: px(price),
    }
}

#[test]
fn buying_reduces_cash_and_opens_a_long_position() {
    let mut portfolio = Portfolio::new(money(10_000.0));
    portfolio.apply_fill(&fill(1, Side::Buy, 10.0, 100.0, 1.0));

    assert_eq!(portfolio.cash, money(10_000.0 - 1_000.0 - 1.0));
    let position = portfolio.position(&symbol());
    assert_eq!(position.quantity, px(10.0));
    assert_eq!(position.avg_entry_price, px(100.0));
    assert_eq!(position.realized_pnl, 0);
}

#[test]
fn selling_to_close_a_long_realizes_pnl() {
    let mut portfolio = Portfolio::new(money(10_000.0));
    portfolio.apply_fill(&fill(1, Side::Buy, 10.0, 100.0, 0.0));
    portfolio.apply_fill(&fill(2, Side::Sell, 10.0, 110.0, 0.0));

    let position = portfolio.position(&symbol());
    assert_eq!(position.quantity, 0);
    assert_eq!(position.realized_pnl, money(100.0));
    assert_eq!(portfolio.cash, money(10_000.0 + 100.0));
}

#[test]
fn short_position_realizes_pnl_on_price_decline() {
    let mut portfolio = Portfolio::new(money(10_000.0));
    portfolio.apply_fill(&fill(1, Side::Sell, 10.0, 100.0, 0.0));
    portfolio.apply_fill(&fill(2, Side::Buy, 10.0, 90.0, 0.0));

    let position = portfolio.position(&symbol());
    assert_eq!(position.quantity, 0);
    assert_eq!(position.realized_pnl, money(100.0));
    assert_eq!(portfolio.cash, money(10_000.0 + 100.0));
}

#[test]
fn flipping_long_to_short_realizes_pnl_and_opens_fresh_position() {
    let mut portfolio = Portfolio::new(money(10_000.0));
    portfolio.apply_fill(&fill(1, Side::Buy, 10.0, 100.0, 0.0));
    portfolio.apply_fill(&fill(2, Side::Sell, 15.0, 110.0, 0.0));

    let position = portfolio.position(&symbol());
    assert_eq!(position.quantity, px(-5.0));
    assert_eq!(position.avg_entry_price, px(110.0));
    assert_eq!(position.realized_pnl, money(100.0));
    assert_eq!(position.entry_timestamp, Some(ts(2)));
}

#[test]
fn every_fill_is_recorded_in_the_fill_log() {
    let mut portfolio = Portfolio::new(money(10_000.0));
    portfolio.apply_fill(&fill(1, Side::Buy, 10.0, 100.0, 1.0));
    portfolio.apply_fill(&fill(2, Side::Sell, 10.0, 110.0, 1.0));

    assert_eq!(portfolio.fills.len(), 2);
    assert_eq!(portfolio.fills[0].fill_price, px(100.0));
    assert_eq!(portfolio.fills[1].fill_price, px(110.0));
}

#[test]
fn closing_a_position_records_a_closed_trade_with_holding_period() {
    let mut portfolio = Portfolio::new(money(10_000.0));
    portfolio.apply_fill(&fill(1, Side::Buy, 10.0, 100.0, 0.0));
    portfolio.apply_fill(&fill(5, Side::Sell, 10.0, 110.0, 0.0));

    assert_eq!(portfolio.closed_trades.len(), 1);
    let trade = &portfolio.closed_trades[0];
    assert_eq!(trade.entry_timestamp, ts(1));
    assert_eq!(trade.exit_timestamp, ts(5));
    assert_eq!(trade.quantity, px(10.0));
    assert_eq!(trade.realized_pnl, money(100.0));
}

#[test]
fn entry_timestamp_is_none_while_flat_and_set_on_reopening() {
    let mut portfolio = Portfolio::new(money(10_000.0));
    assert_eq!(portfolio.position(&symbol()).entry_timestamp, None);

    portfolio.apply_fill(&fill(1, Side::Buy, 10.0, 100.0, 0.0));
    assert_eq!(portfolio.position(&symbol()).entry_timestamp, Some(ts(1)));

    portfolio.apply_fill(&fill(2, Side::Sell, 10.0, 100.0, 0.0));
    assert_eq!(portfolio.position(&symbol()).entry_timestamp, None);

    portfolio.apply_fill(&fill(3, Side::Buy, 5.0, 100.0, 0.0));
    assert_eq!(portfolio.position(&symbol()).entry_timestamp, Some(ts(3)));
}

#[test]
fn equity_reflects_cash_plus_mark_to_market_position_value() {
    let mut portfolio = Portfolio::new(money(10_000.0));
    portfolio.apply_fill(&fill(1, Side::Buy, 10.0, 100.0, 0.0));
    portfolio.update_price(&symbol(), px(120.0));

    assert_eq!(portfolio.equity(), money(9_000.0 + 10.0 * 120.0));
    assert_eq!(portfolio.gross_exposure(), money(10.0 * 120.0));
}

#[test]
fn conservation_holds_across_a_sequence_of_fills() {
    let mut portfolio = Portfolio::new(money(10_000.0));
    portfolio.update_price(&symbol(), px(100.0));

    let fills = [
        fill(1, Side::Buy, 10.0, 100.0, 1.0),
        fill(2, Side::Buy, 5.0, 105.0, 1.0),
        fill(3, Side::Sell, 8.0, 110.0, 1.0),
        fill(4, Side::Sell, 20.0, 95.0, 1.0),
        fill(5, Side::Buy, 7.0, 90.0, 1.0),
    ];

    for f in &fills {
        portfolio.apply_fill(f);
        portfolio.update_price(&f.symbol, f.fill_price);

        let position_value = portfolio.position(&symbol()).quantity as i128 * f.fill_price as i128;
        assert_eq!(portfolio.cash + position_value, portfolio.equity());
    }
}

#[test]
fn cannot_afford_a_buy_that_exceeds_cash() {
    let portfolio = Portfolio::new(money(1_000.0));
    let order = OrderEvent {
        id: 1,
        symbol: symbol(),
        timestamp: ts(1),
        side: Side::Buy,
        order_type: OrderType::Market,
        quantity: px(100.0),
    };
    assert!(!portfolio.can_afford(&order, px(100.0)));
    assert!(portfolio.can_afford(&order, px(5.0)));
    let sell = OrderEvent { side: Side::Sell, ..order };
    assert!(portfolio.can_afford(&sell, px(100.0)));
}

#[test]
fn fixed_fraction_sizes_to_target_equity_fraction() {
    let mut portfolio = Portfolio::new(money(10_000.0));
    portfolio.update_price(&symbol(), px(100.0));
    let sizing = FixedFraction::new(px(0.10));

    let signal = SignalEvent { symbol: symbol(), timestamp: ts(1), direction: Direction::Long, strength: px(1.0) };
    let order = sizing.size(&signal, &portfolio).unwrap();
    assert_eq!(order.side, Side::Buy);
    assert_eq!(order.quantity, px(10.0));
    assert_eq!(order.order_type, OrderType::Market);
}

#[test]
fn fixed_fraction_exit_closes_the_full_position() {
    let mut portfolio = Portfolio::new(money(10_000.0));
    portfolio.update_price(&symbol(), px(100.0));
    portfolio.apply_fill(&fill(1, Side::Buy, 10.0, 100.0, 0.0));
    let sizing = FixedFraction::new(px(0.10));

    let signal = SignalEvent { symbol: symbol(), timestamp: ts(2), direction: Direction::Exit, strength: px(1.0) };
    let order = sizing.size(&signal, &portfolio).unwrap();
    assert_eq!(order.side, Side::Sell);
    assert_eq!(order.quantity, px(10.0));
}

#[test]
fn fixed_fraction_returns_none_when_already_at_target() {
    let mut portfolio = Portfolio::new(money(10_000.0));
    portfolio.update_price(&symbol(), px(100.0));
    portfolio.apply_fill(&fill(1, Side::Buy, 10.0, 100.0, 0.0));
    let sizing = FixedFraction::new(px(0.10));

    let signal = SignalEvent { symbol: symbol(), timestamp: ts(2), direction: Direction::Long, strength: px(1.0) };
    assert!(sizing.size(&signal, &portfolio).is_none());
}

#[test]
fn fixed_fraction_short_signal_sizes_a_sell() {
    let mut portfolio = Portfolio::new(money(10_000.0));
    portfolio.update_price(&symbol(), px(50.0));
    let sizing = FixedFraction::new(px(0.25));
    let signal = SignalEvent { symbol: symbol(), timestamp: ts(1), direction: Direction::Short, strength: px(1.0) };
    let order = sizing.size(&signal, &portfolio).unwrap();
    assert_eq!(order.side, Side::Sell);
    assert_eq!(order.quantity, px(50.0));
}

#[test]
fn fixed_fraction_needs_a_known_price() {
    let portfolio = Portfolio::new(money(10_000.0));
    let sizing = FixedFraction::new(px(0.10));
    let signal = SignalEvent { symbol: symbol(), timestamp: ts(1), direction: Direction::Long, strength: px(1.0) };
    assert!(sizing.size(&signal, &portfolio).is_none());
}

#[test]
fn exit_when_flat_sizes_nothing() {
    let mut portfolio = Portfolio::new(money(10_000.0));
    portfolio.update_price(&symbol(), px(100.0));
    let sizing = FixedFraction::new(px(0.10));
    let signal = SignalEvent { symbol: symbol(), timestamp: ts(1), direction: Direction::Exit, strength: px(1.0) };
    assert!(sizing.size(&signal, &portfolio).is_none());
}

#[test]
fn round_trip_realizes_exactly_the_price_difference() {
    let mut portfolio = Portfolio::new(money(5_000.0));
    portfolio.apply_fill(&fill(1, Side::Sell, 3.0, 40.25, 0.0));
    portfolio.apply_fill(&fill(2, Side::Buy, 3.0, 41.5, 0.0));
    let position = portfolio.position(&symbol());
    assert_eq!(position.quantity, 0);
    assert_eq!(position.entry_timestamp, None);
    assert_eq!(position.realized_pnl, money((40.25 - 41.5) * 3.0));
}

#[test]
fn long_only_equity_is_cash_plus_gross_exposure() {
    let mut portfolio = Portfolio::new(money(10_000.0));
    portfolio.apply_fill(&fill(1, Side::Buy, 10.0, 100.0, 2.0));
    portfolio.apply_fill(&FillEvent { symbol: SymbolId::new("OTHER"), ..fill(1, Side::Buy, 4.0, 25.0, 0.0) });
    portfolio.update_price(&symbol(), px(103.0));
    portfolio.snapshot_equity(ts(1));
    let point = portfolio.equity_curve[0];
    assert_eq!(point.timestamp, ts(1));
    assert_eq!(point.cash, portfolio.cash);
    assert_eq!(point.equity, point.cash + point.gross_exposure);
    assert_eq!(point.gross_exposure, money(10.0 * 103.0 + 4.0 * 25.0));
}

#[test]
fn unpriced_positions_are_marked_at_entry_price() {
    let mut portfolio = Portfolio::new(money(1_000.0));
    portfolio.apply_fill(&fill(1, Side::Buy, 2.0, 50.0, 0.0));
    assert_eq!(portfolio.last_price(&symbol()), None);
    assert_eq!(portfolio.equity(), money(1_000.0));
    portfolio.update_price(&symbol(), px(60.0));
    assert_eq!(portfolio.last_price(&symbol()), Some(px(60.0)));
    assert_eq!(portfolio.last_prices.get(&symbol()), Some(px(60.0)));
    assert_eq!(portfolio.equity(), money(1_000.0 + 20.0));
}
