use chrono::{TimeZone, Utc};

use chronos_bt::config::LimitFillPolicyConfig;
use chronos_bt::data::types::{Bar, SymbolId};
use chronos_bt::events::{MarketEvent, OrderEvent, OrderType, Side};
use chronos_bt::execution::models::{CommissionModel, LimitFillPolicy, SlippageModel};
use chronos_bt::execution::simulated::SimulatedExecution;
use chronos_bt::execution::ExecutionModel;

/// A price or quantity in the library's fixed-point units.
fn px(x: f64) -> i64 {
    (x * 10_000.0).round() as i64
}

/// An amount of money in the library's fixed-point units.
fn money(x: f64) -> i128 {
    (x * 100_000_000.0).round() as i128
}

/// Basis points, or a fraction, in the library's fixed-point units.
fn fx(x: f64) -> i64 {
    px(x)
}

fn ts(day: u32) -> i64 {
    Utc.with_ymd_and_hms(2021, 1, day, 0, 0, 0).unwrap().timestamp_millis()
}

fn bar_event(day: u32, open: f64, volume: f64) -> MarketEvent {
    ohlc_bar_event(day, open, open, open, open, volume)
}

fn ohlc_bar_event(day: u32, open: f64, high: f64, low: f64, close: f64, volume: f64) -> MarketEvent {
    MarketEvent {
        symbol: SymbolId::new("TEST"),
        bar: Bar {
            timestamp: ts(day),
            open: px(open),
            high: px(high),
            low: px(low),
            close: px(close),
            volume: px(volume),
        },
    }
}

fn market_order(quantity: f64, side: Side) -> OrderEvent {
    order(quantity, side, OrderType::Market)
}

fn limit_order(quantity: f64, side: Side, price: f64) -> OrderEvent {
    order(quantity, side, OrderType::Limit { price: px(price) })
}

fn order(quantity: f64, side: Side, order_type: OrderType) -> OrderEvent {
    OrderEvent { id: 1, symbol: SymbolId::new("TEST"), timestamp: ts(1), side, order_type, quantity: px(quantity) }
}

#[test]
fn no_slippage_leaves_price_unchanged() {
    assert_eq!(SlippageModel::Zero.adjusted_price(px(100.0), Side::Buy, px(10.0), px(1_000.0)), px(100.0));
    assert_eq!(SlippageModel::Zero.adjusted_price(px(100.0), Side::Sell, px(10.0), px(1_000.0)), px(100.0));
}

#[test]
fn fixed_bps_moves_price_against_the_trader() {
    let model = SlippageModel::FixedBps(fx(50.0));
    assert_eq!(model.adjusted_price(px(100.0), Side::Buy, px(10.0), px(1_000.0)), px(100.5));
    assert_eq!(model.adjusted_price(px(100.0), Side::Sell, px(10.0), px(1_000.0)), px(99.5));
}

#[test]
fn volume_impact_scales_with_participation() {
    let model = SlippageModel::VolumeImpact { participation_limit: fx(1.0), impact_coefficient: fx(2.0) };
    assert_eq!(model.adjusted_price(px(100.0), Side::Buy, px(100.0), px(1_000.0)), px(120.0));
    assert_eq!(model.adjusted_price(px(100.0), Side::Sell, px(100.0), px(1_000.0)), px(80.0));
}

#[test]
fn volume_impact_moves_small_orders_by_less_than_a_basis_point() {
    let model = SlippageModel::VolumeImpact { participation_limit: fx(1.0), impact_coefficient: fx(0.1) };
    assert_eq!(model.adjusted_price(px(100.0), Side::Buy, px(100.0), px(1_000_000.0)), px(100.001));
    assert_eq!(model.adjusted_price(px(100.0), Side::Sell, px(100.0), px(1_000_000.0)), px(99.999));
}

#[test]
fn volume_impact_rounds_once_at_the_end() {
    let model = SlippageModel::VolumeImpact { participation_limit: fx(1.0), impact_coefficient: fx(0.0001) };
    assert_eq!(model.adjusted_price(px(100.0), Side::Buy, px(1.0), px(3.0)), px(100.0033));
    assert_eq!(model.adjusted_price(px(100.0), Side::Sell, px(1.0), px(3.0)), px(99.9967));
}

#[test]
fn volume_impact_is_zero_when_bar_volume_is_zero() {
    let model = SlippageModel::VolumeImpact { participation_limit: fx(1.0), impact_coefficient: fx(2.0) };
    assert_eq!(model.adjusted_price(px(100.0), Side::Buy, px(100.0), 0), px(100.0));
}

#[test]
fn per_share_commission_scales_with_quantity() {
    let model = CommissionModel::PerShare(px(0.01));
    assert_eq!(model.commission(px(100.0), px(50.0)), money(1.0));
}

#[test]
fn per_trade_flat_commission_ignores_quantity_and_price() {
    let model = CommissionModel::PerTradeFlat(money(1.5));
    assert_eq!(model.commission(px(1.0), px(10.0)), money(1.5));
    assert_eq!(model.commission(px(10_000.0), px(500.0)), money(1.5));
}

#[test]
fn bps_of_notional_commission_scales_with_trade_value() {
    let model = CommissionModel::BpsOfNotional(fx(2.0));
    assert_eq!(model.commission(px(100.0), px(50.0)), money(1.0));
}

#[test]
fn default_models_are_zero_cost_and_optimistic() {
    assert_eq!(SlippageModel::default(), SlippageModel::Zero);
    assert_eq!(CommissionModel::default(), CommissionModel::PerTradeFlat(0));
    assert_eq!(LimitFillPolicy::default(), LimitFillPolicy::Optimistic);
}

#[test]
fn limit_fill_policy_config_maps_to_the_model() {
    assert_eq!(LimitFillPolicyConfig::default(), LimitFillPolicyConfig::Optimistic);
    assert_eq!(LimitFillPolicyConfig::Optimistic.to_model(), LimitFillPolicy::Optimistic);
    assert_eq!(LimitFillPolicyConfig::Conservative.to_model(), LimitFillPolicy::Conservative);
}

#[test]
fn fill_price_is_the_limit_when_triggered() {
    let bar = ohlc_bar_event(2, 100.0, 101.0, 94.0, 98.0, 1_000.0).bar;
    assert_eq!(LimitFillPolicy::Optimistic.fill_price(Side::Buy, px(95.0), &bar), Some(px(95.0)));
    assert_eq!(LimitFillPolicy::Conservative.fill_price(Side::Buy, px(95.0), &bar), None);
    assert_eq!(LimitFillPolicy::Optimistic.fill_price(Side::Sell, px(101.0), &bar), Some(px(101.0)));
    assert_eq!(LimitFillPolicy::Optimistic.fill_price(Side::Sell, px(102.0), &bar), None);
    assert_eq!(LimitFillPolicy::Conservative.fill_price(Side::Sell, px(98.0), &bar), Some(px(98.0)));
}

#[test]
fn slippage_never_favours_the_trader() {
    let models = [
        SlippageModel::Zero,
        SlippageModel::FixedBps(fx(12.5)),
        SlippageModel::VolumeImpact { participation_limit: fx(0.5), impact_coefficient: fx(0.3) },
    ];
    for model in models {
        for q in [0.0, 1.0, 250.0] {
            assert!(model.adjusted_price(px(87.25), Side::Buy, px(q), px(1_000.0)) >= px(87.25));
            assert!(model.adjusted_price(px(87.25), Side::Sell, px(q), px(1_000.0)) <= px(87.25));
        }
    }
}

#[test]
fn applies_configured_slippage_and_commission_to_the_fill() {
    let mut execution = SimulatedExecution::new()
        .with_slippage(SlippageModel::FixedBps(fx(50.0)))
        .with_commission(CommissionModel::PerShare(px(0.01)));

    execution.on_bar(&bar_event(1, 100.0, 1_000.0));
    execution.submit(market_order(10.0, Side::Buy));

    let fills = execution.on_bar(&bar_event(2, 200.0, 1_000.0));
    assert_eq!(fills.len(), 1);
    assert_eq!(fills[0].fill_price, px(201.0));
    assert_eq!(fills[0].commission, money(0.10));
    assert_eq!(fills[0].reference_price, px(200.0));
}

#[test]
fn defaults_to_no_slippage_and_no_commission() {
    let mut execution = SimulatedExecution::new();
    execution.on_bar(&bar_event(1, 100.0, 1_000.0));
    execution.submit(market_order(10.0, Side::Buy));

    let fills = execution.on_bar(&bar_event(2, 200.0, 1_000.0));
    assert_eq!(fills[0].fill_price, px(200.0));
    assert_eq!(fills[0].commission, 0);
}

#[test]
fn optimistic_buy_limit_fills_when_only_the_low_touches_the_price() {
    let mut execution = SimulatedExecution::new();
    execution.on_bar(&bar_event(1, 100.0, 1_000.0));
    execution.submit(limit_order(10.0, Side::Buy, 95.0));

    let fills = execution.on_bar(&ohlc_bar_event(2, 100.0, 101.0, 94.0, 98.0, 1_000.0));
    assert_eq!(fills.len(), 1);
    assert_eq!(fills[0].fill_price, px(95.0));
}

#[test]
fn conservative_buy_limit_requires_the_close_to_satisfy_the_price() {
    let mut execution = SimulatedExecution::new().with_limit_fill_policy(LimitFillPolicy::Conservative);
    execution.on_bar(&bar_event(1, 100.0, 1_000.0));
    execution.submit(limit_order(10.0, Side::Buy, 95.0));

    let fills = execution.on_bar(&ohlc_bar_event(2, 100.0, 101.0, 94.0, 98.0, 1_000.0));
    assert!(fills.is_empty());

    let fills = execution.on_bar(&ohlc_bar_event(3, 98.0, 99.0, 93.0, 94.0, 1_000.0));
    assert_eq!(fills.len(), 1);
    assert_eq!(fills[0].fill_price, px(95.0));
}

#[test]
fn sell_limit_fills_when_the_high_reaches_the_price() {
    let mut execution = SimulatedExecution::new();
    execution.on_bar(&bar_event(1, 100.0, 1_000.0));
    execution.submit(limit_order(10.0, Side::Sell, 110.0));

    let fills = execution.on_bar(&ohlc_bar_event(2, 100.0, 112.0, 99.0, 101.0, 1_000.0));
    assert_eq!(fills.len(), 1);
    assert_eq!(fills[0].fill_price, px(110.0));
}

#[test]
fn limit_order_rests_across_multiple_bars_until_triggered() {
    let mut execution = SimulatedExecution::new();
    execution.on_bar(&bar_event(1, 100.0, 1_000.0));
    execution.submit(limit_order(10.0, Side::Buy, 90.0));

    assert!(execution.on_bar(&ohlc_bar_event(2, 100.0, 101.0, 95.0, 99.0, 1_000.0)).is_empty());
    assert!(execution.on_bar(&ohlc_bar_event(3, 99.0, 100.0, 96.0, 98.0, 1_000.0)).is_empty());

    let fills = execution.on_bar(&ohlc_bar_event(4, 98.0, 99.0, 88.0, 92.0, 1_000.0));
    assert_eq!(fills.len(), 1);
    assert_eq!(fills[0].fill_price, px(90.0));
}

#[test]
fn latency_delays_eligibility_beyond_the_built_in_one_bar() {
    let mut execution = SimulatedExecution::new().with_latency_bars(2);
    execution.on_bar(&bar_event(1, 100.0, 1_000.0));
    execution.submit(market_order(10.0, Side::Buy));

    assert!(execution.on_bar(&bar_event(2, 200.0, 1_000.0)).is_empty());
    assert!(execution.on_bar(&bar_event(3, 300.0, 1_000.0)).is_empty());
    let fills = execution.on_bar(&bar_event(4, 400.0, 1_000.0));
    assert_eq!(fills.len(), 1);
    assert_eq!(fills[0].fill_price, px(400.0));
}

#[test]
fn fills_carry_the_bar_time_and_the_order_identity() {
    let mut execution = SimulatedExecution::new();
    execution.on_bar(&bar_event(1, 100.0, 1_000.0));
    let mut o = market_order(3.0, Side::Sell);
    o.id = 42;
    execution.submit(o);
    let fills = execution.on_bar(&bar_event(2, 50.0, 1_000.0));
    assert_eq!(fills.len(), 1);
    assert_eq!(fills[0].order_id, 42);
    assert_eq!(fills[0].timestamp, ts(2));
    assert_eq!(fills[0].side, Side::Sell);
    assert_eq!(fills[0].symbol.as_str(), "TEST");
    assert_eq!(fills[0].quantity_filled, px(3.0));
}

#[test]
fn volume_cap_splits_a_market_order_across_bars() {
    // At most 10% of a 1,000-share bar per fill: 150 shares fill as 100 now
    // and the remaining 50 on the next bar, with nothing created or lost.
    let mut execution = SimulatedExecution::new()
        .with_slippage(SlippageModel::VolumeImpact { participation_limit: fx(0.1), impact_coefficient: 0 });
    execution.on_bar(&bar_event(1, 100.0, 1_000.0));
    execution.submit(market_order(150.0, Side::Buy));
    let first = execution.on_bar(&bar_event(2, 100.0, 1_000.0));
    assert_eq!(first.len(), 1);
    assert_eq!(first[0].quantity_filled, px(100.0));
    let second = execution.on_bar(&bar_event(3, 101.0, 1_000.0));
    assert_eq!(second.len(), 1);
    assert_eq!(second[0].quantity_filled, px(50.0));
    assert_eq!(second[0].fill_price, px(101.0));
    assert!(execution.on_bar(&bar_event(4, 102.0, 1_000.0)).is_empty());
}

#[test]
fn time_in_force_cancels_an_unfilled_order() {
    let mut execution = SimulatedExecution::new().with_time_in_force(2);
    execution.on_bar(&bar_event(1, 100.0, 1_000.0));
    execution.submit(limit_order(10.0, Side::Buy, 50.0));
    assert!(execution.on_bar(&bar_event(2, 100.0, 1_000.0)).is_empty());
    assert!(execution.on_bar(&bar_event(3, 100.0, 1_000.0)).is_empty());
    // Two eligible bars went unfilled: the order has expired, so even a bar
    // that reaches the limit fills nothing.
    assert!(execution.on_bar(&ohlc_bar_event(4, 60.0, 60.0, 40.0, 45.0, 1_000.0)).is_empty());
}

#[test]
fn expired_orders_are_reported_by_id() {
    let mut execution = SimulatedExecution::new().with_time_in_force(1);
    execution.on_bar(&bar_event(1, 100.0, 1_000.0));
    execution.submit(limit_order(10.0, Side::Buy, 50.0));
    assert!(execution.on_bar(&bar_event(2, 100.0, 1_000.0)).is_empty());
    assert!(execution.expired_orders().is_empty());
    assert!(execution.on_bar(&bar_event(3, 100.0, 1_000.0)).is_empty());
    assert_eq!(execution.expired_orders(), &[1]);
    assert!(execution.on_bar(&bar_event(4, 100.0, 1_000.0)).is_empty());
    assert_eq!(execution.expired_orders(), &[1]);
}
