use std::collections::VecDeque;

use chrono::{TimeZone, Utc};

use chronos_bt::data::csv_feed::{CsvFeed, RawRecord, TimestampPolicy};
use chronos_bt::data::types::{Bar, SymbolId};
use chronos_bt::data::DataFeed;
use chronos_bt::engine::{Engine, RunSummary, SimClock};
use chronos_bt::events::{Direction, MarketEvent, OrderEvent, OrderType, Side, SignalEvent};
use chronos_bt::execution::simulated::SimulatedExecution;
use chronos_bt::portfolio::sizing::FixedFraction;
use chronos_bt::portfolio::{Portfolio, SizingModel};
use chronos_bt::strategy::{MaCrossover, NoOpStrategy, Strategy, StrategyContext};

/// A price or quantity in the library's fixed-point units.
fn px(x: f64) -> i64 {
    (x * 10_000.0).round() as i64
}

/// An amount of money in the library's fixed-point units.
fn money(x: f64) -> i128 {
    (x * 100_000_000.0).round() as i128
}

fn initial_cash() -> i128 {
    money(100_000.0)
}

fn symbol() -> SymbolId {
    SymbolId::new("TEST")
}

fn ts(day: u32) -> i64 {
    Utc.with_ymd_and_hms(2021, 1, day, 0, 0, 0).unwrap().timestamp_millis()
}

fn bar(day: u32, open: f64, close: f64) -> Bar {
    Bar {
        timestamp: ts(day),
        open: px(open),
        high: px(open.max(close)),
        low: px(open.min(close)),
        close: px(close),
        volume: px(1_000.0),
    }
}

/// An in-memory feed of bars for one symbol.
struct VecFeed(VecDeque<MarketEvent>);

impl VecFeed {
    fn new(bars: Vec<Bar>) -> Self {
        Self(bars.into_iter().map(|bar| MarketEvent { symbol: symbol(), bar }).collect())
    }
}

impl DataFeed for VecFeed {
    fn next(&mut self) -> Option<MarketEvent> {
        self.0.pop_front()
    }
}

/// Emits scripted signals on given (0-indexed) bar numbers.
struct ScriptedStrategy {
    bar_index: usize,
    script: Vec<(usize, Direction)>,
}

impl ScriptedStrategy {
    fn new(script: Vec<(usize, Direction)>) -> Self {
        Self { bar_index: 0, script }
    }
}

impl Strategy for ScriptedStrategy {
    fn on_market(&mut self, event: &MarketEvent, _ctx: &StrategyContext) -> Vec<SignalEvent> {
        let idx = self.bar_index;
        self.bar_index += 1;
        self.script
            .iter()
            .filter(|(i, _)| *i == idx)
            .map(|(_, direction)| SignalEvent {
                symbol: event.symbol.clone(),
                timestamp: event.bar.timestamp,
                direction: *direction,
                strength: px(1.0),
            })
            .collect()
    }

    fn warmup_bars(&self) -> usize {
        0
    }
}

/// Sizes every `Long` at a fixed quantity and every `Exit` as "close
/// whatever is open".
struct FixedQuantity(i64);

impl SizingModel for FixedQuantity {
    fn size(&self, signal: &SignalEvent, portfolio: &Portfolio) -> Option<OrderEvent> {
        let (side, quantity) = match signal.direction {
            Direction::Long => (Side::Buy, self.0),
            Direction::Exit => {
                let current = portfolio.position(&signal.symbol).quantity;
                if current == 0 {
                    return None;
                }
                let side = if current > 0 { Side::Sell } else { Side::Buy };
                (side, current.abs())
            }
            Direction::Short => return None,
        };
        Some(OrderEvent {
            id: 0,
            symbol: signal.symbol.clone(),
            timestamp: signal.timestamp,
            side,
            order_type: OrderType::Market,
            quantity,
        })
    }
}

fn build_engine(
    bars: Vec<Bar>,
    script: Vec<(usize, Direction)>,
    quantity: f64,
) -> Engine<VecFeed, ScriptedStrategy, FixedQuantity, SimulatedExecution> {
    Engine::new(
        VecFeed::new(bars),
        ScriptedStrategy::new(script),
        FixedQuantity(px(quantity)),
        SimulatedExecution::new(),
        initial_cash(),
    )
}

#[test]
fn market_orders_fill_at_next_bar_open_not_current_bar_close() {
    let bars = vec![bar(1, 100.0, 100.0), bar(2, 500.0, 505.0), bar(3, 505.0, 505.0)];
    let mut engine = build_engine(bars, vec![(0, Direction::Long)], 10.0);
    let summary = engine.run();

    assert_eq!(summary.fills, 1);
    let position = engine.portfolio().position(&symbol());
    assert_eq!(position.quantity, px(10.0));
    assert_eq!(position.avg_entry_price, px(500.0));
    assert_eq!(engine.portfolio().cash, initial_cash() - money(10.0 * 500.0));
}

#[test]
fn no_order_can_fill_before_it_is_submitted() {
    let bars = vec![bar(1, 100.0, 101.0), bar(2, 101.0, 102.0)];
    let mut engine = build_engine(bars, vec![(1, Direction::Long)], 10.0);
    let summary = engine.run();

    assert_eq!(summary.orders_submitted, 1);
    assert_eq!(summary.fills, 0);
    assert_eq!(engine.portfolio().position(&symbol()).quantity, 0);
    assert_eq!(engine.portfolio().cash, initial_cash());
}

#[test]
fn known_answer_ten_bar_scenario() {
    let bars = (0..10)
        .map(|i| {
            let o = 100.0 + i as f64;
            bar(i + 1, o, o + 1.0)
        })
        .collect();

    let mut engine = build_engine(bars, vec![(2, Direction::Long), (6, Direction::Exit)], 10.0);
    let summary = engine.run();

    assert_eq!(summary.fills, 2);
    let position = engine.portfolio().position(&symbol());
    assert_eq!(position.quantity, 0);
    assert_eq!(position.realized_pnl, money(40.0));
    assert_eq!(engine.portfolio().cash, money(100_040.0));
    assert_eq!(engine.portfolio().equity(), money(100_040.0));
    assert_eq!(summary.market_events, 10);
}

#[test]
fn conservation_holds_across_a_full_engine_run() {
    let bars: Vec<Bar> = (0..20)
        .map(|i| {
            let o = 100.0 + (i as f64 * 0.7).sin() * 5.0 + i as f64 * 0.3;
            bar(i + 1, o, o + 0.5)
        })
        .collect();

    let mut engine = build_engine(
        bars,
        vec![(1, Direction::Long), (10, Direction::Exit), (12, Direction::Long)],
        10.0,
    );
    engine.run();

    let portfolio = engine.portfolio();
    let last_price = portfolio.last_prices.get(&symbol()).unwrap();
    let position_value = portfolio.position(&symbol()).quantity as i128 * last_price as i128;
    assert_eq!(portfolio.cash + position_value, portfolio.equity());

    for point in &portfolio.equity_curve {
        assert_eq!(point.equity - point.cash, point.gross_exposure);
    }
}

#[test]
fn one_equity_sample_per_bar_in_time_order() {
    let bars: Vec<Bar> = (1..=7).map(|d| bar(d, 10.0, 11.0)).collect();
    let mut engine = build_engine(bars, vec![(0, Direction::Long)], 1.0);
    let summary = engine.run();
    let curve = &engine.portfolio().equity_curve;
    assert_eq!(summary.market_events, 7);
    assert_eq!(curve.len(), 7);
    for (i, point) in curve.iter().enumerate() {
        assert_eq!(point.timestamp, ts(i as u32 + 1));
    }
    assert_eq!(engine.clock().now(), Some(ts(7)));
    assert_eq!(summary.fills, engine.portfolio().fills.len());
}

#[test]
fn an_event_dated_before_the_clock_is_passed_over() {
    let bars = vec![bar(2, 10.0, 10.0), bar(1, 50.0, 50.0), bar(3, 10.0, 10.0)];
    let mut engine = build_engine(bars, vec![], 1.0);
    let summary = engine.run();
    assert_eq!(summary.market_events, 2);
    assert_eq!(engine.clock().now(), Some(ts(3)));
    let stamps: Vec<i64> = engine.portfolio().equity_curve.iter().map(|p| p.timestamp).collect();
    assert_eq!(stamps, vec![ts(2), ts(3)]);
}

#[test]
fn unaffordable_orders_are_rejected() {
    let bars = vec![bar(1, 100.0, 100.0), bar(2, 100.0, 100.0)];
    // 2,000 shares at $100 is twice the cash.
    let mut engine = build_engine(bars, vec![(0, Direction::Long)], 2_000.0);
    let summary = engine.run();
    assert_eq!(summary.orders_submitted, 0);
    assert_eq!(summary.orders_rejected, 1);
    assert_eq!(summary.fills, 0);
    assert_eq!(engine.portfolio().cash, initial_cash());
}

#[test]
fn a_fresh_engine_has_an_idle_clock_and_untouched_cash() {
    let engine = build_engine(vec![], vec![], 1.0);
    assert_eq!(engine.clock().now(), None);
    assert_eq!(engine.portfolio().cash, initial_cash());
    assert!(engine.portfolio().equity_curve.is_empty());
}

#[test]
fn running_an_exhausted_feed_again_changes_nothing() {
    let mut engine = build_engine(vec![bar(1, 1.0, 1.0)], vec![], 1.0);
    let first = engine.run();
    let second = engine.run();
    assert_eq!(first.market_events, 1);
    assert_eq!(second, RunSummary { market_events: 0, orders_submitted: 0, orders_rejected: 0, fills: 0 });
}

#[test]
fn sim_clock_moves_forward() {
    let mut clock = SimClock::new();
    assert_eq!(clock.now(), None);
    clock.advance_to(ts(1));
    clock.advance_to(ts(1));
    clock.advance_to(ts(4));
    assert_eq!(clock.now(), Some(ts(4)));
}

#[test]
fn no_op_strategy_never_trades() {
    let bars: Vec<Bar> = (1..=5).map(|d| bar(d, 10.0, 12.0)).collect();
    let mut engine = Engine::new(
        VecFeed::new(bars),
        NoOpStrategy,
        FixedFraction::new(px(0.1)),
        SimulatedExecution::new(),
        initial_cash(),
    );
    let summary = engine.run();
    assert_eq!(summary.market_events, 5);
    assert_eq!(summary.orders_submitted, 0);
    assert_eq!(engine.portfolio().cash, initial_cash());
}

/// Runs a crossover strategy with fixed-fraction sizing over a synthetic
/// price path and returns everything the run recorded.
fn crossover_run() -> (RunSummary, Vec<(i64, i128, i128, i128)>, i128) {
    let closes: Vec<f64> = (0..60).map(|i| 100.0 + ((i as f64) * 0.37).sin() * 8.0 + i as f64 * 0.1).collect();
    let bars: Vec<Bar> = closes
        .iter()
        .enumerate()
        .map(|(i, &c)| {
            let epoch = Utc.with_ymd_and_hms(2021, 1, 1, 0, 0, 0).unwrap();
            let t = (epoch + chrono::Days::new(i as u64)).timestamp_millis();
            Bar { timestamp: t, open: px(c - 0.2), high: px(c + 1.0), low: px(c - 1.0), close: px(c), volume: px(5_000.0) }
        })
        .collect();
    let mut engine = Engine::new(
        VecFeed::new(bars),
        MaCrossover::new(3, 8),
        FixedFraction::new(px(0.10)),
        SimulatedExecution::new(),
        initial_cash(),
    );
    let summary = engine.run();
    let curve = engine.portfolio().equity_curve.iter().map(|p| (p.timestamp, p.equity, p.cash, p.gross_exposure)).collect();
    (summary, curve, engine.portfolio().cash)
}

#[test]
fn same_data_and_config_produce_identical_results() {
    let first = crossover_run();
    let second = crossover_run();
    assert!(first.0.fills > 0);
    assert_eq!(first, second);
}

/// Runs the full pipeline (CSV records, crossover strategy, fixed-fraction
/// sizing, simulated execution) and renders everything it recorded.
fn full_pipeline_run() -> String {
    let records: Vec<RawRecord> = (0..80)
        .map(|i| {
            let c = 100.0 + ((i as f64) * 0.21).sin() * 6.0 + i as f64 * 0.05;
            let epoch = Utc.with_ymd_and_hms(2021, 1, 1, 0, 0, 0).unwrap();
            let day = (epoch + chrono::Days::new(i as u64)).format("%Y-%m-%d").to_string();
            RawRecord {
                timestamp: day,
                open: Some(px(c - 0.3)),
                high: Some(px(c + 1.0)),
                low: Some(px(c - 1.0)),
                close: Some(px(c)),
                volume: Some(px(10_000.0)),
            }
        })
        .collect();
    let feed = CsvFeed::from_records(&records, &SymbolId::new("SPY"), TimestampPolicy::Reject).unwrap();
    let mut engine = Engine::new(
        feed,
        MaCrossover::new(10, 30),
        FixedFraction::new(px(0.10)),
        SimulatedExecution::new(),
        initial_cash(),
    );
    let summary = engine.run();
    format!("{:?}\n{:?}", summary, engine.portfolio())
}

#[test]
fn same_data_and_config_produce_byte_identical_results() {
    let first = full_pipeline_run();
    let second = full_pipeline_run();
    assert_eq!(first, second, "two runs with identical inputs must be byte-identical");
}
