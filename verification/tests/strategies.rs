use chrono::{Days, TimeZone, Utc};

use chronos_bt::data::types::{Bar, SymbolId};
use chronos_bt::events::{Direction, MarketEvent};
use chronos_bt::strategy::stats::simple_moving_average;
use chronos_bt::strategy::{MaCrossover, MeanReversion, Momentum, NoOpStrategy, RingBuffer, Strategy, StrategyContext};

/// A price or quantity in the library's fixed-point units.
fn px(x: f64) -> i64 {
    (x * 10_000.0).round() as i64
}

fn day_bar(day: u32, close: f64) -> Bar {
    Bar {
        timestamp: Utc.with_ymd_and_hms(2021, 1, day, 0, 0, 0).unwrap().timestamp_millis(),
        open: px(close),
        high: px(close),
        low: px(close),
        close: px(close),
        volume: px(1_000.0),
    }
}

/// `day` counts days past 2021-01-01.
fn bar(day: u32, close: f64) -> Bar {
    let epoch = Utc.with_ymd_and_hms(2021, 1, 1, 0, 0, 0).unwrap();
    Bar {
        timestamp: (epoch + Days::new(day as u64)).timestamp_millis(),
        open: px(close),
        high: px(close),
        low: px(close),
        close: px(close),
        volume: px(1_000.0),
    }
}

/// Feeds `closes` to `strategy` one bar at a time over a growing history
/// and returns the direction of every signal emitted, in order.
fn run_signals<S: Strategy>(strategy: &mut S, closes: &[f64]) -> Vec<Direction> {
    let mut history = Vec::new();
    let mut directions = Vec::new();
    for (i, &close) in closes.iter().enumerate() {
        let current_bar = bar(i as u32 + 1, close);
        history.push(current_bar);
        let event = MarketEvent { symbol: SymbolId::new("TEST"), bar: current_bar };
        let ctx = StrategyContext { history: history.clone(), position_quantity: 0, cash: 0 };
        for signal in strategy.on_market(&event, &ctx) {
            directions.push(signal.direction);
        }
    }
    directions
}

#[test]
fn holds_up_to_capacity_bars() {
    let mut buffer = RingBuffer::new(3);
    buffer.push(day_bar(1, 100.0));
    buffer.push(day_bar(2, 101.0));
    assert_eq!(buffer.len(), 2);
    assert_eq!(buffer.as_vec().iter().map(|b| b.close).collect::<Vec<_>>(), vec![px(100.0), px(101.0)]);
}

#[test]
fn evicts_oldest_once_full() {
    let mut buffer = RingBuffer::new(3);
    for day in 1..=5 {
        buffer.push(day_bar(day, 100.0 + day as f64));
    }
    assert_eq!(buffer.len(), 3);
    assert_eq!(
        buffer.as_vec().iter().map(|b| b.close).collect::<Vec<_>>(),
        vec![px(103.0), px(104.0), px(105.0)]
    );
}

#[test]
fn capacity_of_zero_is_treated_as_one() {
    let mut buffer = RingBuffer::new(0);
    buffer.push(day_bar(1, 100.0));
    buffer.push(day_bar(2, 101.0));
    assert_eq!(buffer.len(), 1);
    assert_eq!(buffer.as_vec()[0].close, px(101.0));
}

#[test]
fn ring_buffer_keeps_the_most_recent_bars_in_order() {
    let mut buffer = RingBuffer::new(2);
    assert!(buffer.is_empty());
    buffer.push(day_bar(1, 100.0));
    buffer.push(day_bar(2, 101.0));
    buffer.push(day_bar(3, 102.0));
    assert!(!buffer.is_empty());
    let kept = buffer.as_vec();
    assert_eq!(kept.len(), 2);
    assert_eq!(kept[0].timestamp, day_bar(2, 0.0).timestamp);
    assert_eq!(kept[1].close, px(102.0));
}

#[test]
fn context_latest_is_the_current_bar() {
    let empty = StrategyContext { history: Vec::new(), position_quantity: 0, cash: 0 };
    assert!(empty.latest().is_none());
    let ctx = StrategyContext { history: vec![day_bar(1, 10.0), day_bar(2, 11.0)], position_quantity: 0, cash: 0 };
    assert_eq!(ctx.latest().unwrap().close, px(11.0));
}

#[test]
fn no_signal_before_slow_period_is_satisfied() {
    let mut strategy = MaCrossover::new(2, 4);
    let directions = run_signals(&mut strategy, &[10.0, 10.0, 10.0]);
    assert!(directions.is_empty());
}

#[test]
fn goes_long_then_exits_across_a_full_trend_reversal() {
    let mut strategy = MaCrossover::new(3, 6);
    let rising: Vec<f64> = (1..=20).map(|n| n as f64).collect();
    let falling: Vec<f64> = (1..20).rev().map(|n| n as f64).collect();
    let closes: Vec<f64> = rising.into_iter().chain(falling).collect();

    let directions = run_signals(&mut strategy, &closes);
    assert_eq!(directions, vec![Direction::Long, Direction::Exit]);
}

#[test]
fn first_long_signal_fires_exactly_when_slow_period_is_first_satisfied() {
    let mut strategy = MaCrossover::new(3, 6);
    let directions = run_signals(&mut strategy, &[1.0, 2.0, 3.0, 4.0, 5.0, 6.0]);
    assert_eq!(directions, vec![Direction::Long]);
}

#[test]
fn crossover_signals_alternate_over_a_zigzag() {
    let mut strategy = MaCrossover::new(1, 3);
    let closes = [1.0, 2.0, 3.0, 2.0, 1.0, 2.0, 3.0, 4.0, 1.0, 0.5];
    let directions = run_signals(&mut strategy, &closes);
    assert!(!directions.is_empty());
    for (i, d) in directions.iter().enumerate() {
        let expected = if i % 2 == 0 { Direction::Long } else { Direction::Exit };
        assert_eq!(*d, expected);
    }
}

#[test]
fn crossover_signal_carries_the_bar_symbol_and_time() {
    let mut strategy = MaCrossover::new(1, 2);
    assert_eq!(strategy.warmup_bars(), 2);
    let history = vec![bar(1, 1.0), bar(2, 2.0)];
    let event = MarketEvent { symbol: SymbolId::new("XYZ"), bar: history[1] };
    let ctx = StrategyContext { history, position_quantity: 0, cash: 0 };
    let signals = strategy.on_market(&event, &ctx);
    assert_eq!(signals.len(), 1);
    assert_eq!(signals[0].direction, Direction::Long);
    assert_eq!(signals[0].symbol.as_str(), "XYZ");
    assert_eq!(signals[0].timestamp, event.bar.timestamp);
    assert_eq!(signals[0].strength, 10_000);
}

#[test]
fn no_signal_before_lookback_plus_one_bars() {
    let mut strategy = Momentum::new(3, px(0.05));
    let directions = run_signals(&mut strategy, &[100.0, 100.0, 100.0]);
    assert!(directions.is_empty());
}

#[test]
fn hand_computed_long_then_exit_on_trailing_return() {
    let mut strategy = Momentum::new(3, px(0.05));
    let closes = [100.0, 100.0, 100.0, 100.0, 110.0, 115.0, 120.0, 125.0, 100.0, 95.0, 90.0, 85.0];
    let directions = run_signals(&mut strategy, &closes);
    assert_eq!(directions, vec![Direction::Long, Direction::Exit]);
}

#[test]
fn momentum_return_exactly_at_threshold_is_not_above_it() {
    // 100 -> 105 over 1 bar is exactly +5%: not strictly above a 5% threshold.
    let mut strategy = Momentum::new(1, px(0.05));
    assert_eq!(strategy.warmup_bars(), 2);
    assert!(run_signals(&mut strategy, &[100.0, 105.0]).is_empty());
    let mut strategy = Momentum::new(1, px(0.05));
    assert_eq!(run_signals(&mut strategy, &[100.0, 105.01]), vec![Direction::Long]);
}

#[test]
fn no_signal_before_lookback_is_satisfied() {
    let mut strategy = MeanReversion::new(4, px(1.0), px(0.6));
    let directions = run_signals(&mut strategy, &[100.0, 100.0, 100.0]);
    assert!(directions.is_empty());
}

#[test]
fn no_signal_when_the_window_has_zero_spread() {
    let mut strategy = MeanReversion::new(4, px(1.0), px(0.6));
    let directions = run_signals(&mut strategy, &[100.0, 100.0, 100.0, 100.0]);
    assert!(directions.is_empty());
}

#[test]
fn hand_computed_long_entry_then_exit() {
    let mut strategy = MeanReversion::new(4, px(1.0), px(0.6));
    let closes = [100.0, 100.0, 100.0, 100.0, 70.0, 100.0];
    let directions = run_signals(&mut strategy, &closes);
    assert_eq!(directions, vec![Direction::Long, Direction::Exit]);
}

#[test]
fn hand_computed_short_entry_then_exit() {
    let mut strategy = MeanReversion::new(4, px(1.0), px(0.6));
    let closes = [100.0, 100.0, 100.0, 100.0, 130.0, 100.0];
    let directions = run_signals(&mut strategy, &closes);
    assert_eq!(directions, vec![Direction::Short, Direction::Exit]);
}

#[test]
fn mean_reversion_z_exactly_at_entry_threshold_enters() {
    // Window [100, 100, 100, 70]: z = -sqrt(3) ~ -1.732. An entry threshold
    // of 1.732 (below sqrt 3) enters; 1.7321 (above it) does not.
    let mut strategy = MeanReversion::new(4, px(1.732), px(0.6));
    assert_eq!(strategy.warmup_bars(), 4);
    assert_eq!(run_signals(&mut strategy, &[100.0, 100.0, 100.0, 70.0]), vec![Direction::Long]);
    let mut strategy = MeanReversion::new(4, px(1.7321), px(0.6));
    assert!(run_signals(&mut strategy, &[100.0, 100.0, 100.0, 70.0]).is_empty());
}

#[test]
fn mean_reversion_never_flips_directly_from_long_to_short() {
    let mut strategy = MeanReversion::new(4, px(1.0), px(0.1));
    // Long on the drop to 70; the spike to 200 (z ~ +1.68) would be a short
    // entry from flat, but from long it is not even an exit (|z| >= 0.1).
    let directions = run_signals(&mut strategy, &[100.0, 100.0, 100.0, 70.0, 200.0]);
    assert_eq!(directions, vec![Direction::Long]);
}

#[test]
fn no_op_strategy_never_signals() {
    let mut strategy = NoOpStrategy;
    assert_eq!(strategy.warmup_bars(), 0);
    assert!(run_signals(&mut strategy, &[1.0, 2.0, 3.0]).is_empty());
}

#[test]
fn simple_moving_average_is_the_mean_of_the_last_closes() {
    let bars = vec![bar(1, 1.0), bar(2, 2.0), bar(3, 4.0)];
    assert_eq!(simple_moving_average(&bars, 2), Some(px(3.0)));
    assert_eq!(simple_moving_average(&bars, 3), Some(23_333));
    assert_eq!(simple_moving_average(&bars, 0), None);
}

#[test]
fn mean_reversion_accepts_a_very_long_lookback() {
    let mut strategy = MeanReversion::new(70_000, px(1.0), px(0.5));
    assert_eq!(strategy.warmup_bars(), 70_000);
    assert!(run_signals(&mut strategy, &[100.0, 90.0, 110.0]).is_empty());
}
