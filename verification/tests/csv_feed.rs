use chrono::{TimeZone, Utc};

use chronos_bt::data::csv_feed::{
    detect_gaps, gap_spans, parse_i64, parse_timestamp, sort_by_timestamp, CsvFeed, DataError, RawRecord, TimestampPolicy,
};
use chronos_bt::data::types::{Bar, SymbolId};
use chronos_bt::data::DataFeed;

/// A price or quantity in the library's fixed-point units, or `None` for a
/// value that is not a finite number in range.
fn fixed(x: f64) -> Option<i64> {
    let scaled = (x * 10_000.0).round();
    if scaled.is_finite() && scaled >= i64::MIN as f64 && scaled <= i64::MAX as f64 {
        Some(scaled as i64)
    } else {
        None
    }
}

fn px(x: f64) -> i64 {
    fixed(x).unwrap()
}

/// Reads `timestamp,open,high,low,close,volume` rows (after a header line)
/// into raw records.
fn records(text: &str) -> Vec<RawRecord> {
    let mut reader = csv::ReaderBuilder::new().has_headers(true).from_reader(text.as_bytes());
    reader
        .records()
        .map(|row| {
            let row = row.unwrap();
            let number = |i: usize| fixed(row[i].trim().parse::<f64>().unwrap());
            RawRecord {
                timestamp: row[0].to_string(),
                open: number(1),
                high: number(2),
                low: number(3),
                close: number(4),
                volume: number(5),
            }
        })
        .collect()
}

fn load(text: &str, policy: TimestampPolicy) -> Result<CsvFeed, DataError> {
    CsvFeed::from_records(&records(text), &symbol(), policy)
}

fn ts(day: u32) -> i64 {
    Utc.with_ymd_and_hms(2021, 1, day, 0, 0, 0).unwrap().timestamp_millis()
}

fn bar_at(day: u32) -> Bar {
    Bar { timestamp: ts(day), open: px(100.0), high: px(101.0), low: px(99.0), close: px(100.5), volume: px(1000.0) }
}

fn symbol() -> SymbolId {
    SymbolId::new("TEST")
}

#[test]
fn loads_valid_csv() {
    let csv = "timestamp,open,high,low,close,volume\n\
               2021-01-01,100,101,99,100.5,1000\n\
               2021-01-02,100.5,102,100,101.5,1200\n";
    let mut feed = load(csv, TimestampPolicy::Reject).unwrap();

    let first = feed.next().unwrap();
    assert_eq!(first.bar.open, px(100.0));
    assert_eq!(first.bar.close, px(100.5));
    assert_eq!(first.symbol.as_str(), "TEST");
    let second = feed.next().unwrap();
    assert_eq!(second.bar.close, px(101.5));
    assert!(feed.next().is_none());
}

#[test]
fn auto_detects_rfc3339_and_unix_millis() {
    let csv = "timestamp,open,high,low,close,volume\n\
               2021-01-01T00:00:00Z,100,101,99,100.5,1000\n\
               1609545600000,100.5,102,100,101.5,1200\n";
    let mut feed = load(csv, TimestampPolicy::Reject).unwrap();
    let first = feed.next().unwrap();
    assert_eq!(first.bar.timestamp, ts(1));
    let second = feed.next().unwrap();
    assert_eq!(second.bar.timestamp, ts(2));
}

#[test]
fn rejects_out_of_order_timestamps_by_default() {
    let csv = "timestamp,open,high,low,close,volume\n\
               2021-01-02,100,101,99,100.5,1000\n\
               2021-01-01,100.5,102,100,101.5,1200\n";
    let result = load(csv, TimestampPolicy::Reject);
    assert!(matches!(result, Err(DataError::OutOfOrderTimestamp { .. })));
    match result {
        Err(DataError::OutOfOrderTimestamp { row, prev, curr }) => {
            assert_eq!(row, 3);
            assert_eq!(prev, ts(2));
            assert_eq!(curr, ts(1));
        }
        _ => unreachable!(),
    }
}

#[test]
fn sorts_out_of_order_timestamps_when_configured() {
    let csv = "timestamp,open,high,low,close,volume\n\
               2021-01-02,100,101,99,100.5,1000\n\
               2021-01-01,100.5,102,100,101.5,1200\n";
    let mut feed = load(csv, TimestampPolicy::SortAscending).unwrap();
    let first = feed.next().unwrap();
    assert_eq!(first.bar.timestamp, ts(1));
    let second = feed.next().unwrap();
    assert_eq!(second.bar.timestamp, ts(2));
}

#[test]
fn rejects_negative_price() {
    let csv = "timestamp,open,high,low,close,volume\n\
               2021-01-01,-100,101,99,100.5,1000\n";
    let result = load(csv, TimestampPolicy::Reject);
    assert!(matches!(result, Err(DataError::InvalidBar { .. })));
}

#[test]
fn rejects_nan_price() {
    let csv = "timestamp,open,high,low,close,volume\n\
               2021-01-01,NaN,101,99,100.5,1000\n";
    let result = load(csv, TimestampPolicy::Reject);
    assert!(matches!(result, Err(DataError::InvalidBar { .. })));
}

#[test]
fn rejects_high_below_low() {
    let csv = "timestamp,open,high,low,close,volume\n\
               2021-01-01,100,98,99,100.5,1000\n";
    let result = load(csv, TimestampPolicy::Reject);
    assert!(matches!(result, Err(DataError::InvalidBar { .. })));
}

#[test]
fn rejects_high_below_open_or_close() {
    let csv = "timestamp,open,high,low,close,volume\n\
               2021-01-01,100,100,99,105,1000\n";
    let result = load(csv, TimestampPolicy::Reject);
    assert!(matches!(result, Err(DataError::InvalidBar { .. })));
}

#[test]
fn rejects_empty_file() {
    let csv = "timestamp,open,high,low,close,volume\n";
    let result = load(csv, TimestampPolicy::Reject);
    assert!(matches!(result, Err(DataError::Empty)));
}

#[test]
fn rejects_unparsable_timestamp() {
    let csv = "timestamp,open,high,low,close,volume\n\
               not-a-date,100,101,99,100.5,1000\n";
    let result = load(csv, TimestampPolicy::Reject);
    assert!(matches!(result, Err(DataError::InvalidTimestamp { .. })));
    match result {
        Err(DataError::InvalidTimestamp { row, raw }) => {
            assert_eq!(row, 2);
            assert_eq!(raw, "not-a-date");
        }
        _ => unreachable!(),
    }
}

#[test]
fn invalid_bar_reports_its_row() {
    let csv = "timestamp,open,high,low,close,volume\n\
               2021-01-01,100,101,99,100.5,1000\n\
               2021-01-02,100,101,99,100.5,-5\n";
    match load(csv, TimestampPolicy::Reject) {
        Err(DataError::InvalidBar { row, record }) => {
            assert_eq!(row, 3);
            assert_eq!(record.volume, Some(px(-5.0)));
        }
        _ => panic!("expected an invalid bar"),
    }
}

#[test]
fn ordinary_weekend_gap_is_not_flagged() {
    let bars = [bar_at(1), bar_at(4), bar_at(5), bar_at(6)];
    assert!(detect_gaps(&bars).is_empty());
}

#[test]
fn a_missing_week_is_flagged() {
    let bars = [bar_at(4), bar_at(5), bar_at(6), bar_at(11)];
    let warnings = detect_gaps(&bars);
    assert_eq!(warnings.len(), 1);
    assert!(warnings[0].contains("gap detected"));
}

#[test]
fn gap_message_names_rows_times_and_spacing() {
    let bars = [bar_at(4), bar_at(5), bar_at(6), bar_at(11)];
    let warnings = detect_gaps(&bars);
    assert_eq!(
        warnings[0],
        "gap detected between row 4 (2021-01-06 00:00:00 UTC) and row 5 (2021-01-11 00:00:00 UTC): 432000s, expected ~86400s"
    );
    let spans = gap_spans(&bars);
    assert_eq!(spans.len(), 1);
    assert_eq!(spans[0].index, 2);
    assert_eq!(spans[0].delta_seconds, 432_000);
    assert_eq!(spans[0].base_seconds, 86_400);
}

#[test]
fn fewer_than_three_bars_are_never_flagged() {
    assert!(detect_gaps(&[bar_at(1), bar_at(20)]).is_empty());
}

#[test]
fn loading_keeps_gap_warnings() {
    let csv = "timestamp,open,high,low,close,volume\n\
               2021-01-04,100,101,99,100.5,1000\n\
               2021-01-05,100,101,99,100.5,1000\n\
               2021-01-06,100,101,99,100.5,1000\n\
               2021-01-11,100,101,99,100.5,1000\n";
    let feed = load(csv, TimestampPolicy::Reject).unwrap();
    assert_eq!(feed.warnings().len(), 1);
}

#[test]
fn parses_each_timestamp_form() {
    assert_eq!(parse_timestamp("2021-01-01T00:00:00Z"), Some(ts(1)));
    assert_eq!(parse_timestamp("2021-01-01T01:00:00+01:00"), Some(ts(1)));
    assert_eq!(parse_timestamp("2021-01-03"), Some(ts(3)));
    assert_eq!(parse_timestamp("1609545600000"), Some(ts(2)));
    assert_eq!(parse_timestamp("-86400000"), Some(-86_400_000));
    assert_eq!(parse_timestamp("+5"), Some(5));
    assert_eq!(parse_timestamp(" 5"), None);
    assert_eq!(parse_timestamp("1_000"), None);
    assert_eq!(parse_timestamp("9000000000000000000"), None);
    assert_eq!(parse_timestamp("2021-13-01"), None);
    assert_eq!(parse_timestamp("yesterday"), None);
}

#[test]
fn sorting_is_stable_for_equal_timestamps() {
    let mut a = bar_at(2);
    a.close = px(1.0);
    let mut b = bar_at(1);
    b.close = px(2.0);
    let mut c = bar_at(2);
    c.close = px(3.0);
    let mut d = bar_at(1);
    d.close = px(4.0);
    let sorted = sort_by_timestamp(&vec![a, b, c, d]);
    let closes: Vec<i64> = sorted.iter().map(|x| x.close).collect();
    assert_eq!(closes, vec![px(2.0), px(4.0), px(1.0), px(3.0)]);
}

#[test]
fn parse_i64_accepts_exactly_a_signed_decimal() {
    assert_eq!(parse_i64("42"), Some(42));
    assert_eq!(parse_i64("-42"), Some(-42));
    assert_eq!(parse_i64("+7"), Some(7));
    assert_eq!(parse_i64("9223372036854775807"), Some(i64::MAX));
    assert_eq!(parse_i64("-9223372036854775808"), Some(i64::MIN));
    assert_eq!(parse_i64("9223372036854775808"), None);
    assert_eq!(parse_i64("-"), None);
    assert_eq!(parse_i64(""), None);
    assert_eq!(parse_i64("1 "), None);
    assert_eq!(parse_i64("12a"), None);
}

fn bar_at_millis(timestamp: i64) -> Bar {
    Bar { timestamp, ..bar_at(1) }
}

#[test]
fn gap_message_shows_unrepresentable_times_as_milliseconds() {
    let last = 8_210_266_876_799_999;
    let bars = [
        bar_at_millis(last - 2_999),
        bar_at_millis(last - 1_999),
        bar_at_millis(last - 999),
        bar_at_millis(last + 9_001),
    ];
    let warnings = detect_gaps(&bars);
    assert_eq!(
        warnings,
        vec![
            "gap detected between row 4 (+262142-12-31 23:59:59 UTC) and row 5 (8210266876809000): 10s, expected ~1s"
                .to_string()
        ]
    );
}

#[test]
fn utc_range_ends_where_chrono_says() {
    let first = -8_334_601_228_800_000;
    let last = 8_210_266_876_799_999;
    assert!(chrono::DateTime::from_timestamp_millis(first).is_some());
    assert!(chrono::DateTime::from_timestamp_millis(first - 1).is_none());
    assert!(chrono::DateTime::from_timestamp_millis(last).is_some());
    assert!(chrono::DateTime::from_timestamp_millis(last + 1).is_none());
}
