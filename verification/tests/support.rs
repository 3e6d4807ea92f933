use std::collections::HashMap;
use std::hash::Hasher;

use chronos_bt::cli::parse_key_val;
use chronos_bt::data::fast_hash::{FxBuildHasher, FxHasher, SEED};
use chronos_bt::data::symbol_table::SymbolTable;
use chronos_bt::data::types::{Bar, SymbolId};
use chronos_bt::fixed::{floor_div, floor_mod, money_add, mul_div, narrow, ratio_lt, sat_add, sat_sub, wide_mul};

#[test]
fn parse_key_val_splits_at_the_first_equals() {
    assert_eq!(parse_key_val("fast=5"), Ok(("fast".to_string(), "5".to_string())));
    assert_eq!(parse_key_val("expr=a=b"), Ok(("expr".to_string(), "a=b".to_string())));
    assert_eq!(parse_key_val("=x"), Ok((String::new(), "x".to_string())));
    assert_eq!(parse_key_val("k="), Ok(("k".to_string(), String::new())));
}

#[test]
fn parse_key_val_refuses_an_argument_without_equals() {
    assert_eq!(
        parse_key_val("fast"),
        Err("invalid --set value \"fast\": expected key=value".to_string())
    );
}

#[test]
fn symbol_ids_compare_by_name() {
    let a = SymbolId::new("SPY");
    assert_eq!(a.as_str(), "SPY");
    assert!(a.same_as(&a.clone()));
    assert!(!a.same_as(&SymbolId::new("QQQ")));
}

#[test]
fn fx_hash_of_a_short_key_is_one_mixing_step() {
    let mut h = FxHasher::default();
    h.write(b"TEST");
    let word = u64::from_le_bytes([b'T', b'E', b'S', b'T', 0, 0, 0, 0]);
    assert_eq!(h.finish(), word.wrapping_mul(SEED));
}

#[test]
fn fx_hash_mixes_eight_bytes_at_a_time() {
    let mut h = FxHasher::default();
    h.write(b"ABCDEFGHIJ");
    let w1 = u64::from_le_bytes(*b"ABCDEFGH");
    let w2 = u64::from_le_bytes([b'I', b'J', 0, 0, 0, 0, 0, 0]);
    let step1 = w1.wrapping_mul(SEED);
    let expected = (step1.rotate_left(5) ^ w2).wrapping_mul(SEED);
    assert_eq!(h.finish(), expected);
}

#[test]
fn fx_build_hasher_serves_a_hash_map() {
    let mut map: HashMap<SymbolId, u32, FxBuildHasher> = HashMap::default();
    map.insert(SymbolId::new("A"), 1);
    map.insert(SymbolId::new("B"), 2);
    map.insert(SymbolId::new("A"), 3);
    assert_eq!(map.len(), 2);
    assert_eq!(map.get(&SymbolId::new("A")), Some(&3));
}

#[test]
fn symbol_table_reads_back_what_was_written() {
    let mut table: SymbolTable<i64> = SymbolTable::new();
    assert_eq!(table.len(), 0);
    assert_eq!(table.get(&SymbolId::new("A")), None);
    table.insert(&SymbolId::new("A"), 1);
    table.insert(&SymbolId::new("B"), 2);
    table.insert(&SymbolId::new("A"), 3);
    assert_eq!(table.len(), 2);
    assert_eq!(table.get(&SymbolId::new("A")), Some(3));
    assert_eq!(table.get(&SymbolId::new("B")), Some(2));
    let (first, value) = table.entry(0);
    assert_eq!(first.as_str(), "A");
    assert_eq!(value, 3);
}

#[test]
fn fixed_point_helpers() {
    assert_eq!(floor_div(-7, 2), -4);
    assert_eq!(floor_mod(-7, 2), 1);
    assert_eq!(floor_div(7, 2), 3);
    assert_eq!(sat_add(i64::MAX, 1), i64::MAX);
    assert_eq!(sat_sub(i64::MIN, 1), i64::MIN);
    assert_eq!(narrow(i128::MAX), i64::MAX);
    assert_eq!(money_add(i128::MAX, 5), i128::MAX);
    assert_eq!(wide_mul(i64::MAX, 2), i64::MAX as i128 * 2);
    assert_eq!(mul_div(1_000_000, 500_000, 100_000_000), 5_000);
    assert!(ratio_lt(1, 3, 1, 2));
    assert!(!ratio_lt(2, 4, 1, 2));
}

#[test]
fn bar_validity() {
    let good = Bar { timestamp: 0, open: 10, high: 12, low: 9, close: 11, volume: 5 };
    assert!(good.is_valid());
    assert!(!Bar { low: 13, ..good }.is_valid());
    assert!(!Bar { volume: -1, ..good }.is_valid());
    assert!(!Bar { open: -1, low: -2, ..good }.is_valid());
}

#[test]
fn symbol_ids_convert_from_text_and_compare_equal() {
    let a = SymbolId::from("SPY");
    let b = SymbolId::from(String::from("SPY"));
    assert_eq!(a, b);
    assert_eq!(a.as_str(), "SPY");
    assert_ne!(a, SymbolId::new("QQQ"));
}
