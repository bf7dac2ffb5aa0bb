//! Tests for the timestamp-independent comparison of snapshots.

use pricelevel::PriceLevelSnapshot;
use sequencer::clock::{nanos_since_epoch, timestamp_from};
use sequencer::snapshot::{levels_match, snapshots_match, sorted_keys, LevelKey, OrderBookSnapshot};

fn level(price: u128, visible_quantity: u64) -> PriceLevelSnapshot {
    PriceLevelSnapshot {
        price,
        visible_quantity,
        hidden_quantity: 0,
        order_count: 1,
        orders: vec![],
    }
}

fn snapshot(
    symbol: &str,
    timestamp: u64,
    bids: Vec<PriceLevelSnapshot>,
    asks: Vec<PriceLevelSnapshot>,
) -> OrderBookSnapshot {
    OrderBookSnapshot { symbol: symbol.to_string(), timestamp, bids, asks }
}

fn key(price: u128, visible_quantity: u64) -> LevelKey {
    LevelKey { price, visible_quantity }
}

#[test]
fn sort_descending_puts_highest_price_first() {
    let keys = vec![key(100, 1), key(103, 2), key(101, 3)];
    assert_eq!(sorted_keys(&keys, true), vec![key(103, 2), key(101, 3), key(100, 1)]);
}

#[test]
fn sort_ascending_puts_lowest_price_first() {
    let keys = vec![key(205, 1), key(204, 2), key(300, 3), key(1, 4)];
    assert_eq!(
        sorted_keys(&keys, false),
        vec![key(1, 4), key(204, 2), key(205, 1), key(300, 3)]
    );
}

#[test]
fn sort_is_stable_in_both_directions() {
    let keys = vec![key(5, 1), key(7, 2), key(5, 3), key(7, 4), key(5, 5)];
    assert_eq!(
        sorted_keys(&keys, false),
        vec![key(5, 1), key(5, 3), key(5, 5), key(7, 2), key(7, 4)]
    );
    assert_eq!(
        sorted_keys(&keys, true),
        vec![key(7, 2), key(7, 4), key(5, 1), key(5, 3), key(5, 5)]
    );
}

#[test]
fn sort_of_nothing_is_nothing() {
    assert_eq!(sorted_keys(&vec![], true), vec![]);
    assert_eq!(sorted_keys(&vec![key(u128::MAX, u64::MAX)], false), vec![key(u128::MAX, u64::MAX)]);
}

#[test]
fn match_ignores_listing_order_and_timestamps() {
    let a = snapshot(
        "BTC/USD",
        1,
        vec![level(100, 10), level(102, 5), level(101, 7)],
        vec![level(205, 1), level(204, 2)],
    );
    let b = snapshot(
        "BTC/USD",
        2_000_000,
        vec![level(102, 5), level(101, 7), level(100, 10)],
        vec![level(204, 2), level(205, 1)],
    );
    assert!(snapshots_match(&a, &b));
    assert!(snapshots_match(&b, &a));
    assert!(snapshots_match(&a, &a));
}

#[test]
fn match_ignores_hidden_quantity_and_order_count() {
    let mut deep = level(100, 10);
    deep.hidden_quantity = 90;
    deep.order_count = 4;
    let a = snapshot("BTC/USD", 0, vec![deep], vec![]);
    let b = snapshot("BTC/USD", 0, vec![level(100, 10)], vec![]);
    assert!(snapshots_match(&a, &b));
}

#[test]
fn match_fails_on_a_different_quantity() {
    let a = snapshot("BTC/USD", 0, vec![level(100, 10)], vec![level(200, 1)]);
    let b = snapshot("BTC/USD", 0, vec![level(100, 11)], vec![level(200, 1)]);
    assert!(!snapshots_match(&a, &b));
    let c = snapshot("BTC/USD", 0, vec![level(100, 10)], vec![level(200, 2)]);
    assert!(!snapshots_match(&a, &c));
}

#[test]
fn match_fails_on_a_different_price_or_length() {
    let a = snapshot("BTC/USD", 0, vec![level(100, 10)], vec![]);
    let b = snapshot("BTC/USD", 0, vec![level(101, 10)], vec![]);
    assert!(!snapshots_match(&a, &b));
    let c = snapshot("BTC/USD", 0, vec![level(100, 10), level(99, 1)], vec![]);
    assert!(!snapshots_match(&a, &c));
    assert!(!snapshots_match(&c, &a));
    let d = snapshot("BTC/USD", 0, vec![], vec![level(100, 10)]);
    assert!(!snapshots_match(&a, &d));
}

#[test]
fn match_compares_levels_of_one_price_in_listing_order() {
    // The sort is stable: two levels of one price stay as they were listed.
    let a = snapshot("BTC/USD", 0, vec![level(100, 5), level(100, 7)], vec![]);
    let b = snapshot("BTC/USD", 0, vec![level(100, 7), level(100, 5)], vec![]);
    assert!(!snapshots_match(&a, &b));
    assert!(snapshots_match(&a, &a));
}

#[test]
fn match_needs_the_same_symbol_text() {
    let a = snapshot("BTC/USD", 0, vec![level(100, 10)], vec![]);
    let b = snapshot("btc/usd", 0, vec![level(100, 10)], vec![]);
    assert!(!snapshots_match(&a, &b));
}

#[test]
fn levels_match_by_side_order() {
    let a = vec![level(1, 1), level(2, 2)];
    let b = vec![level(2, 2), level(1, 1)];
    assert!(levels_match(&a, &b, true));
    assert!(levels_match(&a, &b, false));
    assert!(!levels_match(&a, &vec![level(1, 1)], false));
}

#[test]
fn timestamp_from_a_reading() {
    assert_eq!(timestamp_from(None), 0);
    assert_eq!(timestamp_from(Some(0)), 0);
    assert_eq!(timestamp_from(Some(1_700_000_000_000_000_000)), 1_700_000_000_000_000_000);
    assert_eq!(timestamp_from(Some(u64::MAX as u128)), u64::MAX);
    assert_eq!(timestamp_from(Some(u64::MAX as u128 + 1)), 0);
    assert_eq!(timestamp_from(Some(u64::MAX as u128 + 8)), 7);
    assert_eq!(timestamp_from(Some(u128::MAX)), u64::MAX);
}

#[test]
fn clock_reads_a_time_after_2020() {
    let now = nanos_since_epoch();
    assert!(now > 1_577_836_800_000_000_000);
    let later = nanos_since_epoch();
    assert!(later >= now);
}
