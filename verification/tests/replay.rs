//! Tests for the journal and the replay engine.

use pricelevel::{Hash32, OrderId, OrderType, Side, TimeInForce};
use sequencer::book::{OrderBook, OrderBookError};
use sequencer::journal::{InMemoryJournal, Journal};
use sequencer::replay::{snapshots_match, ReplayEngine, ReplayError};
use sequencer::resting::RestingBook;
use sequencer::snapshot::OrderBookSnapshot;
use sequencer::{SequencerCommand, SequencerEvent, SequencerResult};
use std::sync::{Arc, Mutex};

type Book = RestingBook<()>;

fn make_order(id: OrderId, price: u128, quantity: u64, side: Side) -> OrderType<()> {
    OrderType::Standard {
        id,
        price,
        quantity,
        side,
        user_id: Hash32::zero(),
        timestamp: 0,
        time_in_force: TimeInForce::Gtc,
        extra_fields: (),
    }
}

fn add_event(seq: u64, order: OrderType<()>) -> SequencerEvent<()> {
    let order_id = order.id();
    SequencerEvent::new(
        seq,
        seq * 1_000_000,
        SequencerCommand::AddOrder(order),
        SequencerResult::OrderAdded { order_id },
    )
}

fn cancel_event(seq: u64, order_id: OrderId) -> SequencerEvent<()> {
    SequencerEvent::new(
        seq,
        seq * 1_000_000,
        SequencerCommand::CancelOrder(order_id),
        SequencerResult::OrderCancelled { order_id },
    )
}

fn rejected_event(seq: u64, order_id: OrderId) -> SequencerEvent<()> {
    SequencerEvent::new(
        seq,
        seq * 1_000_000,
        SequencerCommand::CancelOrder(order_id),
        SequencerResult::Rejected {
            error: OrderBookError::OrderNotFound(format!("order {} not found", order_id)),
        },
    )
}

// -------------------------------------------------------------------------
// Journal
// -------------------------------------------------------------------------

#[test]
fn test_journal_empty_on_creation() {
    let journal: InMemoryJournal<()> = InMemoryJournal::new();
    assert!(journal.is_empty());
    assert_eq!(journal.len(), 0);
    assert!(journal.last_sequence().is_none());
}

#[test]
fn test_journal_append_and_len() {
    let mut journal: InMemoryJournal<()> = InMemoryJournal::new();
    let id = OrderId::new_uuid();
    journal
        .append(add_event(1, make_order(id, 100, 10, Side::Buy)))
        .ok();
    assert_eq!(journal.len(), 1);
    assert_eq!(journal.last_sequence(), Some(1));
}

#[test]
fn test_journal_read_from_beginning() {
    let mut journal: InMemoryJournal<()> = InMemoryJournal::new();
    for i in 1..=5 {
        let id = OrderId::new_uuid();
        journal
            .append(add_event(i, make_order(id, 100 + i as u128, 10, Side::Buy)))
            .ok();
    }
    let events: Vec<_> = journal.read_from(1);
    assert_eq!(events.len(), 5);
}

#[test]
fn test_journal_read_from_midpoint() {
    let mut journal: InMemoryJournal<()> = InMemoryJournal::new();
    for i in 1..=5 {
        let id = OrderId::new_uuid();
        journal
            .append(add_event(i, make_order(id, 100 + i as u128, 10, Side::Buy)))
            .ok();
    }
    let events: Vec<_> = journal.read_from(3);
    assert_eq!(events.len(), 3);
    assert_eq!(events[0].sequence_num, 3);
}

#[test]
fn test_journal_read_range() {
    let mut journal: InMemoryJournal<()> = InMemoryJournal::new();
    for i in 1..=10 {
        let id = OrderId::new_uuid();
        journal
            .append(add_event(i, make_order(id, 100 + i as u128, 10, Side::Buy)))
            .ok();
    }
    let events: Vec<_> = journal.read_range(3, 6);
    assert_eq!(events.len(), 4);
    assert_eq!(events[0].sequence_num, 3);
    assert_eq!(events[3].sequence_num, 6);
}

// -------------------------------------------------------------------------
// ReplayEngine
// -------------------------------------------------------------------------

#[test]
fn test_replay_empty_journal_returns_error() {
    let journal: InMemoryJournal<()> = InMemoryJournal::new();
    let result: Result<(Book, u64), ReplayError> =
        ReplayEngine::replay_from(&journal, 0, "BTC/USD");
    assert!(matches!(result, Err(ReplayError::EmptyJournal)));
}

#[test]
fn test_replay_invalid_from_sequence_returns_error() {
    let mut journal: InMemoryJournal<()> = InMemoryJournal::new();
    let id = OrderId::new_uuid();
    journal
        .append(add_event(1, make_order(id, 100, 10, Side::Buy)))
        .ok();

    let result: Result<(Book, u64), ReplayError> =
        ReplayEngine::replay_from(&journal, 99, "BTC/USD");
    assert!(matches!(result, Err(ReplayError::InvalidSequence { .. })));
}

#[test]
fn test_replay_single_add_order() {
    let mut journal: InMemoryJournal<()> = InMemoryJournal::new();
    let id = OrderId::new_uuid();
    journal
        .append(add_event(1, make_order(id, 100, 10, Side::Buy)))
        .ok();

    let result: Result<(Book, u64), ReplayError> =
        ReplayEngine::replay_from(&journal, 0, "BTC/USD");
    assert!(result.is_ok());
    let (book, last_seq) = result.unwrap();
    assert_eq!(last_seq, 1);
    let snap = book.create_snapshot(10);
    assert_eq!(snap.bids.len(), 1);
    assert_eq!(snap.asks.len(), 0);
}

#[test]
fn test_replay_from_beginning_full_state() {
    let mut journal: InMemoryJournal<()> = InMemoryJournal::new();

    // Add 3 buy orders and 2 sell orders at different prices
    for i in 1u128..=3 {
        let id = OrderId::new_uuid();
        journal
            .append(add_event(i as u64, make_order(id, 100 + i, 10, Side::Buy)))
            .ok();
    }
    for i in 4u128..=5 {
        let id = OrderId::new_uuid();
        journal
            .append(add_event(i as u64, make_order(id, 200 + i, 10, Side::Sell)))
            .ok();
    }

    let (book, last_seq): (Book, u64) =
        ReplayEngine::replay_from(&journal, 0, "BTC/USD").unwrap();
    assert_eq!(last_seq, 5);
    let snap = book.create_snapshot(10);
    assert_eq!(snap.bids.len(), 3);
    assert_eq!(snap.asks.len(), 2);
}

#[test]
fn test_replay_from_midpoint() {
    let mut journal: InMemoryJournal<()> = InMemoryJournal::new();
    // seq 1-3: buy orders at prices 101, 102, 103
    for i in 1u128..=3 {
        let id = OrderId::new_uuid();
        journal
            .append(add_event(i as u64, make_order(id, 100 + i, 10, Side::Buy)))
            .ok();
    }

    // Replay only from seq 3: one bid level
    let (book, last_seq): (Book, u64) =
        ReplayEngine::replay_from(&journal, 3, "BTC/USD").unwrap();
    assert_eq!(last_seq, 3);
    let snap = book.create_snapshot(10);
    assert_eq!(snap.bids.len(), 1);
}

#[test]
fn test_replay_with_cancel_round_trip() {
    let mut journal: InMemoryJournal<()> = InMemoryJournal::new();
    let id = OrderId::new_uuid();

    // Add then cancel the same order
    journal
        .append(add_event(1, make_order(id, 100, 10, Side::Buy)))
        .ok();
    journal.append(cancel_event(2, id)).ok();

    let (book, last_seq): (Book, u64) =
        ReplayEngine::replay_from(&journal, 0, "BTC/USD").unwrap();
    assert_eq!(last_seq, 2);
    let snap = book.create_snapshot(10);
    // Order was cancelled: the book is empty
    assert_eq!(snap.bids.len(), 0);
}

#[test]
fn test_replay_skips_rejected_events() {
    let mut journal: InMemoryJournal<()> = InMemoryJournal::new();
    let id1 = OrderId::new_uuid();
    let id2 = OrderId::new_uuid();

    journal
        .append(add_event(1, make_order(id1, 100, 10, Side::Buy)))
        .ok();
    // seq 2: a rejected cancel, passed over during replay
    journal.append(rejected_event(2, id2)).ok();
    journal
        .append(add_event(3, make_order(id2, 101, 5, Side::Buy)))
        .ok();

    let (book, last_seq): (Book, u64) =
        ReplayEngine::replay_from(&journal, 0, "BTC/USD").unwrap();
    assert_eq!(last_seq, 3);
    let snap = book.create_snapshot(10);
    assert_eq!(snap.bids.len(), 2);
}

#[test]
fn test_replay_range_returns_correct_slice() {
    let mut journal: InMemoryJournal<()> = InMemoryJournal::new();
    for i in 1..=10u64 {
        let id = OrderId::new_uuid();
        journal
            .append(add_event(i, make_order(id, 100 + i as u128, 10, Side::Buy)))
            .ok();
    }

    let events = ReplayEngine::replay_range(&journal, 4, 7).unwrap();
    assert_eq!(events.len(), 4);
    assert_eq!(events[0].sequence_num, 4);
    assert_eq!(events[3].sequence_num, 7);
}

#[test]
fn test_replay_range_empty_journal() {
    let journal: InMemoryJournal<()> = InMemoryJournal::new();
    let result = ReplayEngine::<()>::replay_range(&journal, 1, 5);
    assert!(matches!(result, Err(ReplayError::EmptyJournal)));
}

#[test]
fn test_replay_range_invalid_from() {
    let mut journal: InMemoryJournal<()> = InMemoryJournal::new();
    let id = OrderId::new_uuid();
    journal
        .append(add_event(1, make_order(id, 100, 10, Side::Buy)))
        .ok();

    let result = ReplayEngine::<()>::replay_range(&journal, 99, 200);
    assert!(matches!(result, Err(ReplayError::InvalidSequence { .. })));
}

#[test]
fn test_replay_with_progress_callback() {
    let mut journal: InMemoryJournal<()> = InMemoryJournal::new();
    for i in 1..=5u64 {
        let id = OrderId::new_uuid();
        journal
            .append(add_event(i, make_order(id, 100 + i as u128, 10, Side::Buy)))
            .ok();
    }

    let call_count = Arc::new(Mutex::new(0u64));
    let call_count_clone = call_count.clone();
    let (_, last_seq): (Book, u64) =
        ReplayEngine::replay_from_with_progress(&journal, 0, "BTC/USD", move |count, _seq| {
            *call_count_clone.lock().unwrap() = count;
        })
        .unwrap();

    assert_eq!(last_seq, 5);
    assert_eq!(*call_count.lock().unwrap(), 5);
}

// -------------------------------------------------------------------------
// verify / snapshots_match
// -------------------------------------------------------------------------

#[test]
fn test_verify_matching_snapshot() {
    let mut journal: InMemoryJournal<()> = InMemoryJournal::new();

    // Build the expected book in parallel
    let mut expected_book = Book::new("BTC/USD");
    for i in 1u128..=3 {
        let id = OrderId::new_uuid();
        let order = make_order(id, 100 + i, 10, Side::Buy);
        journal.append(add_event(i as u64, order)).ok();
        expected_book.add_order(&order).ok();
    }

    let expected_snapshot = expected_book.create_snapshot(usize::MAX);
    let result = ReplayEngine::verify::<_, Book>(&journal, &expected_snapshot);
    assert!(result.is_ok());
    assert!(
        result.unwrap(),
        "verify should return true for matching state"
    );
}

#[test]
fn test_verify_diverged_snapshot() {
    let mut journal: InMemoryJournal<()> = InMemoryJournal::new();
    let id = OrderId::new_uuid();
    journal
        .append(add_event(1, make_order(id, 100, 10, Side::Buy)))
        .ok();

    // Build a snapshot that does NOT match (different book)
    let mut other_book = Book::new("BTC/USD");
    let other_id = OrderId::new_uuid();
    other_book
        .add_order(&make_order(other_id, 999, 50, Side::Buy))
        .ok();
    let other_snapshot = other_book.create_snapshot(usize::MAX);

    let result = ReplayEngine::verify::<_, Book>(&journal, &other_snapshot);
    assert!(result.is_ok());
    assert!(
        !result.unwrap(),
        "verify should return false for diverged state"
    );
}

#[test]
fn test_verify_empty_journal() {
    let journal: InMemoryJournal<()> = InMemoryJournal::new();
    let snapshot = Book::new("BTC/USD").create_snapshot(usize::MAX);
    let result = ReplayEngine::verify::<_, Book>(&journal, &snapshot);
    assert!(matches!(result, Err(ReplayError::EmptyJournal)));
}

#[test]
fn test_snapshots_match_empty_books() {
    let a = OrderBookSnapshot {
        symbol: "BTC/USD".to_string(),
        timestamp: 0,
        bids: vec![],
        asks: vec![],
    };
    let b = OrderBookSnapshot {
        symbol: "BTC/USD".to_string(),
        timestamp: 999,
        bids: vec![],
        asks: vec![],
    };
    assert!(snapshots_match(&a, &b));
}

#[test]
fn test_snapshots_match_different_symbols() {
    let a = OrderBookSnapshot {
        symbol: "BTC/USD".to_string(),
        timestamp: 0,
        bids: vec![],
        asks: vec![],
    };
    let b = OrderBookSnapshot {
        symbol: "ETH/USD".to_string(),
        timestamp: 0,
        bids: vec![],
        asks: vec![],
    };
    assert!(!snapshots_match(&a, &b));
}
