//! Tests for the sequencer: ordering, listeners, receipts and rejected commands.

use pricelevel::{Hash32, OrderId, OrderType, Side, TimeInForce};
use sequencer::book::{OrderBook, OrderBookError};
use sequencer::engine::{Sequencer, SequencerError, DEFAULT_CAPACITY};
use sequencer::journal::{InMemoryJournal, Journal};
use sequencer::replay::{ReplayEngine, ReplayError};
use sequencer::resting::RestingBook;
use sequencer::{SequencerCommand, SequencerEvent, SequencerReceipt, SequencerResult};
use std::sync::{Arc, Mutex};

type Book = RestingBook<()>;
type Callback = Box<dyn Fn(&SequencerEvent<()>) + Send + Sync>;

fn make_order(price: u128, quantity: u64, side: Side) -> OrderType<()> {
    OrderType::Standard {
        id: OrderId::new_uuid(),
        price,
        quantity,
        side,
        user_id: Hash32::zero(),
        timestamp: 0,
        time_in_force: TimeInForce::Gtc,
        extra_fields: (),
    }
}

fn fresh() -> Sequencer<(), Book, Callback> {
    Sequencer::new(Book::new("BTC/USD"))
}

#[test]
fn test_monotonic_sequence_numbers() {
    let mut sequencer = fresh();

    let sequences = Arc::new(Mutex::new(Vec::new()));
    let sequences_clone = sequences.clone();

    sequencer.add_listener(Box::new(move |event| {
        sequences_clone.lock().unwrap().push(event.sequence_num);
    }));

    for i in 0..100 {
        let order = make_order(100 + i, 1000, Side::Buy);
        sequencer.process(SequencerCommand::AddOrder(order));
    }

    let seq_vec = sequences.lock().unwrap();
    assert_eq!(seq_vec.len(), 100);

    for i in 0..seq_vec.len() {
        assert_eq!(seq_vec[i], (i + 1) as u64);
    }
}

#[test]
fn test_no_gaps_in_sequence() {
    let mut sequencer = fresh();

    let sequences = Arc::new(Mutex::new(Vec::new()));
    let sequences_clone = sequences.clone();

    sequencer.add_listener(Box::new(move |event| {
        sequences_clone.lock().unwrap().push(event.sequence_num);
    }));

    for i in 0..1000 {
        let order = make_order(100 + i, 1000, Side::Buy);
        sequencer.process(SequencerCommand::AddOrder(order));
    }

    let seq_vec = sequences.lock().unwrap();
    assert_eq!(seq_vec.len(), 1000);

    for i in 0..seq_vec.len() - 1 {
        assert_eq!(seq_vec[i + 1], seq_vec[i] + 1);
    }
}

#[test]
fn test_timestamps_monotonic() {
    let mut sequencer = fresh();

    let timestamps = Arc::new(Mutex::new(Vec::new()));
    let timestamps_clone = timestamps.clone();

    sequencer.add_listener(Box::new(move |event| {
        timestamps_clone.lock().unwrap().push(event.timestamp_ns);
    }));

    for i in 0..100 {
        let order = make_order(100 + i, 1000, Side::Buy);
        sequencer.process(SequencerCommand::AddOrder(order));
    }

    let ts_vec = timestamps.lock().unwrap();
    assert_eq!(ts_vec.len(), 100);

    for i in 0..ts_vec.len() - 1 {
        assert!(ts_vec[i + 1] >= ts_vec[i], "Timestamps must be monotonic");
    }
}

#[test]
fn test_invalid_cancel_rejected() {
    let mut sequencer = fresh();

    let receipt = sequencer.process(SequencerCommand::CancelOrder(OrderId::new()));
    assert!(receipt.result.is_rejected());
}

#[test]
fn test_sequence_continues_after_error() {
    let mut sequencer = fresh();

    let receipt1 = sequencer.process(SequencerCommand::CancelOrder(OrderId::new()));
    assert!(receipt1.result.is_rejected());
    assert_eq!(receipt1.sequence_num, 1);

    let order = make_order(100, 1000, Side::Buy);
    let receipt2 = sequencer.process(SequencerCommand::AddOrder(order));
    assert!(receipt2.result.is_success());
    assert_eq!(receipt2.sequence_num, 2);
}

#[test]
fn test_receipt_success_flag() {
    let mut sequencer = fresh();

    let order = make_order(100, 1000, Side::Buy);
    let receipt = sequencer.process(SequencerCommand::AddOrder(order));
    assert!(receipt.is_success());
    assert!(matches!(receipt.result, SequencerResult::OrderAdded { .. }));
}

#[test]
fn test_multiple_listeners() {
    let mut sequencer = fresh();

    let count1 = Arc::new(Mutex::new(0));
    let count2 = Arc::new(Mutex::new(0));

    let count1_clone = count1.clone();
    let count2_clone = count2.clone();

    sequencer.add_listener(Box::new(move |_event| {
        *count1_clone.lock().unwrap() += 1;
    }));

    sequencer.add_listener(Box::new(move |_event| {
        *count2_clone.lock().unwrap() += 1;
    }));

    for i in 0..50 {
        let order = make_order(100 + i, 1000, Side::Buy);
        sequencer.process(SequencerCommand::AddOrder(order));
    }

    assert_eq!(*count1.lock().unwrap(), 50);
    assert_eq!(*count2.lock().unwrap(), 50);
}

#[test]
fn test_concurrent_submissions() {
    let mut sequencer = fresh();

    let sequences = Arc::new(Mutex::new(Vec::new()));
    let sequences_clone = sequences.clone();

    sequencer.add_listener(Box::new(move |event| {
        sequences_clone.lock().unwrap().push(event.sequence_num);
    }));

    let (sender, mut receiver) = tokio::sync::mpsc::channel::<(
        SequencerCommand<()>,
        tokio::sync::oneshot::Sender<SequencerReceipt>,
    )>(sequencer.capacity());

    let runtime = tokio::runtime::Builder::new_current_thread()
        .build()
        .unwrap();
    let receipts = runtime.block_on(async move {
        let writer = tokio::spawn(async move {
            while let Some((command, reply)) = receiver.recv().await {
                let _ = reply.send(sequencer.process(command));
            }
        });

        let mut handles = Vec::new();
        for i in 0..10 {
            let sender_clone = sender.clone();
            let handle = tokio::spawn(async move {
                let mut receipts = Vec::new();
                for j in 0..10 {
                    let order = make_order(100 + i * 10 + j, 1000, Side::Buy);
                    let command = SequencerCommand::AddOrder(order);
                    let (tx, rx) = tokio::sync::oneshot::channel();
                    sender_clone.send((command, tx)).await.ok();
                    receipts.push(rx.await.unwrap());
                }
                receipts
            });
            handles.push(handle);
        }

        let mut receipts = Vec::new();
        for handle in handles {
            receipts.extend(handle.await.unwrap());
        }
        drop(sender);
        writer.await.unwrap();
        receipts
    });

    let seq_vec = sequences.lock().unwrap();
    assert_eq!(seq_vec.len(), 100);

    for i in 0..seq_vec.len() {
        assert_eq!(seq_vec[i], (i + 1) as u64);
    }

    assert_eq!(receipts.len(), 100);
    assert!(receipts.iter().all(|receipt| receipt.is_success()));
    let mut numbers: Vec<u64> = receipts.iter().map(|receipt| receipt.sequence_num).collect();
    numbers.sort();
    assert_eq!(numbers, (1..=100).collect::<Vec<u64>>());
}

#[test]
fn test_sequencer_journal_replay_cycle() {
    let mut sequencer = fresh();

    let journal = Arc::new(Mutex::new(InMemoryJournal::<()>::with_capacity(64)));
    let journal_clone = journal.clone();

    sequencer.add_listener(Box::new(move |event| {
        // Build an owned event for the journal
        let stored = SequencerEvent::new(
            event.sequence_num,
            event.timestamp_ns,
            event.command.clone(),
            if event.result.is_success() {
                match &event.command {
                    SequencerCommand::AddOrder(o) => {
                        SequencerResult::OrderAdded { order_id: o.id() }
                    }
                    SequencerCommand::CancelOrder(id) => {
                        SequencerResult::OrderCancelled { order_id: *id }
                    }
                }
            } else {
                SequencerResult::Rejected {
                    error: OrderBookError::OrderNotFound("replay-placeholder".to_string()),
                }
            },
        );
        journal_clone.lock().unwrap().append(stored).ok();
    }));

    // Submit 5 buy orders
    let mut submitted_ids = Vec::new();
    for i in 1u128..=5 {
        let id = OrderId::new_uuid();
        submitted_ids.push(id);
        let order = OrderType::Standard {
            id,
            price: 100 + i,
            quantity: 10,
            side: Side::Buy,
            user_id: Hash32::zero(),
            timestamp: 0,
            time_in_force: TimeInForce::Gtc,
            extra_fields: (),
        };
        sequencer.process(SequencerCommand::AddOrder(order));
    }

    let j = journal.lock().unwrap();
    assert_eq!(j.len(), 5, "journal should have 5 events");

    // Replay and verify
    let (replayed_book, last_seq): (Book, u64) =
        ReplayEngine::replay_from(&*j, 0, "BTC/USD").unwrap();
    assert_eq!(last_seq, 5);
    let snap = replayed_book.create_snapshot(usize::MAX);
    assert_eq!(snap.bids.len(), 5);
    assert_eq!(snap.asks.len(), 0);
}

// -------------------------------------------------------------------------
// Further cases
// -------------------------------------------------------------------------

#[test]
fn new_sequencer_has_default_capacity() {
    let sequencer = fresh();
    assert_eq!(DEFAULT_CAPACITY, 65536);
    assert_eq!(sequencer.capacity(), 65536);
    let sized: Sequencer<(), Book, Callback> = Sequencer::with_capacity(Book::new("BTC/USD"), 8);
    assert_eq!(sized.capacity(), 8);
}

#[test]
fn shutdown_message() {
    assert_eq!(SequencerError::Shutdown.message(), "sequencer has been shut down");
    assert_eq!(SequencerError::Shutdown, SequencerError::Shutdown);
}

#[test]
fn rejected_cancel_names_the_order() {
    let mut sequencer = fresh();
    let id = OrderId::sequential(42);
    let receipt = sequencer.process(SequencerCommand::CancelOrder(id));
    match receipt.result {
        SequencerResult::Rejected { error: OrderBookError::OrderNotFound(text) } => {
            assert_eq!(text, "order 42 not found");
        }
        other => panic!("unexpected result: {:?}", other),
    }
}

#[test]
fn rejected_cancel_does_not_halt_and_book_holds_one_bid() {
    let mut sequencer = fresh();
    let seen = Arc::new(Mutex::new(Vec::new()));
    let seen_clone = seen.clone();
    sequencer.add_listener(Box::new(move |event| {
        seen_clone.lock().unwrap().push((
            event.sequence_num,
            event.timestamp_ns,
            event.result.is_rejected(),
        ));
    }));
    let journal = Arc::new(Mutex::new(InMemoryJournal::<()>::new()));
    let journal_clone = journal.clone();
    sequencer.add_listener(Box::new(move |event| {
        let result = match &event.result {
            SequencerResult::OrderAdded { order_id } => {
                SequencerResult::OrderAdded { order_id: *order_id }
            }
            SequencerResult::OrderCancelled { order_id } => {
                SequencerResult::OrderCancelled { order_id: *order_id }
            }
            _ => SequencerResult::Rejected {
                error: OrderBookError::OrderNotFound("rejected".to_string()),
            },
        };
        let stored = SequencerEvent::new(
            event.sequence_num,
            event.timestamp_ns,
            event.command.clone(),
            result,
        );
        journal_clone.lock().unwrap().append(stored).ok();
    }));

    let first = sequencer.process_at(SequencerCommand::CancelOrder(OrderId::new()), 7);
    assert!(first.result.is_rejected());
    assert_eq!(first.sequence_num, 1);
    let second =
        sequencer.process_at(SequencerCommand::AddOrder(make_order(100, 1000, Side::Buy)), 9);
    assert!(second.result.is_success());
    assert_eq!(second.sequence_num, 2);

    assert_eq!(*seen.lock().unwrap(), vec![(1, 7, true), (2, 9, false)]);

    // the journal holds both events; the replayed book holds one bid at 100
    let j = journal.lock().unwrap();
    let numbers: Vec<u64> = j.read_from(0).iter().map(|e| e.sequence_num).collect();
    assert_eq!(numbers, vec![1, 2]);
    let (book, last): (Book, u64) = ReplayEngine::replay_from(&*j, 0, "BTC/USD").unwrap();
    assert_eq!(last, 2);
    let snap = book.create_snapshot(usize::MAX);
    assert_eq!(snap.bids.len(), 1);
    assert_eq!(snap.bids[0].price, 100);
    assert_eq!(snap.bids[0].visible_quantity, 1000);
    assert_eq!(snap.asks.len(), 0);
}

#[test]
fn duplicate_order_is_rejected_and_book_unchanged() {
    let mut sequencer = fresh();
    let order = make_order(100, 10, Side::Sell);
    let first = sequencer.process(SequencerCommand::AddOrder(order));
    assert!(matches!(first.result, SequencerResult::OrderAdded { order_id } if order_id == order.id()));
    let second = sequencer.process(SequencerCommand::AddOrder(order));
    match second.result {
        SequencerResult::Rejected { error: OrderBookError::InvalidOperation { message } } => {
            assert_eq!(message, "an order with this id already rests in the book");
        }
        other => panic!("unexpected result: {:?}", other),
    }
    assert_eq!(second.sequence_num, 2);
    let cancelled = sequencer.process(SequencerCommand::CancelOrder(order.id()));
    assert!(matches!(cancelled.result, SequencerResult::OrderCancelled { order_id } if order_id == order.id()));
    assert_eq!(cancelled.sequence_num, 3);
}

#[test]
fn replay_reports_the_refused_event() {
    let mut journal: InMemoryJournal<()> = InMemoryJournal::new();
    let order = make_order(100, 10, Side::Buy);
    for seq in [4u64, 9u64] {
        journal
            .append(SequencerEvent::new(
                seq,
                0,
                SequencerCommand::AddOrder(order),
                SequencerResult::OrderAdded { order_id: order.id() },
            ))
            .unwrap();
    }
    let result: Result<(Book, u64), ReplayError> = ReplayEngine::replay_from(&journal, 0, "X");
    match result {
        Err(ReplayError::OrderBookError { sequence_num, source }) => {
            assert_eq!(sequence_num, 9);
            assert!(matches!(source, OrderBookError::InvalidOperation { .. }));
        }
        _ => panic!("the second add of one order must end the replay"),
    }
}
