//! Rebuilding a book from a journal.
//!
//! A replay opens a fresh book and applies, in stored order, the journal's
//! events from a sequence number on. Events that were rejected when they were
//! recorded are passed over; a cancel that finds no order is tolerated. The
//! first event that the book refuses ends the replay with an error.

use crate::book::{shows, OrderBook, OrderBookError, OrderBookErrorView};
use crate::command::SequencerCommand;
use crate::event::SequencerEvent;
use crate::journal::{events_between, events_from, pointees, Journal};
pub use crate::snapshot::snapshots_match;
use crate::snapshot::{book_matches, snapshots_match_spec, OrderBookSnapshot};
use std::marker::PhantomData;
use vstd::prelude::*;

verus! {

/// Why a replay, or a journal operation, failed.
#[derive(Debug)]
pub enum ReplayError {
    /// The journal holds no events.
    EmptyJournal,
    /// The requested start lies behind the last stored event.
    InvalidSequence {
        /// The sequence number asked for.
        from_sequence: u64,
        /// The sequence number of the last stored event.
        last_sequence: u64,
    },
    /// A sequence number is missing between two stored events.
    SequenceGap {
        /// The sequence number that should have come next.
        expected: u64,
        /// The sequence number that came instead.
        found: u64,
    },
    /// The book refused an event that it had accepted when it was recorded.
    OrderBookError {
        /// The sequence number of the refused event.
        sequence_num: u64,
        /// The error that the book reported.
        source: OrderBookError,
    },
    /// The rebuilt book differs from the expected snapshot.
    SnapshotMismatch,
}

/// The refusal that ends a replay: the sequence number of the refused event
/// and the book's error.
pub struct Refusal {
    pub sequence_num: u64,
    pub error: OrderBookErrorView,
}

/// Whether a replay error reports the given refusal.
pub open spec fn reports(error: ReplayError, refusal: Refusal) -> bool {
    error matches ReplayError::OrderBookError { sequence_num, source } && sequence_num
        == refusal.sequence_num && source@ == refusal.error
}

/// The state of a book after one event is applied to it, or the book's error.
pub open spec fn state_after_event<T, B: OrderBook<T>>(
    state: B::V,
    event: SequencerEvent<T>,
) -> Result<B::V, OrderBookErrorView> {
    if event.result is Rejected {
        Ok(state)
    } else {
        match event.command {
            SequencerCommand::AddOrder(order) => B::add_result(state, order),
            SequencerCommand::CancelOrder(order_id) => match B::cancel_result(state, order_id) {
                Ok(Some(next)) => Ok(next),
                Ok(None) => Ok(state),
                Err(error) => Err(error),
            },
        }
    }
}

/// The state of a book after the events are applied in order, or the first
/// refusal.
pub open spec fn state_after_events<T, B: OrderBook<T>>(
    state: B::V,
    events: Seq<SequencerEvent<T>>,
) -> Result<B::V, Refusal>
    decreases events.len(),
{
    if events.len() == 0 {
        Ok(state)
    } else {
        match state_after_events::<T, B>(state, events.drop_last()) {
            Err(refusal) => Err(refusal),
            Ok(reached) => match state_after_event::<T, B>(reached, events.last()) {
                Ok(next) => Ok(next),
                Err(error) => Err(Refusal { sequence_num: events.last().sequence_num, error }),
            },
        }
    }
}

/// The number of events that are applied before the replay ends: all of them,
/// or those before the first that the book refuses.
pub open spec fn applied_count<T, B: OrderBook<T>>(
    state: B::V,
    events: Seq<SequencerEvent<T>>,
) -> nat
    decreases events.len(),
{
    if events.len() == 0 {
        0
    } else {
        match state_after_events::<T, B>(state, events.drop_last()) {
            Err(_) => applied_count::<T, B>(state, events.drop_last()),
            Ok(reached) => match state_after_event::<T, B>(reached, events.last()) {
                Ok(_) => events.len(),
                Err(_) => (events.len() - 1) as nat,
            },
        }
    }
}

/// The sequence number of the last of the events, 0 where there is none.
pub open spec fn last_applied<T>(events: Seq<SequencerEvent<T>>) -> u64 {
    if events.len() == 0 {
        0
    } else {
        events.last().sequence_num
    }
}

/// The error with which every replay entry point turns a request down before
/// it reads an event, if it does.
pub open spec fn entry_error<T>(log: Seq<SequencerEvent<T>>, from_sequence: u64) -> Option<
    ReplayError,
> {
    if log.len() == 0 {
        Some(ReplayError::EmptyJournal)
    } else if from_sequence > log.last().sequence_num {
        Some(
            ReplayError::InvalidSequence {
                from_sequence,
                last_sequence: log.last().sequence_num,
            },
        )
    } else {
        None
    }
}

/// Whether `outcome` is what replaying `log` from `from_sequence` on, into a
/// fresh book for `symbol`, gives.
pub open spec fn is_replay_of<T, B: OrderBook<T>>(
    outcome: Result<(B, u64), ReplayError>,
    log: Seq<SequencerEvent<T>>,
    from_sequence: u64,
    symbol: Seq<char>,
) -> bool {
    match entry_error(log, from_sequence) {
        Some(error) => outcome is Err && outcome->Err_0 == error,
        None => match state_after_events::<T, B>(
            B::opened(symbol),
            events_from(log, from_sequence),
        ) {
            Ok(state) => outcome is Ok && outcome->Ok_0.0@ == state && outcome->Ok_0.1
                == last_applied(events_from(log, from_sequence)),
            Err(refusal) => outcome is Err && reports(outcome->Err_0, refusal),
        },
    }
}

/// Whether `outcome` is what comparing the replay of the whole `log` with
/// `expected` gives.
pub open spec fn is_verdict_of<T, B: OrderBook<T>>(
    outcome: Result<bool, ReplayError>,
    log: Seq<SequencerEvent<T>>,
    expected: OrderBookSnapshot,
) -> bool {
    match entry_error(log, 0) {
        Some(error) => outcome is Err && outcome->Err_0 == error,
        None => match state_after_events::<T, B>(
            B::opened(expected.symbol@),
            events_from(log, 0),
        ) {
            Ok(state) => outcome is Ok && outcome->Ok_0 == book_matches(
                B::symbol_of(state),
                B::bid_keys(state, usize::MAX),
                B::ask_keys(state, usize::MAX),
                expected,
            ),
            Err(refusal) => outcome is Err && reports(outcome->Err_0, refusal),
        },
    }
}

/// The replay operations. The type holds no state: it names the payload type
/// that the operations share.
pub struct ReplayEngine<T> {
    _phantom: PhantomData<T>,
}

impl<T> ReplayEngine<T> {
    /// Turns a request down where the journal is empty or the start lies
    /// behind its last event.
    fn check_entry<J: Journal<T>>(journal: &J, from_sequence: u64) -> (r: Result<(), ReplayError>)
        ensures
            match entry_error(journal.log(), from_sequence) {
                Some(error) => r is Err && r->Err_0 == error,
                None => r is Ok,
            },
    {
        if journal.is_empty() {
            return Err(ReplayError::EmptyJournal);
        }
        match journal.last_sequence() {
            Some(last_sequence) => {
                if from_sequence > last_sequence {
                    return Err(ReplayError::InvalidSequence { from_sequence, last_sequence });
                }
            },
            None => {},
        }
        Ok(())
    }

    /// Replays the events from `from_sequence` on into a fresh book for
    /// `symbol`, and returns the book with the sequence number of the last
    /// event read.
    pub fn replay_from<J: Journal<T>, B: OrderBook<T>>(
        journal: &J,
        from_sequence: u64,
        symbol: &str,
    ) -> (r: Result<(B, u64), ReplayError>)
        ensures
            is_replay_of::<T, B>(r, journal.log(), from_sequence, symbol@),
    {
        let silent = |_applied: u64, _sequence: u64| {};
        Self::replay_from_with_progress(journal, from_sequence, symbol, silent)
    }

    /// Replays as [`replay_from`](Self::replay_from) does, and calls
    /// `progress` after each event with the number of events read so far and
    /// the sequence number of the event.
    pub fn replay_from_with_progress<J: Journal<T>, B: OrderBook<T>, P: Fn(u64, u64)>(
        journal: &J,
        from_sequence: u64,
        symbol: &str,
        progress: P,
    ) -> (r: Result<(B, u64), ReplayError>)
        requires
            forall|applied: u64, sequence: u64| call_requires(progress, (applied, sequence)),
        ensures
            is_replay_of::<T, B>(r, journal.log(), from_sequence, symbol@),
            entry_error(journal.log(), from_sequence) is None ==> forall|k: int|
                0 <= k < applied_count::<T, B>(
                    B::opened(symbol@),
                    events_from(journal.log(), from_sequence),
                ) ==> call_ensures(
                    progress,
                    ((k + 1) as u64, #[trigger] events_from(journal.log(), from_sequence)[k].sequence_num),
                    (),
                ),
    {
        match Self::check_entry(journal, from_sequence) {
            Err(error) => {
                return Err(error);
            },
            Ok(()) => {},
        }
        let mut book = B::new(symbol);
        let mut last_seq: u64 = 0;
        let mut count: u64 = 0;
        let window = journal.read_from(from_sequence);
        let ghost events = events_from(journal.log(), from_sequence);
        let mut i: usize = 0;
        assert(events.take(0) =~= Seq::<SequencerEvent<T>>::empty());
        while i < window.len()
            invariant
                i <= window.len(),
                pointees(window@) == events,
                events == events_from(journal.log(), from_sequence),
                entry_error(journal.log(), from_sequence) is None,
                count == i,
                last_seq == last_applied(events.take(i as int)),
                state_after_events::<T, B>(B::opened(symbol@), events.take(i as int)) == Ok::<
                    B::V,
                    Refusal,
                >(book@),
                applied_count::<T, B>(B::opened(symbol@), events.take(i as int)) == i,
                forall|applied: u64, sequence: u64| call_requires(progress, (applied, sequence)),
                forall|k: int|
                    0 <= k < i ==> call_ensures(
                        progress,
                        ((k + 1) as u64, #[trigger] events[k].sequence_num),
                        (),
                    ),
            decreases window.len() - i,
        {
            let event = window[i];
            proof {
                assert(*window@[i as int] == pointees(window@)[i as int]);
                assert(events.take(i + 1).drop_last() =~= events.take(i as int));
                assert(events.take(i + 1).last() == events[i as int]);
            }
            match Self::apply_event(&mut book, event) {
                Err(error) => {
                    proof {
                        let front = events.take(i + 1);
                        assert(front.drop_last() == events.take(i as int));
                        assert(front.last() == *event);
                        assert(state_after_events::<T, B>(B::opened(symbol@), front) is Err);
                        assert(applied_count::<T, B>(B::opened(symbol@), front) == i);
                        lemma_refusal_stays::<T, B>(B::opened(symbol@), events, i + 1);
                    }
                    return Err(error);
                },
                Ok(()) => {},
            }
            last_seq = event.sequence_num;
            count = count + 1;
            progress(count, last_seq);
            i = i + 1;
        }
        assert(events.take(window.len() as int) =~= events);
        Ok((book, last_seq))
    }

    /// The stored events with `from_sequence <= sequence_num <= to_sequence`,
    /// in stored order. No book is built.
    #[must_use]
    pub fn replay_range<J: Journal<T>>(journal: &J, from_sequence: u64, to_sequence: u64) -> (r:
        Result<Vec<&SequencerEvent<T>>, ReplayError>)
        ensures
            match entry_error(journal.log(), from_sequence) {
                Some(error) => r is Err && r->Err_0 == error,
                None => r is Ok && pointees(r->Ok_0@) == events_between(
                    journal.log(),
                    from_sequence,
                    to_sequence,
                ),
            },
    {
        match Self::check_entry(journal, from_sequence) {
            Err(error) => Err(error),
            Ok(()) => Ok(journal.read_range(from_sequence, to_sequence)),
        }
    }

    /// Replays the whole journal into a fresh book for the symbol of
    /// `expected_snapshot` and tells whether the book's full-depth snapshot
    /// matches it.
    pub fn verify<J: Journal<T>, B: OrderBook<T>>(
        journal: &J,
        expected_snapshot: &OrderBookSnapshot,
    ) -> (r: Result<bool, ReplayError>)
        ensures
            is_verdict_of::<T, B>(r, journal.log(), *expected_snapshot),
    {
        let replayed: Result<(B, u64), ReplayError> = Self::replay_from(
            journal,
            0,
            expected_snapshot.symbol.as_str(),
        );
        match replayed {
            Err(error) => Err(error),
            Ok((book, _)) => {
                let actual = book.create_snapshot(usize::MAX);
                Ok(snapshots_match(&actual, expected_snapshot))
            },
        }
    }

    /// Applies one event to the book. An event that was rejected when it was
    /// recorded is passed over; a cancel that finds no order is tolerated.
    pub fn apply_event<B: OrderBook<T>>(book: &mut B, event: &SequencerEvent<T>) -> (r: Result<
        (),
        ReplayError,
    >)
        ensures
            match state_after_event::<T, B>(old(book)@, *event) {
                Ok(next) => r is Ok && final(book)@ == next,
                Err(error) => r is Err && reports(
                    r->Err_0,
                    Refusal { sequence_num: event.sequence_num, error },
                ) && final(book)@ == old(book)@,
            },
    {
        if event.result.is_rejected() {
            return Ok(());
        }
        match &event.command {
            SequencerCommand::AddOrder(order) => match book.add_order(order) {
                Ok(()) => Ok(()),
                Err(source) => Err(
                    ReplayError::OrderBookError { sequence_num: event.sequence_num, source },
                ),
            },
            SequencerCommand::CancelOrder(order_id) => match book.cancel_order(*order_id) {
                Ok(_) => Ok(()),
                Err(source) => Err(
                    ReplayError::OrderBookError { sequence_num: event.sequence_num, source },
                ),
            },
        }
    }
}

/// A refusal met on a front part of the events is the outcome for all of them.
pub proof fn lemma_refusal_stays<T, B: OrderBook<T>>(
    state: B::V,
    events: Seq<SequencerEvent<T>>,
    n: int,
)
    requires
        0 <= n <= events.len(),
        state_after_events::<T, B>(state, events.take(n)) is Err,
    ensures
        state_after_events::<T, B>(state, events) == state_after_events::<T, B>(
            state,
            events.take(n),
        ),
        applied_count::<T, B>(state, events) == applied_count::<T, B>(state, events.take(n)),
    decreases events.len() - n,
{
    if n < events.len() {
        assert(events.take(n + 1).drop_last() =~= events.take(n));
        lemma_refusal_stays::<T, B>(state, events, n + 1);
    } else {
        assert(events.take(n) =~= events);
    }
}

/// Error gating: a replay of an empty journal is turned down as
/// `EmptyJournal`, whatever the start; a replay that starts behind the last
/// stored event is turned down as `InvalidSequence`; any other request is
/// let in.
pub proof fn lemma_entry_errors<T>(log: Seq<SequencerEvent<T>>, from_sequence: u64)
    ensures
        log.len() == 0 ==> entry_error(log, from_sequence) == Some(ReplayError::EmptyJournal),
        log.len() > 0 && from_sequence > log.last().sequence_num ==> entry_error(log, from_sequence)
            == Some(
            ReplayError::InvalidSequence { from_sequence, last_sequence: log.last().sequence_num },
        ),
        log.len() > 0 && from_sequence <= log.last().sequence_num ==> entry_error(
            log,
            from_sequence,
        ) is None,
{
}

/// A request that is let in reads at least the last stored event, so the
/// sequence number that a replay returns is that of the last stored event.
pub proof fn lemma_last_applied<T>(log: Seq<SequencerEvent<T>>, from_sequence: u64)
    requires
        entry_error(log, from_sequence) is None,
    ensures
        events_from(log, from_sequence).len() > 0,
        last_applied(events_from(log, from_sequence)) == log.last().sequence_num,
{
    reveal(Seq::filter);
}

/// Replay determinism: two replays of one journal from one start for one
/// symbol end alike. Both fail or both succeed; where they succeed, the two
/// books are in the same state, the same sequence number is returned, and
/// any snapshots taken of the two books to one depth match.
pub proof fn lemma_replay_deterministic<T, B: OrderBook<T>>(
    log: Seq<SequencerEvent<T>>,
    from_sequence: u64,
    symbol: Seq<char>,
    first: Result<(B, u64), ReplayError>,
    second: Result<(B, u64), ReplayError>,
    depth: usize,
    first_snapshot: OrderBookSnapshot,
    second_snapshot: OrderBookSnapshot,
)
    requires
        is_replay_of::<T, B>(first, log, from_sequence, symbol),
        is_replay_of::<T, B>(second, log, from_sequence, symbol),
        first is Ok ==> shows::<T, B>(first_snapshot, first->Ok_0.0@, depth),
        second is Ok ==> shows::<T, B>(second_snapshot, second->Ok_0.0@, depth),
    ensures
        first is Ok <==> second is Ok,
        first is Ok ==> first->Ok_0.0@ == second->Ok_0.0@ && first->Ok_0.1 == second->Ok_0.1,
        first is Ok ==> snapshots_match_spec(first_snapshot, second_snapshot),
{
}

/// An event that was rejected when it was recorded changes nothing in a
/// replay, wherever it stands among the events.
pub proof fn lemma_rejected_event_skipped<T, B: OrderBook<T>>(
    state: B::V,
    events: Seq<SequencerEvent<T>>,
    at: int,
    event: SequencerEvent<T>,
)
    requires
        0 <= at <= events.len(),
        event.result is Rejected,
    ensures
        state_after_events::<T, B>(state, events.insert(at, event)) == state_after_events::<T, B>(
            state,
            events,
        ),
    decreases events.len(),
{
    let longer = events.insert(at, event);
    if at == events.len() {
        assert(longer.drop_last() =~= events);
    } else {
        assert(longer.drop_last() =~= events.drop_last().insert(at, event));
        assert(longer.last() == events.last());
        lemma_rejected_event_skipped::<T, B>(state, events.drop_last(), at, event);
    }
}

/// What a read from `from` on gives of a log with one more event in it: the
/// event at its place among those read where it lies in the bounds, and what
/// it gave before where it does not.
pub proof fn lemma_read_with_insert<T>(
    log: Seq<SequencerEvent<T>>,
    at: int,
    event: SequencerEvent<T>,
    from: u64,
)
    requires
        0 <= at <= log.len(),
    ensures
        events_from(log.take(at), from).len() <= events_from(log, from).len(),
        events_from(log.insert(at, event), from) == if event.sequence_num >= from {
            events_from(log, from).insert(events_from(log.take(at), from).len() as int, event)
        } else {
            events_from(log, from)
        },
    decreases log.len(),
{
    reveal(Seq::filter);
    let longer = log.insert(at, event);
    if at == log.len() {
        assert(longer.drop_last() =~= log);
        assert(log.take(at) =~= log);
        if event.sequence_num >= from {
            assert(events_from(log, from).push(event) =~= events_from(log, from).insert(
                events_from(log, from).len() as int,
                event,
            ));
        }
    } else {
        let front = log.drop_last();
        assert(longer.drop_last() =~= front.insert(at, event));
        assert(longer.last() == log.last());
        assert(front.take(at) =~= log.take(at));
        lemma_read_with_insert(front, at, event, from);
        let place = events_from(log.take(at), from).len() as int;
        if event.sequence_num >= from && log.last().sequence_num >= from {
            assert(events_from(front, from).insert(place, event).push(log.last()) =~= events_from(
                front,
                from,
            ).push(log.last()).insert(place, event));
        }
    }
}

/// Replay idempotence under rejected skipping: putting one more rejected
/// event into a journal, at any place, changes neither the state that a
/// replay reaches nor the refusal that ends it. Put in one after the other,
/// any number of rejected events change nothing.
pub proof fn lemma_rejected_insertion_keeps_replay<T, B: OrderBook<T>>(
    log: Seq<SequencerEvent<T>>,
    at: int,
    event: SequencerEvent<T>,
    from_sequence: u64,
    symbol: Seq<char>,
)
    requires
        0 <= at <= log.len(),
        event.result is Rejected,
    ensures
        state_after_events::<T, B>(
            B::opened(symbol),
            events_from(log.insert(at, event), from_sequence),
        ) == state_after_events::<T, B>(B::opened(symbol), events_from(log, from_sequence)),
{
    lemma_read_with_insert(log, at, event, from_sequence);
    if event.sequence_num >= from_sequence {
        lemma_rejected_event_skipped::<T, B>(
            B::opened(symbol),
            events_from(log, from_sequence),
            events_from(log.take(at), from_sequence).len() as int,
            event,
        );
    }
}

/// Snapshots of two replays match where the journals differ by one rejected
/// event: the replay of the longer journal succeeds where that of the shorter
/// does, and snapshots of the two books to one depth match.
pub proof fn lemma_rejected_insertion_keeps_snapshot<T, B: OrderBook<T>>(
    log: Seq<SequencerEvent<T>>,
    at: int,
    event: SequencerEvent<T>,
    from_sequence: u64,
    symbol: Seq<char>,
    shorter: Result<(B, u64), ReplayError>,
    longer: Result<(B, u64), ReplayError>,
    depth: usize,
    shorter_snapshot: OrderBookSnapshot,
    longer_snapshot: OrderBookSnapshot,
)
    requires
        0 <= at <= log.len(),
        event.result is Rejected,
        entry_error(log, from_sequence) is None,
        entry_error(log.insert(at, event), from_sequence) is None,
        is_replay_of::<T, B>(shorter, log, from_sequence, symbol),
        is_replay_of::<T, B>(longer, log.insert(at, event), from_sequence, symbol),
        shorter is Ok ==> shows::<T, B>(shorter_snapshot, shorter->Ok_0.0@, depth),
        longer is Ok ==> shows::<T, B>(longer_snapshot, longer->Ok_0.0@, depth),
    ensures
        shorter is Ok <==> longer is Ok,
        shorter is Ok ==> shorter->Ok_0.0@ == longer->Ok_0.0@,
        shorter is Ok ==> snapshots_match_spec(longer_snapshot, shorter_snapshot),
{
    lemma_rejected_insertion_keeps_replay::<T, B>(log, at, event, from_sequence, symbol);
}

/// The events that were not rejected when they were recorded, in order.
pub open spec fn without_rejected<T>(events: Seq<SequencerEvent<T>>) -> Seq<SequencerEvent<T>> {
    events.filter(|e: SequencerEvent<T>| !(e.result is Rejected))
}

/// A replay depends on the events that were not rejected, and on nothing
/// else: journals that agree on those events replay alike.
pub proof fn lemma_only_accepted_events_count<T, B: OrderBook<T>>(
    state: B::V,
    events: Seq<SequencerEvent<T>>,
)
    ensures
        state_after_events::<T, B>(state, events) == state_after_events::<T, B>(
            state,
            without_rejected(events),
        ),
    decreases events.len(),
{
    reveal(Seq::filter);
    if events.len() > 0 {
        lemma_only_accepted_events_count::<T, B>(state, events.drop_last());
        if !(events.last().result is Rejected) {
            assert(without_rejected(events).drop_last() =~= without_rejected(events.drop_last()));
        }
    }
}

} // verus!
