//! The append-only log of sequencer events and its in-memory implementation.
//!
//! A journal keeps events in the order they were appended. It does not check
//! sequence numbers: ordering is the sequencer's business. A read selects the
//! stored events whose sequence number lies in the bounds, in stored order,
//! which is ascending order whenever the stored log is ascending.

use crate::event::SequencerEvent;
use crate::replay::ReplayError;
use vstd::prelude::*;

verus! {

/// The events with `from <= sequence_num <= to`, in the order given.
pub open spec fn events_between<T>(events: Seq<SequencerEvent<T>>, from: u64, to: u64) -> Seq<
    SequencerEvent<T>,
> {
    events.filter(|e: SequencerEvent<T>| from <= e.sequence_num <= to)
}

/// The events with `sequence_num >= from`, in the order given.
pub open spec fn events_from<T>(events: Seq<SequencerEvent<T>>, from: u64) -> Seq<
    SequencerEvent<T>,
> {
    events.filter(|e: SequencerEvent<T>| e.sequence_num >= from)
}

/// The sequence number of the last event, if there is one.
pub open spec fn last_sequence_of<T>(events: Seq<SequencerEvent<T>>) -> Option<u64> {
    if events.len() == 0 {
        None
    } else {
        Some(events.last().sequence_num)
    }
}

/// The events that a vector of references points at.
pub open spec fn pointees<T>(found: Seq<&SequencerEvent<T>>) -> Seq<SequencerEvent<T>> {
    Seq::new(found.len(), |i: int| *found[i])
}

/// Whether the sequence numbers never go down from one event to the next.
pub open spec fn is_ascending<T>(events: Seq<SequencerEvent<T>>) -> bool {
    forall|i: int, j: int|
        0 <= i < j < events.len() ==> (#[trigger] events[i]).sequence_num <= (
        #[trigger] events[j]).sequence_num
}

/// An append-only log of events.
pub trait Journal<T>: Sized {
    /// The stored events, in the order they were appended.
    spec fn log(&self) -> Seq<SequencerEvent<T>>;

    /// Stores an event behind those already stored. An append that fails
    /// leaves the journal as it was.
    fn append(&mut self, event: SequencerEvent<T>) -> (r: Result<(), ReplayError>)
        ensures
            r is Ok ==> final(self).log() == old(self).log().push(event),
            r is Err ==> final(self).log() == old(self).log(),
    ;

    /// The stored events with `sequence_num >= from_sequence`, in stored order.
    fn read_from(&self, from_sequence: u64) -> (found: Vec<&SequencerEvent<T>>)
        ensures
            pointees(found@) == events_from(self.log(), from_sequence),
    ;

    /// The stored events with `from_sequence <= sequence_num <= to_sequence`,
    /// in stored order.
    fn read_range(&self, from_sequence: u64, to_sequence: u64) -> (found: Vec<&SequencerEvent<T>>)
        ensures
            pointees(found@) == events_between(self.log(), from_sequence, to_sequence),
    ;

    /// The number of stored events.
    fn len(&self) -> (n: usize)
        ensures
            n == self.log().len(),
    ;

    /// Whether nothing has been appended.
    fn is_empty(&self) -> (r: bool)
        ensures
            r == (self.log().len() == 0),
    {
        self.len() == 0
    }

    /// The sequence number of the event appended last, if there is one.
    fn last_sequence(&self) -> (r: Option<u64>)
        ensures
            r == last_sequence_of(self.log()),
    ;
}

/// A journal that keeps its events in memory.
#[derive(Debug)]
#[verifier::reject_recursive_types(T)]
pub struct InMemoryJournal<T> {
    events: Vec<SequencerEvent<T>>,
}

impl<T> InMemoryJournal<T> {
    /// An empty journal.
    #[must_use]
    pub fn new() -> (journal: Self)
        ensures
            journal.log() == Seq::<SequencerEvent<T>>::empty(),
    {
        Self { events: Vec::new() }
    }

    /// An empty journal with room set aside for `capacity` events.
    #[must_use]
    pub fn with_capacity(capacity: usize) -> (journal: Self)
        ensures
            journal.log() == Seq::<SequencerEvent<T>>::empty(),
    {
        Self { events: Vec::with_capacity(capacity) }
    }

    /// All stored events, in the order they were appended.
    #[must_use]
    pub fn events(&self) -> (stored: &[SequencerEvent<T>])
        ensures
            stored@ == self.log(),
    {
        self.events.as_slice()
    }

    /// The stored events whose sequence number lies in the bounds.
    fn select(&self, from_sequence: u64, to_sequence: u64) -> (found: Vec<&SequencerEvent<T>>)
        ensures
            pointees(found@) == events_between(self.log(), from_sequence, to_sequence),
    {
        let ghost wanted = |e: SequencerEvent<T>| from_sequence <= e.sequence_num <= to_sequence;
        let mut found: Vec<&SequencerEvent<T>> = Vec::new();
        let mut i: usize = 0;
        proof {
            reveal(Seq::filter);
            assert(self.events@.take(0) =~= Seq::<SequencerEvent<T>>::empty());
            assert(pointees(found@) =~= self.events@.take(0).filter(wanted));
        }
        while i < self.events.len()
            invariant
                i <= self.events.len(),
                wanted == (|e: SequencerEvent<T>| from_sequence <= e.sequence_num <= to_sequence),
                pointees(found@) == self.events@.take(i as int).filter(wanted),
            decreases self.events.len() - i,
        {
            let event = &self.events[i];
            let ghost before = found@;
            proof {
                reveal(Seq::filter);
                assert(self.events@.take(i + 1).drop_last() =~= self.events@.take(i as int));
            }
            if event.sequence_num >= from_sequence && event.sequence_num <= to_sequence {
                found.push(event);
                assert(pointees(found@) =~= pointees(before).push(*event));
            }
            i = i + 1;
        }
        assert(self.events@.take(self.events.len() as int) =~= self.events@);
        found
    }
}

impl<T> Default for InMemoryJournal<T> {
    fn default() -> (journal: Self)
        ensures
            journal.log() == Seq::<SequencerEvent<T>>::empty(),
    {
        Self::new()
    }
}

impl<T> Journal<T> for InMemoryJournal<T> {
    closed spec fn log(&self) -> Seq<SequencerEvent<T>> {
        self.events@
    }

    /// Stores the event; this never fails.
    fn append(&mut self, event: SequencerEvent<T>) -> (r: Result<(), ReplayError>)
        ensures
            r is Ok,
    {
        self.events.push(event);
        Ok(())
    }

    fn read_from(&self, from_sequence: u64) -> (found: Vec<&SequencerEvent<T>>) {
        let found = self.select(from_sequence, u64::MAX);
        proof {
            lemma_from_is_between(self.events@, from_sequence);
        }
        found
    }

    fn read_range(&self, from_sequence: u64, to_sequence: u64) -> (found: Vec<
        &SequencerEvent<T>,
    >) {
        self.select(from_sequence, to_sequence)
    }

    #[inline]
    fn len(&self) -> (n: usize) {
        self.events.len()
    }

    #[inline]
    fn last_sequence(&self) -> (r: Option<u64>) {
        let n = self.events.len();
        if n == 0 {
            None
        } else {
            Some(self.events[n - 1].sequence_num)
        }
    }
}

/// Reading from a sequence number on is reading a range with no upper bound.
pub proof fn lemma_from_is_between<T>(events: Seq<SequencerEvent<T>>, from: u64)
    ensures
        events_from(events, from) == events_between(events, from, u64::MAX),
    decreases events.len(),
{
    reveal(Seq::filter);
    if events.len() > 0 {
        lemma_from_is_between(events.drop_last(), from);
    }
}

/// Reading from sequence number 0 on gives every stored event.
pub proof fn lemma_read_from_zero<T>(events: Seq<SequencerEvent<T>>)
    ensures
        events_from(events, 0) == events,
    decreases events.len(),
{
    reveal(Seq::filter);
    if events.len() > 0 {
        lemma_read_from_zero(events.drop_last());
        assert(events.drop_last().push(events.last()) =~= events);
    }
}

/// A read selects the stored events in the bounds and no others, and keeps
/// their order: of an ascending log it gives an ascending selection.
pub proof fn lemma_read_range_selects<T>(events: Seq<SequencerEvent<T>>, from: u64, to: u64)
    ensures
        forall|i: int|
            0 <= i < events_between(events, from, to).len() ==> from <= (
            #[trigger] events_between(events, from, to)[i]).sequence_num <= to,
        forall|i: int|
            0 <= i < events.len() && from <= (#[trigger] events[i]).sequence_num <= to
                ==> events_between(events, from, to).contains(events[i]),
        forall|i: int|
            0 <= i < events_between(events, from, to).len() ==> events.contains(
                #[trigger] events_between(events, from, to)[i],
            ),
        is_ascending(events) ==> is_ascending(events_between(events, from, to)),
    decreases events.len(),
{
    reveal(Seq::filter);
    let wanted = |e: SequencerEvent<T>| from <= e.sequence_num <= to;
    let found = events_between(events, from, to);
    if events.len() > 0 {
        let front = events.drop_last();
        let before = events_between(front, from, to);
        lemma_read_range_selects(front, from, to);
        assert forall|i: int|
            0 <= i < events.len() && from <= (#[trigger] events[i]).sequence_num <= to implies found.contains(
            events[i],
        ) by {
            if i < front.len() {
                assert(front[i] == events[i]);
                let at = choose|at: int| 0 <= at < before.len() && before[at] == events[i];
                assert(found[at] == events[i]);
            } else {
                assert(found.last() == events[i]);
            }
        }
        assert forall|i: int| 0 <= i < found.len() implies events.contains(#[trigger] found[i]) by {
            if i < before.len() {
                let at = choose|at: int| 0 <= at < front.len() && front[at] == before[i];
                assert(events[at] == found[i]);
            } else {
                assert(events[events.len() - 1] == found[i]);
            }
        }
        if is_ascending(events) {
            assert(is_ascending(front)) by {
                assert forall|i: int, j: int| 0 <= i < j < front.len() implies (
                #[trigger] front[i]).sequence_num <= (#[trigger] front[j]).sequence_num by {
                    assert(front[i] == events[i] && front[j] == events[j]);
                }
            }
            assert forall|i: int, j: int| 0 <= i < j < found.len() implies (
            #[trigger] found[i]).sequence_num <= (#[trigger] found[j]).sequence_num by {
                if j < before.len() {
                    assert(found[i] == before[i] && found[j] == before[j]);
                } else {
                    assert(found[i] == before[i]);
                    let at = choose|at: int| 0 <= at < front.len() && front[at] == before[i];
                    assert(events[at] == found[i]);
                    assert(events[events.len() - 1] == found[j]);
                }
            }
        }
    }
}

} // verus!
