//! The sequencer: one writer that gives every command its place in a total
//! order, executes it on the book, tells every listener, and answers with a
//! receipt.

use crate::book::{OrderBook, OrderBookError};
use crate::clock::nanos_since_epoch;
use crate::command::SequencerCommand;
use crate::event::SequencerEvent;
use crate::orders::order_id;
use crate::receipt::SequencerReceipt;
use crate::result::SequencerResult;
use pricelevel::{OrderId, OrderType};
use vstd::prelude::*;
use vstd::string::*;

verus! {

/// Why a submission failed.
#[derive(Debug, Clone, Copy, PartialEq, Eq, Structural)]
pub enum SequencerError {
    /// The sequencer has been shut down.
    Shutdown,
}

impl SequencerError {
    /// The error in words.
    pub fn message(&self) -> (text: String)
        ensures
            text@ == "sequencer has been shut down"@,
    {
        match self {
            SequencerError::Shutdown => String::from_str("sequencer has been shut down"),
        }
    }
}

/// The ingress capacity of a sequencer that is made without one.
pub const DEFAULT_CAPACITY: usize = 65536;

/// The sequence number that follows `sequence`. The counter wraps behind the
/// largest number.
pub open spec fn following(sequence: u64) -> u64 {
    if sequence == u64::MAX {
        0
    } else {
        (sequence + 1) as u64
    }
}

/// Whether `error` is the rejection of a cancel that found no order
/// `order_id`: it says "order", then the id as it prints, then "not found".
pub open spec fn is_not_found(error: OrderBookError, order_id: OrderId) -> bool {
    error matches OrderBookError::OrderNotFound(text) && exists|printed: String|
        #[trigger] to_string_from_display_ensures::<OrderId>(&order_id, printed) && text@
            == "order "@ + printed@ + " not found"@
}

/// Whether `result` is the outcome of executing `command` on a book in
/// `state`.
pub open spec fn is_outcome_of<T, B: OrderBook<T>>(
    result: SequencerResult,
    state: B::V,
    command: SequencerCommand<T>,
) -> bool {
    match command {
        SequencerCommand::AddOrder(order) => match B::add_result(state, order) {
            Ok(_) => result == (SequencerResult::OrderAdded { order_id: order_id(order) }),
            Err(refusal) => result matches SequencerResult::Rejected { error } && error@
                == refusal,
        },
        SequencerCommand::CancelOrder(order_id) => match B::cancel_result(state, order_id) {
            Ok(Some(_)) => result == (SequencerResult::OrderCancelled { order_id }),
            Ok(None) => result matches SequencerResult::Rejected { error } && is_not_found(
                error,
                order_id,
            ),
            Err(refusal) => result matches SequencerResult::Rejected { error } && error@
                == refusal,
        },
    }
}

/// The state of a book after `command` is executed on it in `state`. A
/// command that the book refuses, and a cancel that finds no order, leave the
/// state as it was.
pub open spec fn state_after_command<T, B: OrderBook<T>>(
    state: B::V,
    command: SequencerCommand<T>,
) -> B::V {
    match command {
        SequencerCommand::AddOrder(order) => match B::add_result(state, order) {
            Ok(next) => next,
            Err(_) => state,
        },
        SequencerCommand::CancelOrder(order_id) => match B::cancel_result(state, order_id) {
            Ok(Some(next)) => next,
            _ => state,
        },
    }
}

/// The event that records `command`, processed at `timestamp_ns` and answered
/// with `receipt`.
pub open spec fn event_of<T>(
    command: SequencerCommand<T>,
    timestamp_ns: u64,
    receipt: SequencerReceipt,
) -> SequencerEvent<T> {
    SequencerEvent { sequence_num: receipt.sequence_num, timestamp_ns, command, result: receipt.result }
}

/// A registered observer: a callback, with the record of the events that it
/// has been called with, oldest first.
#[verifier::reject_recursive_types(T)]
pub struct Listener<T, F: Fn(&SequencerEvent<T>)> {
    callback: F,
    heard: Ghost<Seq<SequencerEvent<T>>>,
}

impl<T, F: Fn(&SequencerEvent<T>)> Listener<T, F> {
    /// The events that the callback has been called with, oldest first.
    pub closed spec fn heard(&self) -> Seq<SequencerEvent<T>> {
        self.heard@
    }

    /// The callback.
    pub closed spec fn callback(&self) -> F {
        self.callback
    }

    /// The callback may be called with every event.
    #[verifier::type_invariant]
    spec fn hears_all(&self) -> bool {
        forall|event: SequencerEvent<T>| #[trigger] call_requires(self.callback, (&event,))
    }

    /// A listener that has heard nothing yet.
    pub fn new(callback: F) -> (listener: Self)
        requires
            forall|event: SequencerEvent<T>| #[trigger] call_requires(callback, (&event,)),
        ensures
            listener.callback() == callback,
            listener.heard() == Seq::<SequencerEvent<T>>::empty(),
    {
        Listener { callback, heard: Ghost(Seq::empty()) }
    }

    /// Calls the callback with the event, once.
    pub fn notify(&mut self, event: &SequencerEvent<T>)
        ensures
            final(self).callback() == old(self).callback(),
            final(self).heard() == old(self).heard().push(*event),
            call_ensures(old(self).callback(), (event,), ()),
    {
        proof {
            use_type_invariant(&*self);
            assert(call_requires(self.callback, (&*event,)));
        }
        (self.callback)(event);
        proof {
            self.heard@ = self.heard@.push(*event);
        }
    }
}

/// Builds the rejection of a cancel that found no order `order_id`.
fn order_not_found(order_id: OrderId) -> (error: OrderBookError)
    ensures
        is_not_found(error, order_id),
{
    let printed = order_id.to_string();
    let mut text = String::from_str("order ");
    text.append(printed.as_str());
    text.append(" not found");
    assert(text@ == "order "@ + printed@ + " not found"@);
    OrderBookError::OrderNotFound(text)
}

/// A single writer over a book: it numbers the commands it is given from 1
/// on, executes each on the book, and calls every listener with the event, in
/// the order the listeners were registered.
#[verifier::reject_recursive_types(T)]
pub struct Sequencer<T: Clone, B: OrderBook<T>, F: Fn(&SequencerEvent<T>)> {
    book: B,
    sequence: u64,
    capacity: usize,
    event_listeners: Vec<Listener<T, F>>,
}

impl<T: Clone, B: OrderBook<T>, F: Fn(&SequencerEvent<T>)> Sequencer<T, B, F> {
    /// The state of the book.
    pub closed spec fn book_state(&self) -> B::V {
        self.book@
    }

    /// The sequence number that the next command gets.
    pub closed spec fn next_sequence(&self) -> u64 {
        self.sequence
    }

    /// The listeners, in the order they were registered.
    pub closed spec fn listeners(&self) -> Seq<Listener<T, F>> {
        self.event_listeners@
    }

    /// The ingress capacity that the sequencer was made with.
    pub closed spec fn ingress_capacity(&self) -> usize {
        self.capacity
    }

    /// A sequencer over `book` with the default ingress capacity.
    #[must_use]
    pub fn new(book: B) -> (sequencer: Self)
        ensures
            sequencer.book_state() == book@,
            sequencer.next_sequence() == 1,
            sequencer.ingress_capacity() == DEFAULT_CAPACITY,
            sequencer.listeners().len() == 0,
    {
        Self::with_capacity(book, DEFAULT_CAPACITY)
    }

    /// A sequencer over `book` whose ingress holds up to `capacity` commands.
    #[must_use]
    pub fn with_capacity(book: B, capacity: usize) -> (sequencer: Self)
        ensures
            sequencer.book_state() == book@,
            sequencer.next_sequence() == 1,
            sequencer.ingress_capacity() == capacity,
            sequencer.listeners().len() == 0,
    {
        Sequencer { book, sequence: 1, capacity, event_listeners: Vec::new() }
    }

    /// The ingress capacity that the sequencer was made with.
    pub fn capacity(&self) -> (capacity: usize)
        ensures
            capacity == self.ingress_capacity(),
    {
        self.capacity
    }

    /// Registers a listener behind those already registered.
    pub fn add_listener(&mut self, listener: F)
        requires
            forall|event: SequencerEvent<T>| #[trigger] call_requires(listener, (&event,)),
        ensures
            final(self).listeners().len() == old(self).listeners().len() + 1,
            final(self).listeners().last().callback() == listener,
            final(self).listeners().last().heard() == Seq::<SequencerEvent<T>>::empty(),
            final(self).listeners().drop_last() == old(self).listeners(),
            final(self).book_state() == old(self).book_state(),
            final(self).next_sequence() == old(self).next_sequence(),
            final(self).ingress_capacity() == old(self).ingress_capacity(),
    {
        self.event_listeners.push(Listener::new(listener));
        assert(self.event_listeners@.drop_last() =~= old(self).event_listeners@);
    }
}

impl<T: Clone, B: OrderBook<T>, F: Fn(&SequencerEvent<T>)> Sequencer<T, B, F> {
    /// Whether going from `before` to `self` is telling every listener of
    /// `event`, once each, and nothing else.
    pub open spec fn told(&self, before: &Self, event: SequencerEvent<T>) -> bool {
        &&& self.listeners().len() == before.listeners().len()
        &&& forall|k: int|
            0 <= k < self.listeners().len() ==> {
                &&& (#[trigger] self.listeners()[k]).callback() == before.listeners()[k].callback()
                &&& self.listeners()[k].heard() == before.listeners()[k].heard().push(event)
                &&& call_ensures(before.listeners()[k].callback(), (&event,), ())
            }
    }

    /// Executes an add on the book.
    fn execute_add_order(&mut self, order: &OrderType<T>) -> (result: SequencerResult)
        ensures
            is_outcome_of::<T, B>(
                result,
                old(self).book_state(),
                SequencerCommand::AddOrder(*order),
            ),
            final(self).book_state() == state_after_command::<T, B>(
                old(self).book_state(),
                SequencerCommand::AddOrder(*order),
            ),
            final(self).next_sequence() == old(self).next_sequence(),
            final(self).ingress_capacity() == old(self).ingress_capacity(),
            final(self).listeners() == old(self).listeners(),
    {
        let order_id = order.id();
        match self.book.add_order(order) {
            Ok(_) => SequencerResult::OrderAdded { order_id },
            Err(error) => SequencerResult::Rejected { error },
        }
    }

    /// Executes a cancel on the book.
    fn execute_cancel_order(&mut self, order_id: OrderId) -> (result: SequencerResult)
        ensures
            is_outcome_of::<T, B>(
                result,
                old(self).book_state(),
                SequencerCommand::CancelOrder(order_id),
            ),
            final(self).book_state() == state_after_command::<T, B>(
                old(self).book_state(),
                SequencerCommand::CancelOrder(order_id),
            ),
            final(self).next_sequence() == old(self).next_sequence(),
            final(self).ingress_capacity() == old(self).ingress_capacity(),
            final(self).listeners() == old(self).listeners(),
    {
        match self.book.cancel_order(order_id) {
            Ok(true) => SequencerResult::OrderCancelled { order_id },
            Ok(false) => SequencerResult::Rejected { error: order_not_found(order_id) },
            Err(error) => SequencerResult::Rejected { error },
        }
    }

    /// Executes a command on the book.
    fn execute_command(&mut self, command: &SequencerCommand<T>) -> (result: SequencerResult)
        ensures
            is_outcome_of::<T, B>(result, old(self).book_state(), *command),
            final(self).book_state() == state_after_command::<T, B>(
                old(self).book_state(),
                *command,
            ),
            final(self).next_sequence() == old(self).next_sequence(),
            final(self).ingress_capacity() == old(self).ingress_capacity(),
            final(self).listeners() == old(self).listeners(),
    {
        match command {
            SequencerCommand::AddOrder(order) => self.execute_add_order(order),
            SequencerCommand::CancelOrder(order_id) => self.execute_cancel_order(*order_id),
        }
    }

    /// Calls every listener with the event, once each, in the order the
    /// listeners were registered.
    fn emit(&mut self, event: &SequencerEvent<T>)
        ensures
            final(self).told(old(self), *event),
            final(self).book_state() == old(self).book_state(),
            final(self).next_sequence() == old(self).next_sequence(),
            final(self).ingress_capacity() == old(self).ingress_capacity(),
    {
        let mut i: usize = 0;
        while i < self.event_listeners.len()
            invariant
                i <= self.event_listeners@.len(),
                self.event_listeners@.len() == old(self).event_listeners@.len(),
                self.book == old(self).book,
                self.sequence == old(self).sequence,
                self.capacity == old(self).capacity,
                forall|k: int|
                    0 <= k < i ==> {
                        &&& (#[trigger] self.event_listeners@[k]).callback() == old(
                            self,
                        ).event_listeners@[k].callback()
                        &&& self.event_listeners@[k].heard() == old(
                            self,
                        ).event_listeners@[k].heard().push(*event)
                        &&& call_ensures(old(self).event_listeners@[k].callback(), (event,), ())
                    },
                forall|k: int|
                    i <= k < self.event_listeners@.len() ==> #[trigger] self.event_listeners@[k]
                        == old(self).event_listeners@[k],
            decreases self.event_listeners@.len() - i,
        {
            self.event_listeners[i].notify(event);
            i = i + 1;
        }
    }
}

impl<T: Clone, B: OrderBook<T>, F: Fn(&SequencerEvent<T>)> Sequencer<T, B, F> {
    /// Whether going from `before` to `self` with `receipt` is processing
    /// `command` at `timestamp_ns`: the command gets the next sequence number,
    /// is executed on the book, every listener is told of the event, and the
    /// receipt carries the event's sequence number and result.
    pub open spec fn processed(
        &self,
        before: &Self,
        command: SequencerCommand<T>,
        timestamp_ns: u64,
        receipt: SequencerReceipt,
    ) -> bool {
        &&& receipt.sequence_num == before.next_sequence()
        &&& is_outcome_of::<T, B>(receipt.result, before.book_state(), command)
        &&& self.next_sequence() == following(before.next_sequence())
        &&& self.book_state() == state_after_command::<T, B>(before.book_state(), command)
        &&& self.ingress_capacity() == before.ingress_capacity()
        &&& self.told(before, event_of(command, timestamp_ns, receipt))
    }

    /// Processes one command that was taken from the ingress at
    /// `timestamp_ns`.
    pub fn process_at(&mut self, command: SequencerCommand<T>, timestamp_ns: u64) -> (receipt:
        SequencerReceipt)
        ensures
            final(self).processed(old(self), command, timestamp_ns, receipt),
    {
        let seq = self.sequence;
        self.sequence = seq.wrapping_add(1);
        let result = self.execute_command(&command);
        let event = SequencerEvent::new(seq, timestamp_ns, command, result);
        self.emit(&event);
        SequencerReceipt::new(seq, event.result)
    }

    /// Processes one command that was taken from the ingress now, by the
    /// system clock.
    pub fn process(&mut self, command: SequencerCommand<T>) -> (receipt: SequencerReceipt)
        ensures
            exists|timestamp_ns: u64|
                final(self).processed(old(self), command, timestamp_ns, receipt),
    {
        let timestamp_ns = nanos_since_epoch();
        let receipt = self.process_at(command, timestamp_ns);
        assert(self.processed(old(self), command, timestamp_ns, receipt));
        receipt
    }
}

/// One processed command: the command, the clock reading it was processed
/// at, and the receipt it was answered with.
#[verifier::reject_recursive_types(T)]
pub struct Step<T> {
    pub command: SequencerCommand<T>,
    pub timestamp_ns: u64,
    pub receipt: SequencerReceipt,
}

/// The event that a step emitted.
pub open spec fn step_event<T>(step: Step<T>) -> SequencerEvent<T> {
    event_of(step.command, step.timestamp_ns, step.receipt)
}

/// The events that the steps emitted, in order.
pub open spec fn run_events<T>(steps: Seq<Step<T>>) -> Seq<SequencerEvent<T>> {
    Seq::new(steps.len(), |i: int| step_event(steps[i]))
}

/// Whether step `i` took the sequencer from state `i` to the state behind it.
pub open spec fn is_step<T: Clone, B: OrderBook<T>, F: Fn(&SequencerEvent<T>)>(
    states: Seq<Sequencer<T, B, F>>,
    steps: Seq<Step<T>>,
    i: int,
) -> bool {
    states[i + 1].processed(&states[i], steps[i].command, steps[i].timestamp_ns, steps[i].receipt)
}

/// Whether the steps are a run of one sequencer through the states: each
/// step processes one command and leads from one state to the next.
pub open spec fn is_run<T: Clone, B: OrderBook<T>, F: Fn(&SequencerEvent<T>)>(
    states: Seq<Sequencer<T, B, F>>,
    steps: Seq<Step<T>>,
) -> bool {
    &&& states.len() == steps.len() + 1
    &&& forall|i: int| 0 <= i < steps.len() ==> #[trigger] is_step(states, steps, i)
}

/// Strict monotone sequence: in a run of a fresh sequencer the i-th event,
/// counted from 1, has sequence number i, and so has its receipt. The law
/// holds up to the largest sequence number, behind which the counter wraps.
pub proof fn lemma_sequence_numbers<T: Clone, B: OrderBook<T>, F: Fn(&SequencerEvent<T>)>(
    states: Seq<Sequencer<T, B, F>>,
    steps: Seq<Step<T>>,
)
    requires
        is_run(states, steps),
        states[0].next_sequence() == 1,
        steps.len() <= u64::MAX,
    ensures
        forall|i: int|
            0 <= i < steps.len() ==> (#[trigger] run_events(steps)[i]).sequence_num == i + 1,
        forall|i: int|
            0 <= i < steps.len() ==> (#[trigger] steps[i]).receipt.sequence_num == i + 1,
    decreases steps.len(),
{
    if steps.len() > 0 {
        let n = steps.len() - 1;
        lemma_counter(states, steps, n);
        assert forall|i: int| 0 <= i < steps.len() implies (
        #[trigger] steps[i]).receipt.sequence_num == i + 1 by {
            lemma_counter(states, steps, i);
            assert(is_step(states, steps, i));
        }
    }
}

/// In a run of a fresh sequencer, the state before step `i` gives out the
/// sequence number `i + 1`.
pub proof fn lemma_counter<T: Clone, B: OrderBook<T>, F: Fn(&SequencerEvent<T>)>(
    states: Seq<Sequencer<T, B, F>>,
    steps: Seq<Step<T>>,
    i: int,
)
    requires
        is_run(states, steps),
        states[0].next_sequence() == 1,
        0 <= i < steps.len(),
        i < u64::MAX,
    ensures
        states[i].next_sequence() == i + 1,
    decreases i,
{
    if i > 0 {
        lemma_counter(states, steps, i - 1);
        assert(is_step(states, steps, i - 1));
    }
}

/// Timestamps follow the clock: every event carries the clock reading that
/// its command was processed at, so where the readings never go down, the
/// timestamps of the events never go down.
pub proof fn lemma_timestamps<T>(steps: Seq<Step<T>>)
    requires
        forall|i: int, j: int|
            0 <= i < j < steps.len() ==> (#[trigger] steps[i]).timestamp_ns <= (
            #[trigger] steps[j]).timestamp_ns,
    ensures
        forall|i: int|
            0 <= i < steps.len() ==> (#[trigger] run_events(steps)[i]).timestamp_ns
                == steps[i].timestamp_ns,
        forall|i: int, j: int|
            0 <= i < j < steps.len() ==> (#[trigger] run_events(steps)[i]).timestamp_ns <= (
            #[trigger] run_events(steps)[j]).timestamp_ns,
{
    assert forall|i: int, j: int| 0 <= i < j < steps.len() implies (
    #[trigger] run_events(steps)[i]).timestamp_ns <= (#[trigger] run_events(steps)[j]).timestamp_ns by {
        assert(steps[i].timestamp_ns <= steps[j].timestamp_ns);
    }
}

/// Listener parity: over a run, every listener is called with exactly the
/// events of the run, in their order, and no listener comes or goes.
pub proof fn lemma_listener_parity<T: Clone, B: OrderBook<T>, F: Fn(&SequencerEvent<T>)>(
    states: Seq<Sequencer<T, B, F>>,
    steps: Seq<Step<T>>,
)
    requires
        is_run(states, steps),
    ensures
        states.last().listeners().len() == states[0].listeners().len(),
        forall|k: int|
            0 <= k < states[0].listeners().len() ==> {
                &&& (#[trigger] states.last().listeners()[k]).callback()
                    == states[0].listeners()[k].callback()
                &&& states.last().listeners()[k].heard() == states[0].listeners()[k].heard()
                    + run_events(steps)
            },
    decreases steps.len(),
{
    if steps.len() == 0 {
        assert forall|k: int| 0 <= k < states[0].listeners().len() implies states[0].listeners()[k].heard()
            + run_events(steps) == (#[trigger] states.last().listeners()[k]).heard() by {
            assert(states[0].listeners()[k].heard() + run_events(steps)
                =~= states[0].listeners()[k].heard());
        }
    } else {
        let n = steps.len() - 1;
        let front_states = states.drop_last();
        let front_steps = steps.drop_last();
        assert(is_run(front_states, front_steps)) by {
            assert forall|i: int| 0 <= i < front_steps.len() implies #[trigger] is_step(
                front_states,
                front_steps,
                i,
            ) by {
                assert(is_step(states, steps, i));
            }
        }
        lemma_listener_parity(front_states, front_steps);
        assert(is_step(states, steps, n));
        assert(front_states.last() == states[n]);
        assert forall|k: int| 0 <= k < states[0].listeners().len() implies {
            &&& (#[trigger] states.last().listeners()[k]).callback()
                == states[0].listeners()[k].callback()
            &&& states.last().listeners()[k].heard() == states[0].listeners()[k].heard()
                + run_events(steps)
        } by {
            assert(front_states.last().listeners()[k].heard() == states[0].listeners()[k].heard()
                + run_events(front_steps));
            assert(run_events(front_steps).push(step_event(steps[n])) =~= run_events(steps));
            assert((states[0].listeners()[k].heard() + run_events(front_steps)).push(
                step_event(steps[n]),
            ) =~= states[0].listeners()[k].heard() + run_events(steps));
        }
    }
}

/// Receipt consistency: the receipt of every step carries the sequence
/// number and the result of the event that the listeners were told of.
pub proof fn lemma_receipts<T: Clone, B: OrderBook<T>, F: Fn(&SequencerEvent<T>)>(
    states: Seq<Sequencer<T, B, F>>,
    steps: Seq<Step<T>>,
)
    requires
        is_run(states, steps),
    ensures
        forall|i: int, k: int|
            0 <= i < steps.len() && 0 <= k < states[i].listeners().len() ==> {
                &&& (#[trigger] states[i + 1].listeners()[k]).heard().last().sequence_num
                    == steps[i].receipt.sequence_num
                &&& states[i + 1].listeners()[k].heard().last().result == steps[i].receipt.result
                &&& steps[i].receipt.sequence_num == states[i].next_sequence()
            },
{
    assert forall|i: int, k: int|
        0 <= i < steps.len() && 0 <= k < states[i].listeners().len() implies {
        &&& (#[trigger] states[i + 1].listeners()[k]).heard().last().sequence_num
            == steps[i].receipt.sequence_num
        &&& states[i + 1].listeners()[k].heard().last().result == steps[i].receipt.result
        &&& steps[i].receipt.sequence_num == states[i].next_sequence()
    } by {
        assert(is_step(states, steps, i));
    }
}

/// Journal order preservation: a journal that holds exactly what one
/// listener was told over a run of a fresh sequencer, the listener having
/// heard nothing before, holds the sequence numbers 1, 2, 3 and so on in
/// order, and a read from 0 gives all of it.
pub proof fn lemma_journal_order<
    T: Clone,
    B: OrderBook<T>,
    F: Fn(&SequencerEvent<T>),
    J: crate::journal::Journal<T>,
>(states: Seq<Sequencer<T, B, F>>, steps: Seq<Step<T>>, k: int, journal: J)
    requires
        is_run(states, steps),
        states[0].next_sequence() == 1,
        steps.len() <= u64::MAX,
        0 <= k < states[0].listeners().len(),
        states[0].listeners()[k].heard().len() == 0,
        journal.log() == states.last().listeners()[k].heard(),
    ensures
        journal.log().len() == steps.len(),
        crate::journal::events_from(journal.log(), 0) == journal.log(),
        forall|i: int|
            0 <= i < journal.log().len() ==> (#[trigger] journal.log()[i]).sequence_num == i + 1,
{
    lemma_listener_parity(states, steps);
    lemma_sequence_numbers(states, steps);
    crate::journal::lemma_read_from_zero(journal.log());
    assert(states[0].listeners()[k].heard() + run_events(steps) =~= run_events(steps));
    assert(states.last().listeners()[k].heard() == run_events(steps));
}

} // verus!
