//! The commands that a sequencer executes.

use pricelevel::{OrderId, OrderType};
use vstd::prelude::*;

verus! {

/// One operation on the book, to be executed in sequence.
#[derive(Debug, Clone)]
#[verifier::reject_recursive_types(T)]
pub enum SequencerCommand<T> {
    /// Add a new order to the book.
    AddOrder(OrderType<T>),
    /// Cancel the order with this id.
    CancelOrder(OrderId),
}

} // verus!
