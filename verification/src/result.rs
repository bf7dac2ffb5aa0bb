//! The outcome of one executed command.

use crate::book::{OrderBookError, TradeResult};
use pricelevel::OrderId;
use vstd::prelude::*;

verus! {

/// What executing a command did.
#[derive(Debug)]
pub enum SequencerResult {
    /// The order was added to the book.
    OrderAdded {
        /// Id of the added order.
        order_id: OrderId,
    },
    /// The order was cancelled.
    OrderCancelled {
        /// Id of the cancelled order.
        order_id: OrderId,
    },
    /// The order traded on entering the book.
    TradeExecuted {
        /// Details of the execution.
        trade_result: TradeResult,
    },
    /// The book refused the command and is unchanged.
    Rejected {
        /// Why the command was refused.
        error: OrderBookError,
    },
}

impl SequencerResult {
    /// Whether the command took effect.
    #[inline]
    #[must_use]
    pub fn is_success(&self) -> (r: bool)
        ensures
            r == !(*self is Rejected),
    {
        match self {
            SequencerResult::Rejected { .. } => false,
            _ => true,
        }
    }

    /// Whether the command was refused.
    #[inline]
    #[must_use]
    pub fn is_rejected(&self) -> (r: bool)
        ensures
            r == (*self is Rejected),
    {
        match self {
            SequencerResult::Rejected { .. } => true,
            _ => false,
        }
    }
}

} // verus!
