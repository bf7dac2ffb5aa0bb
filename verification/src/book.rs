//! The order book as the sequencer and the replay engine see it.
//!
//! The book is a collaborator: matching, price levels and order validation
//! live behind [`OrderBook`]. The trait asks one thing of a book beyond its
//! four operations: that it behaves as a deterministic state machine, whose
//! state is its view and whose steps are the spec functions below.

use crate::snapshot::{level_keys, LevelKey, OrderBookSnapshot};
use pricelevel::{MatchResult, OrderId, OrderType};
use vstd::prelude::*;

verus! {

/// `pricelevel::MatchResult`, carried as an opaque value.
#[verifier::external_type_specification]
#[verifier::external_body]
pub struct ExMatchResult(MatchResult);

/// An error that a book reports for one operation.
#[derive(Debug)]
pub enum OrderBookError {
    /// No order with the given id rests in the book.
    OrderNotFound(String),
    /// The book refuses the operation for the reason given.
    InvalidOperation {
        /// Why the operation was refused.
        message: String,
    },
}

/// An [`OrderBookError`] with its texts as sequences of characters.
pub enum OrderBookErrorView {
    OrderNotFound(Seq<char>),
    InvalidOperation { message: Seq<char> },
}

impl View for OrderBookError {
    type V = OrderBookErrorView;

    open spec fn view(&self) -> OrderBookErrorView {
        match *self {
            OrderBookError::OrderNotFound(text) => OrderBookErrorView::OrderNotFound(text@),
            OrderBookError::InvalidOperation { message } => OrderBookErrorView::InvalidOperation {
                message: message@,
            },
        }
    }
}

/// The outcome of a trade that an order triggered on entering the book.
#[derive(Debug)]
pub struct TradeResult {
    /// The symbol of the book that matched.
    pub symbol: String,
    /// What the match produced.
    pub match_result: MatchResult,
}

/// Whether `snapshot` shows a book in `state` down to `depth` levels a side.
/// The timestamp of a snapshot is free.
pub open spec fn shows<T, B: OrderBook<T>>(
    snapshot: OrderBookSnapshot,
    state: B::V,
    depth: usize,
) -> bool {
    &&& snapshot.symbol@ == B::symbol_of(state)
    &&& level_keys(snapshot.bids@) == B::bid_keys(state, depth)
    &&& level_keys(snapshot.asks@) == B::ask_keys(state, depth)
}

/// What the sequencer and the replay engine require of an order book.
///
/// The view of a book is its state. Each operation is a function of the state
/// and its arguments: it decides the result and the next state. An operation
/// that fails leaves the state as it was.
pub trait OrderBook<T>: View + Sized {
    /// The state of a fresh, empty book for `symbol`.
    spec fn opened(symbol: Seq<char>) -> Self::V;

    /// The state after adding `order`, or the error with which the book
    /// refuses it.
    spec fn add_result(state: Self::V, order: OrderType<T>) -> Result<Self::V, OrderBookErrorView>;

    /// The state after cancelling the order `order_id`; `Ok(None)` where no
    /// such order rests in the book, or the error with which the book refuses.
    spec fn cancel_result(state: Self::V, order_id: OrderId) -> Result<
        Option<Self::V>,
        OrderBookErrorView,
    >;

    /// The symbol that the book was opened for.
    spec fn symbol_of(state: Self::V) -> Seq<char>;

    /// Price and visible quantity of the first `depth` bid levels.
    spec fn bid_keys(state: Self::V, depth: usize) -> Seq<LevelKey>;

    /// Price and visible quantity of the first `depth` ask levels.
    spec fn ask_keys(state: Self::V, depth: usize) -> Seq<LevelKey>;

    /// Opens a fresh, empty book for `symbol`.
    fn new(symbol: &str) -> (book: Self)
        ensures
            book@ == Self::opened(symbol@),
    ;

    /// Adds an order; on refusal the book is unchanged.
    fn add_order(&mut self, order: &OrderType<T>) -> (r: Result<(), OrderBookError>)
        ensures
            match Self::add_result(old(self)@, *order) {
                Ok(next) => r is Ok && final(self)@ == next,
                Err(error) => r is Err && r->Err_0@ == error && final(self)@ == old(self)@,
            },
    ;

    /// Cancels an order: `Ok(true)` where it was removed, `Ok(false)` where no
    /// such order rests in the book; in that case, and on an error, the book
    /// is unchanged.
    fn cancel_order(&mut self, order_id: OrderId) -> (r: Result<bool, OrderBookError>)
        ensures
            match Self::cancel_result(old(self)@, order_id) {
                Ok(Some(next)) => r == Ok::<bool, OrderBookError>(true) && final(self)@ == next,
                Ok(None) => r == Ok::<bool, OrderBookError>(false) && final(self)@ == old(self)@,
                Err(error) => r is Err && r->Err_0@ == error && final(self)@ == old(self)@,
            },
    ;

    /// Takes a snapshot of both sides, up to `depth` levels each.
    fn create_snapshot(&self, depth: usize) -> (snapshot: OrderBookSnapshot)
        ensures
            snapshot.symbol@ == Self::symbol_of(self@),
            level_keys(snapshot.bids@) == Self::bid_keys(self@, depth),
            level_keys(snapshot.asks@) == Self::ask_keys(self@, depth),
    ;
}

} // verus!
