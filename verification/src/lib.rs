//! A deterministic, totally ordered command sequencer for a limit order book,
//! with an append-only event journal and a replay engine.
//!
//! Every executable function in this crate carries a contract that Verus
//! proves. The order book itself is a collaborator behind the [`book::OrderBook`]
//! trait; [`resting::RestingBook`] is a small in-memory book that meets it.

pub mod book;
pub mod clock;
pub mod command;
pub mod engine;
pub mod event;
pub mod journal;
pub mod orders;
pub mod receipt;
pub mod replay;
pub mod resting;
pub mod result;
pub mod snapshot;

pub use command::SequencerCommand;
pub use event::SequencerEvent;
pub use receipt::SequencerReceipt;
pub use result::SequencerResult;

pub use book::{OrderBook, OrderBookError, TradeResult};
pub use engine::{Sequencer, SequencerError};
pub use journal::{InMemoryJournal, Journal};
pub use replay::{ReplayEngine, ReplayError};
pub use resting::RestingBook;
pub use snapshot::{snapshots_match, OrderBookSnapshot};
