//! The record of one executed command.

use crate::command::SequencerCommand;
use crate::result::SequencerResult;
use vstd::prelude::*;

verus! {

/// One executed command with its place in the total order, the time of its
/// execution and its outcome.
#[derive(Debug)]
#[verifier::reject_recursive_types(T)]
pub struct SequencerEvent<T> {
    /// Place of the command in the total order.
    pub sequence_num: u64,
    /// Nanoseconds since the Unix epoch at execution.
    pub timestamp_ns: u64,
    /// The command that was executed.
    pub command: SequencerCommand<T>,
    /// What executing it did.
    pub result: SequencerResult,
}

impl<T> SequencerEvent<T> {
    /// Builds an event from its four parts.
    #[must_use]
    pub fn new(
        sequence_num: u64,
        timestamp_ns: u64,
        command: SequencerCommand<T>,
        result: SequencerResult,
    ) -> (event: Self)
        ensures
            event == (SequencerEvent { sequence_num, timestamp_ns, command, result }),
    {
        Self { sequence_num, timestamp_ns, command, result }
    }
}

} // verus!
