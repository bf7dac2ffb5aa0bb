//! What a submitter gets back for one command.

use crate::result::SequencerResult;
use vstd::prelude::*;

verus! {

/// The sequence number that a command was given and what executing it did.
#[derive(Debug)]
pub struct SequencerReceipt {
    /// Place of the command in the total order.
    pub sequence_num: u64,
    /// What executing it did.
    pub result: SequencerResult,
}

impl SequencerReceipt {
    /// Builds a receipt from its two parts.
    #[must_use]
    pub fn new(sequence_num: u64, result: SequencerResult) -> (receipt: Self)
        ensures
            receipt == (SequencerReceipt { sequence_num, result }),
    {
        Self { sequence_num, result }
    }

    /// Whether the command took effect.
    #[inline]
    #[must_use]
    pub fn is_success(&self) -> (r: bool)
        ensures
            r == !(self.result is Rejected),
    {
        self.result.is_success()
    }
}

} // verus!
