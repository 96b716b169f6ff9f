//! What makes a step or a check fail.

use vstd::prelude::*;

verus! {

/// A failure is final: the same input fails the same way every time.
#[derive(Clone, Copy, Debug, PartialEq, Eq, Structural)]
pub enum KernelError {
    /// The index selects no example set for the multi-layer network.
    UnknownDataset,
    /// The input stream does not hold exactly the five words of a step.
    InputLength,
    /// The byte sequence does not have the width of a record.
    RecordLength,
    /// The record's results are not what its inputs train to.
    ParityMismatch,
}

} // verus!
