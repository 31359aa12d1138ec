//! The failures a submission or a store operation can report.

use vstd::prelude::*;

verus! {

/// Why an operation on the record store was refused.
///
/// Every failure is detected before anything is changed: the store and the
/// payer are exactly as they were before the call.
#[derive(Clone, Copy, Debug, PartialEq, Eq, Structural)]
pub enum SubmissionError {
    /// The proof is longer than the slot's payload budget.
    PayloadTooLarge,
    /// The payer cannot cover the cost of reserving a new slot.
    StorageAllocationError,
    /// Storage already exists at the address, but not in this store's layout.
    AddressMismatch,
    /// The bytes of a slot do not spell a record.
    CorruptRecord,
    /// The identity does not have the shape from which an address can be derived.
    MalformedIdentity,
}

impl SubmissionError {
    /// Whether the caller can recover by changing the input and trying again.
    ///
    /// A proof that is too large, a payer without funds and a malformed
    /// identity are the caller's to mend; foreign or corrupt storage is an
    /// integrity fault that no retry repairs.
    pub open spec fn recoverable(self) -> bool {
        self is PayloadTooLarge || self is StorageAllocationError || self is MalformedIdentity
    }

    /// Whether the caller can recover by changing the input and trying again.
    pub fn is_recoverable(&self) -> (yes: bool)
        ensures
            yes == self.recoverable(),
    {
        match self {
            SubmissionError::PayloadTooLarge => true,
            SubmissionError::StorageAllocationError => true,
            SubmissionError::MalformedIdentity => true,
            SubmissionError::AddressMismatch => false,
            SubmissionError::CorruptRecord => false,
        }
    }
}

} // verus!
