use vstd::prelude::*;

verus! {

/// The single error taxonomy of the ledger. Every operation either fully
/// applies or fails with one of these, leaving every record it touched
/// unchanged.
#[derive(Clone, Copy, Debug, PartialEq, Eq, Structural)]
pub enum GovError {
    /// An input breaks a static validity rule (a length bound, an empty or
    /// oversized option list).
    ValidationError,
    /// A record with the same key already exists.
    AlreadyExists,
    /// No record with the given key exists.
    NotFound,
    /// A record's back-reference does not match the record it was paired with.
    Mismatch,
    /// The caller is not the identity permitted to perform the mutation.
    Unauthorized,
    /// The poll has already been finished.
    AlreadyFinished,
    /// The voter has already voted on this poll.
    AlreadyVoted,
    /// A counter or accumulator would exceed its representable range.
    Overflow,
    /// A counter would fall below zero.
    Underflow,
}

} // verus!
