use vstd::prelude::*;

verus! {

/// Why an operation on the ACL failed.
#[derive(Clone, Debug, PartialEq, Eq)]
pub enum ContractError {
    /// A name or description is longer than allowed.
    ValidationError { reason: String },
    /// The caller or principal is not allowed; the reason says why.
    NotAuthorized { reason: String },
    /// A role of this name exists already.
    AlreadyExists { role: String },
    /// No role of this name exists.
    NotFound { role: String },
    /// A counter or a time would pass its largest value.
    Overflow,
    /// A counter would go below zero.
    Underflow,
    /// The storage failed to read or write a value.
    Std { reason: String },
}

} // verus!
