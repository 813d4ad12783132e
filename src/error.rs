//! Errors raised while executing instructions.
use vstd::prelude::*;

verus! {

/// Reason of a recoverable panic of the VM.
#[derive(Clone, Copy, Debug, PartialEq, Eq, Structural)]
pub enum PanicReason {
    /// A memory access left the addressable memory or the caller's region.
    MemoryOverflow,
    /// An arithmetic operation overflowed.
    ArithmeticOverflow,
    /// The flag register was given unknown bits.
    ErrorFlag,
    /// The operation needs a contract context.
    ExpectedInternalContext,
    /// The replacement output is not a variable output.
    ExpectedOutputVariable,
    /// No output fits the request.
    OutputNotFound,
    /// A balance is too small for the subtraction.
    NotEnoughBalance,
    /// The transaction does not carry what the operation needs.
    TransactionValidity,
    /// The message output to fill in already has a recipient.
    NonZeroMessageOutputRecipient,
}

/// Kind of an internal defect of the VM.
#[derive(Clone, Copy, Debug, PartialEq, Eq, Structural)]
pub enum BugVariant {
    /// A memory constraint reached past the end of the memory.
    InvalidMemoryConstraint,
}

/// Error of an instruction: a recoverable panic or an internal defect.
#[derive(Clone, Copy, Debug, PartialEq, Eq, Structural)]
pub enum RuntimeError {
    /// Recoverable panic; the transaction reverts.
    Recoverable(PanicReason),
    /// Defect of the implementation.
    Bug(BugVariant),
}

/// Error raised while reconciling a transaction after execution.
#[derive(Clone, Copy, Debug, PartialEq, Eq, Structural)]
pub enum CheckError {
    /// An arithmetic operation overflowed.
    ArithmeticOverflow,
}

impl RuntimeError {
    /// The recoverable error carrying `reason`.
    pub fn recoverable(reason: PanicReason) -> (r: RuntimeError)
        ensures
            r == RuntimeError::Recoverable(reason),
    {
        RuntimeError::Recoverable(reason)
    }
}

} // verus!
