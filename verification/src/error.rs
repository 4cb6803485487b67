use vstd::prelude::*;

verus! {

/// Every way an invocation of the engine can be rejected.  An error aborts
/// the whole invocation: callers discard the state they passed in and keep
/// the previous persisted state, so no partial mutation survives.
#[derive(Clone, Copy, Debug, PartialEq, Eq, Structural)]
pub enum ContractError {
    /// Caller is not the designated authority for this operation.
    NotAuthorized,
    /// The round is currently drawing; the operation needs an active round.
    NotActive,
    /// An identical ticket already exists where a fresh one was required.
    TicketExists,
    /// A ticket's number-set size differs from the configured count.
    InvalidNumberCount,
    /// A ticket repeats a number.
    DuplicateNumber,
    /// A ticket number exceeds the configured maximum.
    NumberOutOfBounds,
    /// The funds offered do not cover the price.
    InsufficientFunds,
    /// The claim was already paid out.
    AlreadyClaimed,
    /// No claim exists for the given owner.
    ClaimNotFound,
    /// No account exists for the given owner.
    AccountNotFound,
    /// No drawing record exists for the given round.
    DrawingNotFound,
    /// The round's end time has not been reached yet.
    ActiveRound,
    /// No drawing exists under the given round number.
    InvalidRoundNo,
    /// The operation is invalid for the current Active/Drawing state.
    InvalidGameState,
    /// A configuration value is out of its allowed range.
    ValidationError,
    /// The claim includes a jackpot win that an admin has not approved yet.
    PendingApproval,
    /// The round is parked in Drawing state awaiting the randomness callback.
    WaitingForRandomness,
}

} // verus!
