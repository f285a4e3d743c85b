//! The error taxonomy shared by every operation of the engine and the token.

use vstd::prelude::*;

verus! {

/// Why an operation was refused. Every engine and token operation reports its
/// outcome synchronously through `Result<_, Error>`; no error is swallowed and
/// a refused operation leaves every record and every balance unchanged.
#[derive(Clone, Copy, Debug, PartialEq, Eq, Structural)]
pub enum Error {
    /// The caller identity does not hold the role the operation demands.
    Unauthorized,
    /// No project or objective exists under the given identifier.
    NotFound,
    /// A malformed argument: an empty price list, a zero price, a client equal
    /// to its freelancer, or a negative token amount.
    InvalidInput,
    /// The project or token is in a state that forbids the operation, such as
    /// funding a terminal project or initializing a token twice.
    InvalidState,
    /// The objective already carries a deposit.
    AlreadyFunded,
    /// The objective carries no deposit yet, so it cannot be completed.
    ObjectiveNotFunded,
    /// The objective was already completed.
    AlreadyCompleted,
    /// A token movement asked for more than the payer holds.
    InsufficientFunds,
    /// A token movement asked for more than the granted allowance.
    InsufficientAllowance,
    /// Project completion was requested before every objective was done.
    IncompleteObjectives,
}

} // verus!
