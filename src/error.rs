use vstd::prelude::*;

verus! {

/// Every way in which a call on the ledger can fail. A failed call leaves
/// the ledger exactly as it was.
#[derive(Clone, Copy, Debug, PartialEq, Eq, Structural)]
pub enum ContractError {
    /// The caller lacks the role the call needs (admin, or membership).
    Unauthorized,
    /// The instantiation parameters are inconsistent. This ledger accepts
    /// any initial weights, since every share is taken over the live sum of
    /// weights, so none of its calls returns this.
    InitializeError,
    /// A precondition on the input does not hold: the member to add is
    /// already present, the member to remove is absent, or a kickoff date
    /// is zero.
    UnexpectedInput,
    /// A membership change was attempted after the vesting window closed.
    ExpiredContract,
    /// A withdrawal was attempted before the schedule started.
    InactiveContract,
    /// The schedule was already kicked off.
    ActiveContract,
    /// The sum of all weights does not fit in a `u64`.
    Overflow,
    /// The queried address is not a member.
    NotFound,
}

} // verus!
