//! The discriminated reasons for which a protocol operation is rejected.
//! Every rejection aborts the whole operation with no state change.

use vstd::prelude::*;

verus! {

/// Why an operation was rejected.  Each variant is a fatal, non-retryable
/// rejection of the single operation that returned it.
#[derive(Clone, Copy, Debug, PartialEq, Eq)]
pub enum ProtocolError {
    /// The caller is not the protocol owner.
    NotOwner,
    /// The caller is already a registered judge.
    AlreadyRegistered,
    /// The caller has no judge record.
    NotAJudge,
    /// The given identity is not the dispute's requester.
    NotTheRequester,
    /// The given identity is not the dispute's beneficiary.
    NotTheBeneficiary,
    /// The supplied proof text is empty.
    ProofCannotBeEmpty,
    /// The dispute already has a full panel of eligible voters.
    JudgesAlreadyAssigned,
    /// The caller is already among the dispute's eligible voters.
    JudgeAlreadyRegistered,
    /// The caller may not vote on this dispute.
    JudgeNotAllowedToVote,
    /// The dispute has reached its terminal, resolved state.
    DisputeAlreadyResolved,
    /// The dispute is not in its open (commit) phase.
    DisputeNotOpen,
    /// The caller already committed, or already revealed, a vote.
    JudgeAlreadyVoted,
    /// The revealed vote and secret do not hash to the stored commit.
    HashMismatch,
    /// The supplied quantity must be strictly positive.
    MustBeGreaterThanZero,
    /// The dispute has not been resolved yet.
    DisputeNotResolvedYet,
    /// The judge has no balance to withdraw.
    NoBalanceToWithdraw,
    /// The treasury holds no funds to withdraw.
    NoFundsToWithdraw,
    /// An external token-transfer collaborator reported failure.
    CallFailed,
}

} // verus!
