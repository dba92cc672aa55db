//! The ways in which a ledger operation is refused.

use vstd::prelude::*;

verus! {

/// Why an operation was refused. A refused operation leaves the ledger as it was.
#[derive(Clone, Copy, Debug, PartialEq, Eq, Structural)]
pub enum Error {
    /// The operation names an account that the ledger does not hold.
    AccNotRegistered,
    /// A withdrawal asks for more than the balance holds, or for nothing.
    InsufficientBalance,
    /// The account already holds an open vote on the proposal.
    AlreadyVoted,
    /// The action does not fit the proposal's kind, or names an option that does not exist.
    InvalidVote,
    /// A vote can only be cancelled while the proposal is in progress.
    VoteCanNotCancel,
    /// A vote can only be cast while the proposal is in progress.
    NotVotable,
    /// The account holds no open vote on the proposal.
    NoVoted,
    /// Voting needs a positive escrow weight.
    InsufficientVeLpt,
    /// Locking again would bring the unlock time forward.
    CausePreUnlock,
    /// The lock has not run out yet.
    StillInLock,
    /// An account that holds a reward cannot leave the ledger.
    StillHasReward,
    /// The operation names a proposal that the ledger does not hold.
    ProposalNotExist,
    /// The pool already holds another reward token.
    InvalidIncentiveToken,
    /// An amount or a counter would leave the range of its integer type.
    Overflow,
}

} // verus!
