//! Voting actions and the tally of a proposal.

use vstd::prelude::*;
use crate::errors::Error;
use crate::contract::{Contract, ContractView};
use crate::proposals::{Proposal, ProposalKind, ProposalStatus, ProposalView};

verus! {

/// What a voter submits on a proposal.
#[derive(Clone, Copy, Debug, PartialEq, Eq, Structural)]
pub enum Action {
    /// Vote to approve given proposal
    VoteApprove,
    /// Vote to reject given proposal
    VoteReject,
    /// Vote to nonsense given proposal (because it's spam).
    VoteNonsense,
    /// Vote to farm id given proposal
    VoteFarm { farm_id: usize },
    /// Vote to poll id given proposal
    VotePoll { poll_id: usize },
}

impl Action {
    /// The farm that the action selects; any other action is an invalid vote.
    pub fn get_farm_id(&self) -> (res: Result<usize, Error>)
        ensures
            res == (match *self {
                Action::VoteFarm { farm_id } => Ok::<usize, Error>(farm_id),
                _ => Err(Error::InvalidVote),
            }),
    {
        match self {
            Action::VoteFarm { farm_id } => Ok(*farm_id),
            _ => Err(Error::InvalidVote),
        }
    }

    /// The poll option that the action selects; any other action is an invalid vote.
    pub fn get_poll_id(&self) -> (res: Result<usize, Error>)
        ensures
            res == (match *self {
                Action::VotePoll { poll_id } => Ok::<usize, Error>(poll_id),
                _ => Err(Error::InvalidVote),
            }),
    {
        match self {
            Action::VotePoll { poll_id } => Ok(*poll_id),
            _ => Err(Error::InvalidVote),
        }
    }
}

/// Votes recorded in a common proposal, in the order of their tally slots.
#[derive(Clone, Copy, Debug, PartialEq, Eq, Structural)]
pub enum Vote {
    Approve,
    Reject,
    Nonsense,
}

impl Vote {
    /// The tally slot of the vote.
    pub open spec fn slot(self) -> int {
        match self {
            Vote::Approve => 0,
            Vote::Reject => 1,
            Vote::Nonsense => 2,
        }
    }

    /// The vote that a plain action stands for, if it is one.
    pub open spec fn of_action(action: Action) -> Option<Vote> {
        match action {
            Action::VoteApprove => Some(Vote::Approve),
            Action::VoteReject => Some(Vote::Reject),
            Action::VoteNonsense => Some(Vote::Nonsense),
            Action::VoteFarm { .. } => None,
            Action::VotePoll { .. } => None,
        }
    }

    /// The index of the vote's tally slot.
    pub fn index(&self) -> (i: usize)
        ensures
            i as int == self.slot(),
    {
        match self {
            Vote::Approve => 0,
            Vote::Reject => 1,
            Vote::Nonsense => 2,
        }
    }

    /// Reads a plain action as a vote; a farm or poll selector is an invalid vote.
    pub fn from_action(action: &Action) -> (res: Result<Vote, Error>)
        ensures
            res == (match Vote::of_action(*action) {
                Some(v) => Ok::<Vote, Error>(v),
                None => Err(Error::InvalidVote),
            }),
    {
        match action {
            Action::VoteApprove => Ok(Vote::Approve),
            Action::VoteReject => Ok(Vote::Reject),
            Action::VoteNonsense => Ok(Vote::Nonsense),
            Action::VoteFarm { .. } => Err(Error::InvalidVote),
            Action::VotePoll { .. } => Err(Error::InvalidVote),
        }
    }
}

impl Proposal {
    /// Adds `amount` to the tally slot of `action`, or takes it from there, and
    /// in a common proposal records `total` in the last slot.
    ///
    /// An action that does not fit the proposal is an invalid vote.
    pub fn update_votes(
        &mut self,
        action: &Action,
        amount: u128,
        total: u128,
        is_increased: bool,
    ) -> (res: Result<(), Error>)
        requires
            old(self).wf(),
        ensures
            match old(self)@.update_votes(*action, amount, total, is_increased) {
                Ok(post) => res is Ok && final(self)@ == post,
                Err(e) => res == Err::<(), Error>(e) && final(self)@ == old(self)@,
            },
            final(self).wf(),
    {
        let i = self.slot_of(action)?;
        let tally = if is_increased {
            self.votes[i].checked_add(amount)
        } else {
            self.votes[i].checked_sub(amount)
        };
        match tally {
            None => Err(Error::Overflow),
            Some(t) => {
                self.votes.set(i, t);
                match self.kind {
                    ProposalKind::Common => {
                        self.votes.set(3, total);
                    },
                    _ => {},
                }
                Ok(())
            },
        }
    }
}

impl ProposalView {
    /// The proposal after a vote `action` of the weight `amount` was cast on it.
    ///
    /// A nonsense vote cannot be cast, and a vote can only be cast while the
    /// proposal is in progress.
    pub open spec fn append_vote(self, action: Action, amount: u128, total: u128) -> Result<
        ProposalView,
        Error,
    > {
        if action == Action::VoteNonsense {
            Err(Error::InvalidVote)
        } else if self.status != Some(ProposalStatus::InProgress) {
            Err(Error::NotVotable)
        } else {
            match self.update_votes(action, amount, total, true) {
                Ok(post) => post.add_participant(action),
                Err(e) => Err(e),
            }
        }
    }

    /// The proposal after the vote `action` of the weight `amount` was taken back.
    ///
    /// A vote can only be taken back while the proposal is in progress.
    pub open spec fn cancel_vote(self, action: Action, amount: u128, total: u128) -> Result<
        ProposalView,
        Error,
    > {
        if self.status != Some(ProposalStatus::InProgress) {
            Err(Error::VoteCanNotCancel)
        } else {
            match self.update_votes(action, amount, total, false) {
                Ok(post) => post.remove_participant(action),
                Err(e) => Err(e),
            }
        }
    }
}

impl Proposal {
    /// Casts the vote `action` with the weight `amount`: the tally of its option
    /// rises by `amount`, and the voter is counted.
    pub fn append_vote(&mut self, action: &Action, amount: u128, total: u128) -> (res: Result<
        (),
        Error,
    >)
        requires
            old(self).wf(),
        ensures
            match old(self)@.append_vote(*action, amount, total) {
                Ok(post) => res is Ok && final(self)@ == post,
                Err(e) => res == Err::<(), Error>(e) && final(self)@ == old(self)@,
            },
            final(self).wf(),
    {
        match action {
            Action::VoteNonsense => {
                return Err(Error::InvalidVote);
            },
            _ => {},
        }
        match self.status {
            Some(ProposalStatus::InProgress) => {},
            _ => {
                return Err(Error::NotVotable);
            },
        }
        let i = self.slot_of(action)?;
        if self.participants == u64::MAX || self.option_participants[i] == u64::MAX {
            return Err(Error::Overflow);
        }
        // update proposal result
        self.update_votes(action, amount, total, true)?;
        self.add_participant(action)
    }

    /// Takes the vote `action` of the weight `amount` back: the tally of its option
    /// falls by `amount`, and the voter is no longer counted.
    pub fn cancel_vote(&mut self, action: &Action, amount: u128, total: u128) -> (res: Result<
        (),
        Error,
    >)
        requires
            old(self).wf(),
        ensures
            match old(self)@.cancel_vote(*action, amount, total) {
                Ok(post) => res is Ok && final(self)@ == post,
                Err(e) => res == Err::<(), Error>(e) && final(self)@ == old(self)@,
            },
            final(self).wf(),
    {
        match self.status {
            Some(ProposalStatus::InProgress) => {},
            _ => {
                return Err(Error::VoteCanNotCancel);
            },
        }
        let i = self.slot_of(action)?;
        if self.participants == 0 || self.option_participants[i] == 0 {
            return Err(Error::Overflow);
        }
        // update proposal result
        self.update_votes(action, amount, total, false)?;
        self.remove_participant(action)
    }
}

impl ContractView {
    /// The ledger after a vote `action` of the weight `amount` was cast on the
    /// proposal `proposal_id`.
    pub open spec fn internal_append_vote(self, proposal_id: u32, action: Action, amount: u128) -> Result<
        ContractView,
        Error,
    > {
        if !self.proposals.contains_key(proposal_id) {
            Err(Error::ProposalNotExist)
        } else {
            match self.proposals[proposal_id].append_vote(action, amount, self.cur_total_ve_lpt) {
                Ok(post) => Ok(
                    ContractView { proposals: self.proposals.insert(proposal_id, post), ..self },
                ),
                Err(e) => Err(e),
            }
        }
    }

    /// The ledger after the vote `action` of the weight `amount` on the proposal
    /// `proposal_id` was taken back.
    pub open spec fn internal_cancel_vote(self, proposal_id: u32, action: Action, amount: u128) -> Result<
        ContractView,
        Error,
    > {
        if !self.proposals.contains_key(proposal_id) {
            Err(Error::ProposalNotExist)
        } else {
            match self.proposals[proposal_id].cancel_vote(action, amount, self.cur_total_ve_lpt) {
                Ok(post) => Ok(
                    ContractView { proposals: self.proposals.insert(proposal_id, post), ..self },
                ),
                Err(e) => Err(e),
            }
        }
    }
}

impl Contract {
    /// Casts the vote `action` with the weight `amount` on the proposal
    /// `proposal_id`.
    pub fn internal_append_vote(&mut self, proposal_id: u32, action: &Action, amount: u128) -> (res:
        Result<(), Error>)
        requires
            old(self).wf(),
        ensures
            final(self).wf(),
            match old(self)@.internal_append_vote(proposal_id, *action, amount) {
                Ok(post) => res is Ok && final(self)@ == post,
                Err(e) => res == Err::<(), Error>(e) && final(self)@ == old(self)@,
            },
    {
        let mut proposal = self.internal_unwrap_proposal(proposal_id)?;
        proposal.append_vote(action, amount, self.cur_total_ve_lpt)?;
        self.internal_set_proposal(proposal_id, proposal);
        Ok(())
    }

    /// Takes the vote `action` of the weight `amount` on the proposal `proposal_id`
    /// back.
    pub fn internal_cancel_vote(&mut self, proposal_id: u32, action: &Action, amount: u128) -> (res:
        Result<(), Error>)
        requires
            old(self).wf(),
        ensures
            final(self).wf(),
            match old(self)@.internal_cancel_vote(proposal_id, *action, amount) {
                Ok(post) => res is Ok && final(self)@ == post,
                Err(e) => res == Err::<(), Error>(e) && final(self)@ == old(self)@,
            },
    {
        let mut proposal = self.internal_unwrap_proposal(proposal_id)?;
        proposal.cancel_vote(action, amount, self.cur_total_ve_lpt)?;
        self.internal_set_proposal(proposal_id, proposal);
        Ok(())
    }
}

} // verus!
