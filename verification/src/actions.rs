//! The operations of the ledger, each done as a whole or not at all.

use vstd::prelude::*;
use crate::account::{balance_of, Account, AccountView, Balance};
use crate::contract::{Contract, ContractView};
use crate::errors::Error;
use crate::proposals::{IncentiveType, ProposalStatus};
use crate::proposals_action::Action;
use crate::reconcile::WeightChange;
use crate::str_map::StrMap;
use crate::voting::no_change;

verus! {

broadcast use vstd::std_specs::hash::group_hash_axioms;

impl ContractView {
    /// Why the vote `action` of `proposer` cannot be cast on the proposal
    /// `proposal_id`, before any open vote is looked at.
    pub open spec fn action_proposal_error(self, proposer: Seq<char>, proposal_id: u32, action: Action) -> Option<
        Error,
    > {
        match self.account_vote_error(proposer, proposal_id) {
            Some(e) => Some(e),
            None => match self.internal_append_vote(
                proposal_id,
                action,
                self.accounts[proposer].ve_lpt_amount,
            ) {
                Ok(_) => None,
                Err(e) => Some(e),
            },
        }
    }

    /// The ledger after `proposer` cast the vote `action` on the proposal
    /// `proposal_id` with the whole weight of the account.
    pub open spec fn action_proposal(self, proposer: Seq<char>, proposal_id: u32, action: Action) -> ContractView {
        let weight = self.accounts[proposer].ve_lpt_amount;
        let recorded = self.internal_account_vote(proposer, proposal_id, action);
        ContractView {
            proposals: recorded.proposals.insert(
                proposal_id,
                self.proposals[proposal_id].append_vote(
                    action,
                    weight,
                    self.cur_total_ve_lpt,
                )->Ok_0,
            ),
            ..recorded
        }
    }

    /// Why `proposer` cannot take the vote on the proposal `proposal_id` back,
    /// before any other open vote is looked at.
    pub open spec fn action_cancel_error(self, proposer: Seq<char>, proposal_id: u32) -> Option<
        Error,
    > {
        match self.account_cancel_error(proposer, proposal_id) {
            Some(e) => Some(e),
            None => match self.internal_cancel_vote(
                proposal_id,
                self.accounts[proposer].proposals[proposal_id],
                self.accounts[proposer].ve_lpt_amount,
            ) {
                Ok(_) => None,
                Err(e) => Some(e),
            },
        }
    }

    /// The ledger after `proposer` took the vote on the proposal `proposal_id`
    /// back.
    pub open spec fn action_cancel(self, proposer: Seq<char>, proposal_id: u32) -> ContractView {
        let account = self.accounts[proposer];
        let given_up = self.internal_account_cancel_vote(proposer, proposal_id);
        ContractView {
            proposals: given_up.proposals.insert(
                proposal_id,
                self.proposals[proposal_id].cancel_vote(
                    account.proposals[proposal_id],
                    account.ve_lpt_amount,
                    self.cur_total_ve_lpt,
                )->Ok_0,
            ),
            ..given_up
        }
    }

    /// The ledger after `amount` of `token` was deposited for the voters of the
    /// option `incentive_key` of the proposal `proposal_id`.
    pub open spec fn deposit_reward(
        self,
        proposal_id: u32,
        incentive_key: usize,
        incentive_type: IncentiveType,
        token: Seq<char>,
        amount: Balance,
    ) -> Result<ContractView, Error> {
        if !self.proposals.contains_key(proposal_id) {
            Err(Error::ProposalNotExist)
        } else {
            match self.proposals[proposal_id].deposit_reward(
                incentive_key,
                incentive_type,
                token,
                amount,
            ) {
                Ok(post) => Ok(
                    ContractView { proposals: self.proposals.insert(proposal_id, post), ..self },
                ),
                Err(e) => Err(e),
            }
        }
    }

    /// Whether the account `account_id` holds a vote on the proposal `proposal_id`
    /// that is ready to be settled.
    pub open spec fn claimable(self, account_id: Seq<char>, proposal_id: u32) -> bool {
        &&& self.accounts.contains_key(account_id)
        &&& self.proposals.contains_key(proposal_id)
        &&& self.accounts[account_id].proposals.contains_key(proposal_id)
        &&& self.proposals[proposal_id].status == Some(ProposalStatus::Expired)
    }

    /// The ledger after the account `account_id` claimed the reward of its vote on
    /// the proposal `proposal_id`. A vote is settled once and then gone, so that a
    /// second claim finds nothing to do.
    pub open spec fn claim_reward(self, account_id: Seq<char>, proposal_id: u32) -> Result<
        ContractView,
        Error,
    > {
        if !self.accounts.contains_key(account_id) {
            Err(Error::AccNotRegistered)
        } else if !self.proposals.contains_key(proposal_id) {
            Err(Error::ProposalNotExist)
        } else if !self.claimable(account_id, proposal_id) {
            Ok(self)
        } else {
            let account = self.accounts[account_id];
            match self.proposals[proposal_id].claim_reward(
                account.proposals[proposal_id],
                account.ve_lpt_amount,
            ) {
                Err(e) => Err(e),
                Ok((post, reward)) => {
                    let paid = match reward {
                        Some((token, amount)) => Map::<Seq<char>, Balance>::empty().insert(
                            token,
                            amount,
                        ),
                        None => Map::<Seq<char>, Balance>::empty(),
                    };
                    match account.add_rewards(paid) {
                        Err(e) => Err(e),
                        Ok(credited) => Ok(
                            ContractView {
                                accounts: self.accounts.insert(
                                    account_id,
                                    AccountView {
                                        proposals: credited.proposals.remove(proposal_id),
                                        ..credited
                                    },
                                ),
                                proposals: self.proposals.insert(proposal_id, post),
                                ..self
                            },
                        ),
                    }
                },
            }
        }
    }

    /// The ledger after the account `account_id` took `amount` of its reward in
    /// `token`, or the whole of it where `amount` is `None`, and the amount taken.
    pub open spec fn withdraw_reward(self, account_id: Seq<char>, token: Seq<char>, amount: Option<
        Balance,
    >) -> Result<(ContractView, Balance), Error> {
        if !self.accounts.contains_key(account_id) {
            Err(Error::AccNotRegistered)
        } else {
            let account = self.accounts[account_id];
            let taken = match amount {
                Some(a) => a,
                None => balance_of(account.rewards, token),
            };
            match account.sub_reward(token, taken) {
                Ok(post) => Ok(
                    (ContractView { accounts: self.accounts.insert(account_id, post), ..self }, taken),
                ),
                Err(e) => Err(e),
            }
        }
    }

    /// The ledger after `amount` of `token` was given back to the account
    /// `account_id`, as after a transfer that failed.
    pub open spec fn restore_reward(self, account_id: Seq<char>, token: Seq<char>, amount: Balance) -> Result<
        ContractView,
        Error,
    > {
        if !self.accounts.contains_key(account_id) {
            Err(Error::AccNotRegistered)
        } else {
            match self.accounts[account_id].add_rewards(
                Map::<Seq<char>, Balance>::empty().insert(token, amount),
            ) {
                Ok(post) => Ok(
                    ContractView { accounts: self.accounts.insert(account_id, post), ..self },
                ),
                Err(e) => Err(e),
            }
        }
    }

    /// The ledger after the account `account_id` left it. An account leaves only
    /// with all its rewards withdrawn.
    pub open spec fn unregister_account(self, account_id: Seq<char>) -> Result<ContractView, Error> {
        if !self.accounts.contains_key(account_id) {
            Err(Error::AccNotRegistered)
        } else if self.accounts[account_id].rewards != Map::<Seq<char>, Balance>::empty() {
            Err(Error::StillHasReward)
        } else if self.account_count == 0 {
            Err(Error::Overflow)
        } else {
            Ok(
                ContractView {
                    accounts: self.accounts.remove(account_id),
                    account_count: (self.account_count - 1) as u64,
                    ..self
                },
            )
        }
    }
}

/// Claiming twice leaves the ledger as claiming once does: the second claim
/// succeeds and changes nothing, so no reward is paid a second time.
pub proof fn lemma_claim_reward_is_idempotent(ledger: ContractView, account_id: Seq<char>, proposal_id: u32)
    requires
        ledger.claim_reward(account_id, proposal_id) is Ok,
    ensures
        ledger.claim_reward(account_id, proposal_id)->Ok_0.claim_reward(account_id, proposal_id)
            == ledger.claim_reward(account_id, proposal_id),
{
    let once = ledger.claim_reward(account_id, proposal_id)->Ok_0;
    if ledger.claimable(account_id, proposal_id) {
        assert(!once.accounts[account_id].proposals.contains_key(proposal_id));
        assert(!once.claimable(account_id, proposal_id));
    }
}

/// An account holds at most one open vote on a proposal: once a vote was cast,
/// a second one on the same proposal is refused, whatever it says.
pub proof fn lemma_second_vote_is_refused(
    ledger: ContractView,
    proposer: Seq<char>,
    proposal_id: u32,
    first: Action,
    second: Action,
)
    requires
        ledger.action_proposal_error(proposer, proposal_id, first) is None,
    ensures
        ledger.action_proposal(proposer, proposal_id, first).accounts[proposer].proposals[proposal_id]
            == first,
        ledger.action_proposal(proposer, proposal_id, first).action_proposal_error(
            proposer,
            proposal_id,
            second,
        ) == Some(Error::AlreadyVoted),
{
    let voted = ledger.action_proposal(proposer, proposal_id, first);
    assert(voted.accounts.contains_key(proposer));
    assert(voted.accounts[proposer].ve_lpt_amount == ledger.accounts[proposer].ve_lpt_amount);
    assert(voted.accounts[proposer].proposals.contains_key(proposal_id));
}

/// A table of rewards with the one entry `amount` for `token`.
fn single_reward(token: &String, amount: Balance) -> (rewards: StrMap<Balance>)
    ensures
        rewards.wf(),
        rewards@ == Map::<Seq<char>, Balance>::empty().insert(token@, amount),
{
    let mut rewards: StrMap<Balance> = StrMap::new();
    rewards.insert(token.clone(), amount);
    rewards
}

impl Contract {
    /// Casts the vote `action` of `proposer` on the proposal `proposal_id` with the
    /// whole escrow weight of the account, and returns that weight.
    ///
    /// The account must hold weight and no vote on the proposal yet; the proposal
    /// must be in progress and the action fit it. The votes of the account on
    /// expired proposals are settled on the way.
    pub fn action_proposal(&mut self, proposer: &String, proposal_id: u32, action: &Action) -> (res:
        Result<Balance, Error>)
        requires
            old(self).wf(),
        ensures
            final(self).wf(),
            match old(self)@.action_proposal_error(proposer@, proposal_id, *action) {
                Some(e) => res == Err::<Balance, Error>(e) && final(self)@ == old(self)@,
                None => {
                    let account = old(self)@.accounts[proposer@];
                    let change = no_change(account.ve_lpt_amount);
                    if old(self)@.can_reconcile(account, change) {
                        &&& res == Ok::<Balance, Error>(account.ve_lpt_amount)
                        &&& final(self)@ == old(self)@.action_proposal(
                            proposer@,
                            proposal_id,
                            *action,
                        )
                    } else {
                        &&& res is Err
                        &&& old(self)@.reconcile_error(account, change, res->Err_0)
                        &&& final(self)@ == old(self)@
                    }
                },
            },
    {
        let account = self.internal_unwrap_account(proposer)?;
        let ve_lpt_amount = account.ve_lpt_amount;
        if ve_lpt_amount == 0 {
            return Err(Error::InsufficientVeLpt);
        }
        if account.proposals.contains_key(&proposal_id) {
            return Err(Error::AlreadyVoted);
        }
        let mut proposal = self.internal_unwrap_proposal(proposal_id)?;
        proposal.append_vote(action, ve_lpt_amount, self.cur_total_ve_lpt)?;
        self.internal_account_vote(proposer, proposal_id, action)?;
        self.internal_set_proposal(proposal_id, proposal);
        Ok(ve_lpt_amount)
    }

    /// Takes the vote of `proposer` on the proposal `proposal_id` back, and
    /// returns the escrow weight of the account.
    ///
    /// The proposal must be in progress. The other votes of the account on expired
    /// proposals are settled on the way.
    pub fn action_cancel(&mut self, proposer: &String, proposal_id: u32) -> (res: Result<
        Balance,
        Error,
    >)
        requires
            old(self).wf(),
        ensures
            final(self).wf(),
            match old(self)@.action_cancel_error(proposer@, proposal_id) {
                Some(e) => res == Err::<Balance, Error>(e) && final(self)@ == old(self)@,
                None => {
                    let account = old(self)@.without_vote(proposer@, proposal_id);
                    let change = no_change(account.ve_lpt_amount);
                    if old(self)@.can_reconcile(account, change) {
                        &&& res == Ok::<Balance, Error>(account.ve_lpt_amount)
                        &&& final(self)@ == old(self)@.action_cancel(proposer@, proposal_id)
                    } else {
                        &&& res is Err
                        &&& old(self)@.reconcile_error(account, change, res->Err_0)
                        &&& final(self)@ == old(self)@
                    }
                },
            },
    {
        let account = self.internal_unwrap_account(proposer)?;
        let ve_lpt_amount = account.ve_lpt_amount;
        let action: Action = match account.proposals.get(&proposal_id) {
            Some(action) => *action,
            None => {
                return Err(Error::NoVoted);
            },
        };
        let mut proposal = self.internal_unwrap_proposal(proposal_id)?;
        proposal.cancel_vote(&action, ve_lpt_amount, self.cur_total_ve_lpt)?;
        self.internal_account_cancel_vote(proposer, proposal_id)?;
        self.internal_set_proposal(proposal_id, proposal);
        Ok(ve_lpt_amount)
    }

    /// Deposits `amount` of the token `token_id` for the voters of the option
    /// `incentive_key` of the proposal `proposal_id`, and returns what the pool
    /// holds then.
    pub fn deposit_reward(
        &mut self,
        proposal_id: u32,
        incentive_key: usize,
        incentive_type: IncentiveType,
        token_id: &String,
        amount: Balance,
    ) -> (res: Result<Balance, Error>)
        requires
            old(self).wf(),
        ensures
            final(self).wf(),
            match old(self)@.deposit_reward(
                proposal_id,
                incentive_key,
                incentive_type,
                token_id@,
                amount,
            ) {
                Ok(post) => res == Ok::<Balance, Error>(
                    post.proposals[proposal_id].incentive[incentive_key].incentive_amount,
                ) && final(self)@ == post,
                Err(e) => res == Err::<Balance, Error>(e) && final(self)@ == old(self)@,
            },
    {
        let mut proposal = self.internal_unwrap_proposal(proposal_id)?;
        let total = proposal.deposit_reward(incentive_key, incentive_type, token_id, amount)?;
        self.internal_set_proposal(proposal_id, proposal);
        Ok(total)
    }

    /// Settles the vote of the account `account_id` on the proposal `proposal_id`,
    /// if the proposal has expired: the account is paid its share and gives up the
    /// vote. Where there is nothing to settle, nothing changes.
    pub fn claim_reward(&mut self, account_id: &String, proposal_id: u32) -> (res: Result<(), Error>)
        requires
            old(self).wf(),
        ensures
            final(self).wf(),
            match old(self)@.claim_reward(account_id@, proposal_id) {
                Ok(post) => res is Ok && final(self)@ == post,
                Err(e) => res == Err::<(), Error>(e) && final(self)@ == old(self)@,
            },
    {
        let mut account = self.internal_unwrap_account(account_id)?;
        let mut proposal = self.internal_unwrap_proposal(proposal_id)?;
        let action: Action = match account.proposals.get(&proposal_id) {
            Some(action) => *action,
            None => {
                return Ok(());
            },
        };
        match proposal.status {
            Some(ProposalStatus::Expired) => {},
            _ => {
                return Ok(());
            },
        }
        let reward = proposal.claim_reward(&action, account.ve_lpt_amount)?;
        let paid = match reward {
            Some((token, amount)) => single_reward(&token, amount),
            None => StrMap::new(),
        };
        account.add_rewards(&paid)?;
        account.proposals.remove(&proposal_id);
        self.internal_set_account(account_id, account);
        self.internal_set_proposal(proposal_id, proposal);
        Ok(())
    }

    /// Takes `amount` of the reward that the account `account_id` holds in
    /// `token_id`, or all of it where `amount` is `None`, and returns the amount
    /// that is to be transferred to the user.
    pub fn withdraw_reward(&mut self, account_id: &String, token_id: &String, amount: Option<
        Balance,
    >) -> (res: Result<Balance, Error>)
        requires
            old(self).wf(),
        ensures
            final(self).wf(),
            match old(self)@.withdraw_reward(account_id@, token_id@, amount) {
                Ok((post, taken)) => res == Ok::<Balance, Error>(taken) && final(self)@ == post,
                Err(e) => res == Err::<Balance, Error>(e) && final(self)@ == old(self)@,
            },
    {
        let mut account = self.internal_unwrap_account(account_id)?;
        let total: Balance = match account.rewards.get(token_id) {
            Some(b) => *b,
            None => 0,
        };
        let taken = match amount {
            Some(a) => a,
            None => total,
        };
        account.sub_reward(token_id, taken)?;
        self.internal_set_account(account_id, account);
        Ok(taken)
    }

    /// Gives `amount` of `token_id` back to the account `account_id`, after the
    /// transfer that followed a withdrawal failed.
    pub fn restore_reward(&mut self, account_id: &String, token_id: &String, amount: Balance) -> (res:
        Result<(), Error>)
        requires
            old(self).wf(),
        ensures
            final(self).wf(),
            match old(self)@.restore_reward(account_id@, token_id@, amount) {
                Ok(post) => res is Ok && final(self)@ == post,
                Err(e) => res == Err::<(), Error>(e) && final(self)@ == old(self)@,
            },
    {
        let mut account = self.internal_unwrap_account(account_id)?;
        let paid = single_reward(token_id, amount);
        account.add_rewards(&paid)?;
        self.internal_set_account(account_id, account);
        Ok(())
    }

    /// Takes the account of `account_id` out of the ledger, unless it still holds
    /// a reward.
    pub fn unregister_account(&mut self, account_id: &String) -> (res: Result<(), Error>)
        requires
            old(self).wf(),
        ensures
            final(self).wf(),
            match old(self)@.unregister_account(account_id@) {
                Ok(post) => res is Ok && final(self)@ == post,
                Err(e) => res == Err::<(), Error>(e) && final(self)@ == old(self)@,
            },
    {
        let account = self.internal_unwrap_account(account_id)?;
        if !account.rewards.is_empty() {
            return Err(Error::StillHasReward);
        }
        self.internal_remove_account(account_id)
    }
}

} // verus!
