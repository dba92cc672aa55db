//! Casting a vote and taking it back.

use vstd::prelude::*;
use crate::account::{AccountView, Balance};
use crate::contract::{Contract, ContractView};
use crate::errors::Error;
use crate::proposals_action::Action;
use crate::reconcile::WeightChange;

verus! {

broadcast use vstd::std_specs::hash::group_hash_axioms;

/// The change that leaves the weight `weight` as it is; reconciling with it
/// settles the votes on expired proposals and nothing else.
pub open spec fn no_change(weight: Balance) -> WeightChange {
    WeightChange { prev: weight, diff: 0, is_increased: false }
}

impl ContractView {
    /// Why `proposer` cannot record a vote on the proposal `proposal_id`, if
    /// anything stands against it.
    pub open spec fn account_vote_error(self, proposer: Seq<char>, proposal_id: u32) -> Option<
        Error,
    > {
        if !self.accounts.contains_key(proposer) {
            Some(Error::AccNotRegistered)
        } else if self.accounts[proposer].ve_lpt_amount == 0 {
            Some(Error::InsufficientVeLpt)
        } else if self.accounts[proposer].proposals.contains_key(proposal_id) {
            Some(Error::AlreadyVoted)
        } else {
            None
        }
    }

    /// The ledger after `proposer` settled the votes on expired proposals and
    /// recorded the vote `action` on the proposal `proposal_id`.
    pub open spec fn internal_account_vote(self, proposer: Seq<char>, proposal_id: u32, action: Action) -> ContractView {
        let account = self.accounts[proposer];
        let (ledger, settled) = self.update_impacted_proposals(
            account,
            no_change(account.ve_lpt_amount),
        );
        ContractView {
            accounts: ledger.accounts.insert(
                proposer,
                AccountView { proposals: settled.proposals.insert(proposal_id, action), ..settled },
            ),
            ..ledger
        }
    }

    /// Why `proposer` cannot give up a vote on the proposal `proposal_id`, if
    /// anything stands against it.
    pub open spec fn account_cancel_error(self, proposer: Seq<char>, proposal_id: u32) -> Option<
        Error,
    > {
        if !self.accounts.contains_key(proposer) {
            Some(Error::AccNotRegistered)
        } else if !self.accounts[proposer].proposals.contains_key(proposal_id) {
            Some(Error::NoVoted)
        } else {
            None
        }
    }

    /// The account of `proposer` without its vote on the proposal `proposal_id`.
    pub open spec fn without_vote(self, proposer: Seq<char>, proposal_id: u32) -> AccountView {
        let account = self.accounts[proposer];
        AccountView { proposals: account.proposals.remove(proposal_id), ..account }
    }

    /// The ledger after `proposer` gave up the vote on the proposal `proposal_id`
    /// and settled the other votes on expired proposals.
    pub open spec fn internal_account_cancel_vote(self, proposer: Seq<char>, proposal_id: u32) -> ContractView {
        let account = self.without_vote(proposer, proposal_id);
        let (ledger, settled) = self.update_impacted_proposals(
            account,
            no_change(account.ve_lpt_amount),
        );
        ContractView { accounts: ledger.accounts.insert(proposer, settled), ..ledger }
    }
}

impl Contract {
    /// Records the vote `action` of `proposer` on the proposal `proposal_id`, and
    /// returns the weight of the vote: the escrow weight of the account.
    ///
    /// The account needs weight, and can hold one vote on a proposal only. Before
    /// the vote is recorded, the votes of the account on expired proposals are
    /// settled.
    pub fn internal_account_vote(&mut self, proposer: &String, proposal_id: u32, action: &Action) -> (res:
        Result<Balance, Error>)
        requires
            old(self).wf(),
        ensures
            final(self).wf(),
            match old(self)@.account_vote_error(proposer@, proposal_id) {
                Some(e) => res == Err::<Balance, Error>(e) && final(self)@ == old(self)@,
                None => {
                    let account = old(self)@.accounts[proposer@];
                    let change = no_change(account.ve_lpt_amount);
                    if old(self)@.can_reconcile(account, change) {
                        &&& res == Ok::<Balance, Error>(account.ve_lpt_amount)
                        &&& final(self)@ == old(self)@.internal_account_vote(
                            proposer@,
                            proposal_id,
                            *action,
                        )
                    } else {
                        &&& res is Err
                        &&& old(self)@.reconcile_error(account, change, res->Err_0)
                        &&& final(self)@ == old(self)@
                    }
                },
            },
    {
        let mut account = self.internal_unwrap_account(proposer)?;
        let ve_lpt_amount = account.ve_lpt_amount;
        if ve_lpt_amount == 0 {
            return Err(Error::InsufficientVeLpt);
        }
        if account.proposals.contains_key(&proposal_id) {
            return Err(Error::AlreadyVoted);
        }
        self.internal_claim_all(&mut account)?;
        account.proposals.insert(proposal_id, *action);
        self.internal_set_account(proposer, account);
        Ok(ve_lpt_amount)
    }

    /// Gives up the vote of `proposer` on the proposal `proposal_id`, and returns
    /// the action of the vote and the escrow weight of the account.
    ///
    /// The other votes of the account on expired proposals are settled.
    pub fn internal_account_cancel_vote(&mut self, proposer: &String, proposal_id: u32) -> (res:
        Result<(Action, Balance), Error>)
        requires
            old(self).wf(),
        ensures
            final(self).wf(),
            match old(self)@.account_cancel_error(proposer@, proposal_id) {
                Some(e) => res == Err::<(Action, Balance), Error>(e) && final(self)@ == old(self)@,
                None => {
                    let account = old(self)@.without_vote(proposer@, proposal_id);
                    let change = no_change(account.ve_lpt_amount);
                    if old(self)@.can_reconcile(account, change) {
                        &&& res == Ok::<(Action, Balance), Error>(
                            (
                                old(self)@.accounts[proposer@].proposals[proposal_id],
                                account.ve_lpt_amount,
                            ),
                        )
                        &&& final(self)@ == old(self)@.internal_account_cancel_vote(
                            proposer@,
                            proposal_id,
                        )
                    } else {
                        &&& res is Err
                        &&& old(self)@.reconcile_error(account, change, res->Err_0)
                        &&& final(self)@ == old(self)@
                    }
                },
            },
    {
        let mut account = self.internal_unwrap_account(proposer)?;
        let ve_lpt_amount = account.ve_lpt_amount;
        let action = match account.proposals.remove(&proposal_id) {
            Some(action) => action,
            None => {
                return Err(Error::NoVoted);
            },
        };
        self.internal_claim_all(&mut account)?;
        self.internal_set_account(proposer, account);
        Ok((action, ve_lpt_amount))
    }
}

} // verus!
