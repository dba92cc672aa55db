//! The ledger: its accounts, its proposals and the counters kept over them.

use vstd::prelude::*;
use std::collections::HashMap;
use crate::account::{Account, AccountView, Balance, Config};
use crate::errors::Error;
use crate::proposals::{Proposal, ProposalView};
use crate::str_map::StrMap;

verus! {

broadcast use vstd::std_specs::hash::group_hash_axioms;

/// The state that every operation of the ledger works on.
pub struct Contract {
    /// The parameters of the locking curve.
    pub config: Config,
    /// The accounts, by the identifier of their user.
    pub accounts: StrMap<Account>,
    /// The proposals, by their identifier.
    pub proposals: HashMap<u32, Proposal>,
    /// The escrow weight that all accounts hold together.
    pub cur_total_ve_lpt: Balance,
    /// The amount that all accounts have locked together.
    pub cur_lock_lpt: Balance,
    /// The number of accounts.
    pub account_count: u64,
}

/// The ledger as plain values.
pub struct ContractView {
    pub config: Config,
    pub accounts: Map<Seq<char>, AccountView>,
    pub proposals: Map<u32, ProposalView>,
    pub cur_total_ve_lpt: Balance,
    pub cur_lock_lpt: Balance,
    pub account_count: u64,
}

impl View for Contract {
    type V = ContractView;

    open spec fn view(&self) -> ContractView {
        ContractView {
            config: self.config,
            accounts: self.accounts@.map_values(|a: Account| a@),
            proposals: self.proposals@.map_values(|p: Proposal| p@),
            cur_total_ve_lpt: self.cur_total_ve_lpt,
            cur_lock_lpt: self.cur_lock_lpt,
            account_count: self.account_count,
        }
    }
}

impl Contract {
    /// The parameters make a curve, and every account and proposal is in order.
    pub open spec fn wf(&self) -> bool {
        &&& self.config.wf()
        &&& self.accounts.wf()
        &&& forall|id: Seq<char>| #[trigger]
            self.accounts@.contains_key(id) ==> self.accounts@[id].wf()
        &&& forall|id: u32| #[trigger]
            self.proposals@.contains_key(id) ==> self.proposals@[id].wf()
    }

    /// A ledger without accounts and proposals.
    pub fn new(config: Config) -> (contract: Contract)
        requires
            config.wf(),
        ensures
            contract.wf(),
            contract@ == (ContractView {
                config,
                accounts: Map::empty(),
                proposals: Map::empty(),
                cur_total_ve_lpt: 0,
                cur_lock_lpt: 0,
                account_count: 0,
            }),
    {
        let contract = Contract {
            config,
            accounts: StrMap::new(),
            proposals: HashMap::new(),
            cur_total_ve_lpt: 0,
            cur_lock_lpt: 0,
            account_count: 0,
        };
        assert(contract@.accounts =~= Map::<Seq<char>, AccountView>::empty());
        assert(contract@.proposals =~= Map::<u32, ProposalView>::empty());
        contract
    }

    /// A copy of the account of `account_id`, if the ledger holds one.
    pub fn internal_get_account(&self, account_id: &String) -> (res: Option<Account>)
        requires
            self.wf(),
        ensures
            match res {
                Some(account) => self@.accounts.contains_key(account_id@) && account@
                    == self@.accounts[account_id@] && account.wf(),
                None => !self@.accounts.contains_key(account_id@),
            },
    {
        match self.accounts.get(account_id) {
            Some(account) => Some(account.clone()),
            None => None,
        }
    }

    /// A copy of the account of `account_id`; an account that the ledger does not
    /// hold is an error.
    pub fn internal_unwrap_account(&self, account_id: &String) -> (res: Result<Account, Error>)
        requires
            self.wf(),
        ensures
            match res {
                Ok(account) => self@.accounts.contains_key(account_id@) && account@
                    == self@.accounts[account_id@] && account.wf(),
                Err(e) => e == Error::AccNotRegistered && !self@.accounts.contains_key(
                    account_id@,
                ),
            },
    {
        match self.internal_get_account(account_id) {
            Some(account) => Ok(account),
            None => Err(Error::AccNotRegistered),
        }
    }

    /// Stores `account` as the account of `account_id`.
    pub fn internal_set_account(&mut self, account_id: &String, account: Account)
        requires
            old(self).wf(),
            account.wf(),
        ensures
            final(self).wf(),
            final(self)@ == (ContractView {
                accounts: old(self)@.accounts.insert(account_id@, account@),
                ..old(self)@
            }),
    {
        let ghost before = self.accounts@;
        self.accounts.insert(account_id.clone(), account);
        assert(self@.accounts =~= before.map_values(|a: Account| a@).insert(
            account_id@,
            account@,
        ));
    }

    /// A copy of the account of `account_id`, or an empty account where the ledger
    /// holds none. The empty account is counted, and stored only when the caller
    /// sets it.
    pub fn internal_unwrap_or_default_account(&mut self, account_id: &String) -> (res: Result<
        Account,
        Error,
    >)
        requires
            old(self).wf(),
        ensures
            final(self).wf(),
            match res {
                Ok(account) => {
                    &&& account.wf()
                    &&& if old(self)@.accounts.contains_key(account_id@) {
                        account@ == old(self)@.accounts[account_id@] && final(self)@ == old(
                            self,
                        )@
                    } else {
                        account@ == AccountView::empty() && old(self).account_count < u64::MAX
                            && final(self)@ == (ContractView {
                            account_count: (old(self).account_count + 1) as u64,
                            ..old(self)@
                        })
                    }
                },
                Err(e) => e == Error::Overflow && !old(self)@.accounts.contains_key(account_id@)
                    && old(self).account_count == u64::MAX && final(self)@ == old(self)@,
            },
    {
        if let Some(account) = self.internal_get_account(account_id) {
            Ok(account)
        } else {
            match self.account_count.checked_add(1) {
                Some(count) => {
                    self.account_count = count;
                    Ok(Account::default())
                },
                None => Err(Error::Overflow),
            }
        }
    }

    /// Takes the account of `account_id` out of the ledger and counts one account
    /// less.
    pub fn internal_remove_account(&mut self, account_id: &String) -> (res: Result<(), Error>)
        requires
            old(self).wf(),
        ensures
            final(self).wf(),
            if old(self).account_count > 0 {
                res is Ok && final(self)@ == (ContractView {
                    accounts: old(self)@.accounts.remove(account_id@),
                    account_count: (old(self).account_count - 1) as u64,
                    ..old(self)@
                })
            } else {
                res == Err::<(), Error>(Error::Overflow) && final(self)@ == old(self)@
            },
    {
        let count = match self.account_count.checked_sub(1) {
            Some(count) => count,
            None => {
                return Err(Error::Overflow);
            },
        };
        let ghost before = self.accounts@;
        self.accounts.remove(account_id);
        self.account_count = count;
        assert(self@.accounts =~= before.map_values(|a: Account| a@).remove(account_id@));
        Ok(())
    }

    /// A copy of the proposal `proposal_id`; a proposal that the ledger does not hold
    /// is an error.
    pub fn internal_unwrap_proposal(&self, proposal_id: u32) -> (res: Result<Proposal, Error>)
        requires
            self.wf(),
        ensures
            match res {
                Ok(proposal) => self@.proposals.contains_key(proposal_id) && proposal@
                    == self@.proposals[proposal_id] && proposal.wf(),
                Err(e) => e == Error::ProposalNotExist && !self@.proposals.contains_key(
                    proposal_id,
                ),
            },
    {
        match self.proposals.get(&proposal_id) {
            Some(proposal) => Ok(proposal.clone()),
            None => Err(Error::ProposalNotExist),
        }
    }

    /// Stores `proposal` as the proposal `proposal_id`.
    pub fn internal_set_proposal(&mut self, proposal_id: u32, proposal: Proposal)
        requires
            old(self).wf(),
            proposal.wf(),
        ensures
            final(self).wf(),
            final(self)@ == (ContractView {
                proposals: old(self)@.proposals.insert(proposal_id, proposal@),
                ..old(self)@
            }),
    {
        let ghost before = self.proposals@;
        self.proposals.insert(proposal_id, proposal);
        assert(self@.proposals =~= before.map_values(|p: Proposal| p@).insert(
            proposal_id,
            proposal@,
        ));
    }
}

} // verus!
