//! Locking and withdrawing through the ledger.

use vstd::prelude::*;
use crate::account::{Account, AccountView, Balance};
use crate::contract::{Contract, ContractView};
use crate::errors::Error;
use crate::reconcile::WeightChange;

verus! {

broadcast use vstd::std_specs::hash::group_hash_axioms;

/// What a change of the locked balance comes to, before any open vote is looked at.
pub struct Staked {
    /// The ledger with its counters moved.
    pub ledger: ContractView,
    /// The account with its balance and weight moved.
    pub account: AccountView,
    /// The change of the weight of the account.
    pub change: WeightChange,
}

impl ContractView {
    /// The account of `account_id`, or an empty one where the ledger holds none.
    pub open spec fn account_or_default(self, account_id: Seq<char>) -> AccountView {
        if self.accounts.contains_key(account_id) {
            self.accounts[account_id]
        } else {
            AccountView::empty()
        }
    }

    /// The first part of locking `amount` more for `duration_sec` at `timestamp`:
    /// the account takes the lock, and the ledger counts the account, if it is new,
    /// and the amount and weight that it gained.
    pub open spec fn stake_lock(self, account_id: Seq<char>, amount: Balance, duration_sec: u32, timestamp: u64) -> Result<
        Staked,
        Error,
    > {
        let account = self.account_or_default(account_id);
        let count = if self.accounts.contains_key(account_id) {
            self.account_count as int
        } else {
            self.account_count + 1
        };
        match account.lock_lpt(amount, duration_sec, self.config, timestamp) {
            Err(e) => Err(e),
            Ok((post, gained)) => if count > u64::MAX || self.cur_total_ve_lpt + gained
                > u128::MAX || self.cur_lock_lpt + amount > u128::MAX {
                Err(Error::Overflow)
            } else {
                Ok(
                    Staked {
                        ledger: ContractView {
                            account_count: count as u64,
                            cur_total_ve_lpt: (self.cur_total_ve_lpt + gained) as u128,
                            cur_lock_lpt: (self.cur_lock_lpt + amount) as u128,
                            ..self
                        },
                        account: post,
                        change: WeightChange {
                            prev: account.ve_lpt_amount,
                            diff: gained,
                            is_increased: true,
                        },
                    },
                )
            },
        }
    }

    /// The first part of withdrawing `amount` at `timestamp`: the account gives up
    /// the amount, and the ledger counts the amount and weight that it lost.
    pub open spec fn stake_withdraw(self, account_id: Seq<char>, amount: Balance, timestamp: u64) -> Result<
        Staked,
        Error,
    > {
        if !self.accounts.contains_key(account_id) {
            Err(Error::AccNotRegistered)
        } else {
            let account = self.accounts[account_id];
            match account.withdraw_lpt(amount, timestamp) {
                Err(e) => Err(e),
                Ok((post, lost)) => if self.cur_total_ve_lpt < lost || self.cur_lock_lpt
                    < amount {
                    Err(Error::Overflow)
                } else {
                    Ok(
                        Staked {
                            ledger: ContractView {
                                cur_total_ve_lpt: (self.cur_total_ve_lpt - lost) as u128,
                                cur_lock_lpt: (self.cur_lock_lpt - amount) as u128,
                                ..self
                            },
                            account: post,
                            change: WeightChange {
                                prev: account.ve_lpt_amount,
                                diff: lost,
                                is_increased: false,
                            },
                        },
                    )
                },
            }
        }
    }
}

impl Staked {
    /// The ledger after the open votes of the account were brought in step with
    /// the change and the account was stored under `account_id`.
    pub open spec fn settled(self, account_id: Seq<char>) -> ContractView {
        let (ledger, account) = self.ledger.update_impacted_proposals(self.account, self.change);
        ContractView { accounts: ledger.accounts.insert(account_id, account), ..ledger }
    }
}

impl Contract {
    /// Brings the open votes of `account` in step with `change`, with `total` as the
    /// escrow weight of the ledger, and stores the account and the counters.
    fn settle_stake(
        &mut self,
        account_id: &String,
        mut account: Account,
        change: WeightChange,
        total: Balance,
        locked: Balance,
        count: u64,
    ) -> (res: Result<(), Error>)
        requires
            old(self).wf(),
            account.wf(),
        ensures
            final(self).wf(),
            ({
                let staked = Staked {
                    ledger: ContractView {
                        account_count: count,
                        cur_total_ve_lpt: total,
                        cur_lock_lpt: locked,
                        ..old(self)@
                    },
                    account: account@,
                    change,
                };
                if staked.ledger.can_reconcile(staked.account, change) {
                    res is Ok && final(self)@ == staked.settled(account_id@)
                } else {
                    &&& res is Err
                    &&& staked.ledger.reconcile_error(staked.account, change, res->Err_0)
                    &&& final(self)@ == old(self)@
                }
            }),
    {
        let total_before = self.cur_total_ve_lpt;
        let locked_before = self.cur_lock_lpt;
        let count_before = self.account_count;
        self.cur_total_ve_lpt = total;
        self.cur_lock_lpt = locked;
        self.account_count = count;
        match self.update_impacted_proposals(
            &mut account,
            change.prev,
            change.diff,
            change.is_increased,
        ) {
            Ok(()) => {
                self.internal_set_account(account_id, account);
                Ok(())
            },
            Err(e) => {
                self.cur_total_ve_lpt = total_before;
                self.cur_lock_lpt = locked_before;
                self.account_count = count_before;
                Err(e)
            },
        }
    }

    /// Locks `amount` more for `duration_sec` from `timestamp` on in the account of
    /// `account_id`, which is made where the ledger holds none, and returns the
    /// escrow weight that the account gained.
    ///
    /// The open votes of the account follow: votes on expired proposals are
    /// settled with the weight before, the tallies of the others rise by the
    /// weight gained.
    pub fn lock_lpt(&mut self, account_id: &String, amount: Balance, duration_sec: u32, timestamp: u64) -> (res:
        Result<Balance, Error>)
        requires
            old(self).wf(),
        ensures
            final(self).wf(),
            match old(self)@.stake_lock(account_id@, amount, duration_sec, timestamp) {
                Err(e) => res == Err::<Balance, Error>(e) && final(self)@ == old(self)@,
                Ok(staked) => if staked.ledger.can_reconcile(staked.account, staked.change) {
                    res == Ok::<Balance, Error>(staked.change.diff) && final(self)@
                        == staked.settled(account_id@)
                } else {
                    &&& res is Err
                    &&& staked.ledger.reconcile_error(staked.account, staked.change, res->Err_0)
                    &&& final(self)@ == old(self)@
                },
            },
    {
        let (mut account, count) = match self.internal_get_account(account_id) {
            Some(account) => (account, Some(self.account_count)),
            None => (Account::default(), self.account_count.checked_add(1)),
        };
        let prev = account.ve_lpt_amount;
        let config = self.config;
        let gained = account.lock_lpt(amount, duration_sec, &config, timestamp)?;
        let total = self.cur_total_ve_lpt.checked_add(gained);
        let locked = self.cur_lock_lpt.checked_add(amount);
        match (count, total, locked) {
            (Some(count), Some(total), Some(locked)) => {
                let change = WeightChange { prev, diff: gained, is_increased: true };
                self.settle_stake(account_id, account, change, total, locked, count)?;
                Ok(gained)
            },
            _ => Err(Error::Overflow),
        }
    }

    /// Withdraws `amount` of the locked balance of the account of `account_id` at
    /// `timestamp`, and returns the escrow weight that the account lost.
    ///
    /// The open votes of the account follow: votes on expired proposals are
    /// settled with the weight before, the tallies of the others fall by the
    /// weight lost, and an account left without weight is no longer counted among
    /// their voters, though its votes stay open.
    pub fn withdraw_lpt(&mut self, account_id: &String, amount: Balance, timestamp: u64) -> (res:
        Result<Balance, Error>)
        requires
            old(self).wf(),
        ensures
            final(self).wf(),
            match old(self)@.stake_withdraw(account_id@, amount, timestamp) {
                Err(e) => res == Err::<Balance, Error>(e) && final(self)@ == old(self)@,
                Ok(staked) => if staked.ledger.can_reconcile(staked.account, staked.change) {
                    res == Ok::<Balance, Error>(staked.change.diff) && final(self)@
                        == staked.settled(account_id@)
                } else {
                    &&& res is Err
                    &&& staked.ledger.reconcile_error(staked.account, staked.change, res->Err_0)
                    &&& final(self)@ == old(self)@
                },
            },
    {
        let mut account = self.internal_unwrap_account(account_id)?;
        let prev = account.ve_lpt_amount;
        let lost = account.withdraw_lpt(amount, timestamp)?;
        let total = self.cur_total_ve_lpt.checked_sub(lost);
        let locked = self.cur_lock_lpt.checked_sub(amount);
        match (total, locked) {
            (Some(total), Some(locked)) => {
                let change = WeightChange { prev, diff: lost, is_increased: false };
                let count = self.account_count;
                self.settle_stake(account_id, account, change, total, locked, count)?;
                Ok(lost)
            },
            _ => Err(Error::Overflow),
        }
    }
}

} // verus!
