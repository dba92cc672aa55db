//! Proposals: their kind, status, tally and incentive pools.

use vstd::prelude::*;
use std::collections::HashMap;
use crate::errors::Error;
use vstd::arithmetic::div_mod::{lemma_fundamental_div_mod, lemma_mod_bound};
use crate::math::{checked_ratio, ratio};
use crate::proposals_action::{Action, Vote};

verus! {

broadcast use vstd::std_specs::hash::group_hash_axioms;

/// The category of a proposal; it decides how an action finds its tally slot.
#[derive(Clone, Copy, Debug, PartialEq, Eq, Structural)]
pub enum ProposalKind {
    /// One tally slot per farm.
    FarmingReward,
    /// One tally slot per poll option.
    Poll,
    /// Approve, reject and nonsense slots, then the last seen total escrow weight.
    Common,
}

/// Where a proposal stands in its life.
#[derive(Clone, Copy, Debug, PartialEq, Eq, Structural)]
pub enum ProposalStatus {
    WarmUp,
    InProgress,
    Expired,
}

/// How an incentive pool is shared among the voters of its option.
#[derive(Clone, Copy, Debug, PartialEq, Eq, Structural)]
pub enum IncentiveType {
    /// Every participant gets the same share.
    Evenly,
    /// A voter's share follows the weight of the vote.
    Proportion,
}

/// Reward tokens deposited for the voters of one option.
#[derive(Debug)]
pub struct ProposalIncentive {
    pub incentive_type: IncentiveType,
    pub incentive_token_id: String,
    pub incentive_amount: u128,
    pub claimed_amount: u128,
}

/// An incentive pool as plain values.
pub struct IncentiveView {
    pub incentive_type: IncentiveType,
    pub incentive_token_id: Seq<char>,
    pub incentive_amount: u128,
    pub claimed_amount: u128,
}

impl IncentiveView {
    /// What a voter of weight `weight` is owed from the pool, where `total` is the
    /// weight cast on the option and `participants` the number of its voters.
    ///
    /// A proportional pool pays `incentive_amount * weight / total`, an even one
    /// `incentive_amount / participants`, both rounded down. A vote without weight
    /// is owed nothing.
    pub open spec fn share(self, weight: u128, total: u128, participants: u64) -> int {
        if weight == 0 {
            0
        } else {
            match self.incentive_type {
                IncentiveType::Proportion => if total == 0 {
                    0
                } else {
                    ratio(self.incentive_amount as int, weight as int, total as int)
                },
                IncentiveType::Evenly => if participants == 0 {
                    0
                } else {
                    self.incentive_amount as int / participants as int
                },
            }
        }
    }
}

/// The weights of some votes together.
pub open spec fn total_weight(weights: Seq<u128>) -> int
    decreases weights.len(),
{
    if weights.len() == 0 {
        0
    } else {
        total_weight(weights.drop_last()) + weights.last()
    }
}

impl IncentiveView {
    /// What the votes of the weights `weights` are owed from the pool together.
    pub open spec fn total_share(self, weights: Seq<u128>, total: u128, participants: u64) -> int
        decreases weights.len(),
    {
        if weights.len() == 0 {
            0
        } else {
            self.total_share(weights.drop_last(), total, participants) + self.share(
                weights.last(),
                total,
                participants,
            )
        }
    }
}

/// A share rounded down, times the whole, misses the exact share by less than the
/// whole.
proof fn lemma_share_of_one(deposited: int, weight: int, total: int)
    requires
        0 <= deposited,
        0 <= weight,
        0 < total,
    ensures
        0 <= deposited * weight - ratio(deposited, weight, total) * total <= total - 1,
{
    let x = deposited * weight;
    assert(x >= 0) by (nonlinear_arith)
        requires
            x == deposited * weight,
            0 <= deposited,
            0 <= weight,
    ;
    lemma_fundamental_div_mod(x, total);
    lemma_mod_bound(x, total);
    assert(total * (x / total) == (x / total) * total) by (nonlinear_arith);
}

/// The shares of a proportional pool, times the whole weight, miss the exact
/// shares by less than the whole weight for each vote.
proof fn lemma_proportion_shares(pool: IncentiveView, weights: Seq<u128>, total: u128, participants: u64)
    requires
        pool.incentive_type is Proportion,
        total > 0,
    ensures
        0 <= pool.incentive_amount * total_weight(weights) - pool.total_share(
            weights,
            total,
            participants,
        ) * total <= weights.len() * (total - 1),
        total_weight(weights) >= 0,
        pool.total_share(weights, total, participants) >= 0,
    decreases weights.len(),
{
    if weights.len() > 0 {
        let rest = weights.drop_last();
        let w = weights.last();
        lemma_proportion_shares(pool, rest, total, participants);
        lemma_share_of_one(pool.incentive_amount as int, w as int, total as int);
        let d = pool.incentive_amount as int;
        let t = total as int;
        let s_rest = pool.total_share(rest, total, participants);
        let s_last = pool.share(w, total, participants);
        assert(s_last == ratio(d, w as int, t)) by {
            if w == 0 {
                assert(d * 0 == 0) by (nonlinear_arith);
                assert(0int / t == 0);
            }
        }
        assert(d * (total_weight(rest) + w) == d * total_weight(rest) + d * w)
            by (nonlinear_arith);
        assert((s_rest + s_last) * t == s_rest * t + s_last * t) by (nonlinear_arith);
        assert(weights.len() * (t - 1) == rest.len() * (t - 1) + (t - 1)) by (nonlinear_arith)
            requires
                weights.len() == rest.len() + 1,
        ;
        assert(s_last >= 0) by (nonlinear_arith)
            requires
                s_last * t >= d * w - (t - 1),
                d * w >= 0,
                t > 0,
        ;
    }
}

/// The voters of one option are never owed more from a proportional pool than
/// was deposited in it, as long as their weights together do not exceed the
/// tally of the option. Where the weights make up the whole of a tally that is
/// not empty, rounding leaves less than one unit per voter in the pool.
pub proof fn lemma_proportion_never_overpays(
    pool: IncentiveView,
    weights: Seq<u128>,
    total: u128,
    participants: u64,
)
    requires
        pool.incentive_type is Proportion,
        total_weight(weights) <= total,
    ensures
        0 <= pool.total_share(weights, total, participants) <= pool.incentive_amount,
        total_weight(weights) == total && total > 0 ==> pool.incentive_amount
            - pool.total_share(weights, total, participants) <= weights.len() - 1,
{
    if total == 0 {
        lemma_no_tally_no_share(pool, weights, participants);
    } else {
        lemma_proportion_shares(pool, weights, total, participants);
        let d = pool.incentive_amount as int;
        let t = total as int;
        let s = pool.total_share(weights, total, participants);
        let tw = total_weight(weights);
        let n = weights.len() as int;
        assert(s <= d) by (nonlinear_arith)
            requires
                0 <= d * tw - s * t,
                0 <= tw <= t,
                0 < t,
                0 <= d,
        ;
        if tw == t {
            assert(n > 0);
            assert(d - s <= n - 1) by (nonlinear_arith)
                requires
                    d * t - s * t <= n * (t - 1),
                    0 < t,
                    n > 0,
            ;
        }
    }
}

/// Where nothing was tallied, a proportional pool owes nothing.
proof fn lemma_no_tally_no_share(pool: IncentiveView, weights: Seq<u128>, participants: u64)
    requires
        pool.incentive_type is Proportion,
    ensures
        pool.total_share(weights, 0, participants) == 0,
    decreases weights.len(),
{
    if weights.len() > 0 {
        lemma_no_tally_no_share(pool, weights.drop_last(), participants);
    }
}

/// An even pool owes every voter with weight the same, whatever the weight of
/// the vote and the tally of the option. The participants together are owed no
/// more than was deposited, and rounding leaves less than one unit per
/// participant in the pool.
pub proof fn lemma_evenly_shares_are_equal(
    pool: IncentiveView,
    weight: u128,
    other_weight: u128,
    total: u128,
    other_total: u128,
    participants: u64,
)
    requires
        pool.incentive_type is Evenly,
        weight > 0,
        other_weight > 0,
    ensures
        pool.share(weight, total, participants) == pool.share(
            other_weight,
            other_total,
            participants,
        ),
        0 <= participants * pool.share(weight, total, participants) <= pool.incentive_amount,
        participants > 0 ==> pool.incentive_amount - participants * pool.share(
            weight,
            total,
            participants,
        ) <= participants - 1,
{
    if participants > 0 {
        let d = pool.incentive_amount as int;
        let n = participants as int;
        lemma_fundamental_div_mod(d, n);
        lemma_mod_bound(d, n);
        assert(n * (d / n) >= 0) by (nonlinear_arith)
            requires
                d == n * (d / n) + d % n,
                0 <= d % n < n,
                d >= 0,
                n > 0,
        ;
    } else {
        assert(0 * pool.share(weight, total, participants) == 0) by (nonlinear_arith);
    }
}

impl Clone for ProposalIncentive {
    fn clone(&self) -> (pool: ProposalIncentive)
        ensures
            pool@ == self@,
    {
        ProposalIncentive {
            incentive_type: self.incentive_type,
            incentive_token_id: self.incentive_token_id.clone(),
            incentive_amount: self.incentive_amount,
            claimed_amount: self.claimed_amount,
        }
    }
}

impl View for ProposalIncentive {
    type V = IncentiveView;

    open spec fn view(&self) -> IncentiveView {
        IncentiveView {
            incentive_type: self.incentive_type,
            incentive_token_id: self.incentive_token_id@,
            incentive_amount: self.incentive_amount,
            claimed_amount: self.claimed_amount,
        }
    }
}

/// The part of a proposal that votes and rewards work on.
#[derive(Debug)]
pub struct Proposal {
    pub kind: ProposalKind,
    pub status: Option<ProposalStatus>,
    /// The escrow weight cast on each option; a common proposal has a fourth slot
    /// for the total escrow weight of the ledger as of the last change.
    pub votes: Vec<u128>,
    /// The number of voters on each option whose vote carries weight.
    pub option_participants: Vec<u64>,
    /// The number of voters whose vote carries weight.
    pub participants: u64,
    /// The incentive pool of each option that has one.
    pub incentive: HashMap<usize, ProposalIncentive>,
}

/// A proposal as plain values.
pub struct ProposalView {
    pub kind: ProposalKind,
    pub status: Option<ProposalStatus>,
    pub votes: Seq<u128>,
    pub option_participants: Seq<u64>,
    pub participants: u64,
    pub incentive: Map<usize, IncentiveView>,
}

impl View for Proposal {
    type V = ProposalView;

    open spec fn view(&self) -> ProposalView {
        ProposalView {
            kind: self.kind,
            status: self.status,
            votes: self.votes@,
            option_participants: self.option_participants@,
            participants: self.participants,
            incentive: self.incentive@.map_values(|p: ProposalIncentive| p@),
        }
    }
}

impl Clone for Proposal {
    fn clone(&self) -> (proposal: Proposal)
        ensures
            proposal@ == self@,
    {
        let votes = self.votes.clone();
        let option_participants = self.option_participants.clone();
        assert(votes@ =~= self.votes@);
        assert(option_participants@ =~= self.option_participants@);
        Proposal {
            kind: self.kind,
            status: self.status,
            votes,
            option_participants,
            participants: self.participants,
            incentive: self.incentive.clone(),
        }
    }
}

impl ProposalView {
    /// Every slot has its participant counter, and a common proposal has four slots.
    pub open spec fn wf(self) -> bool {
        &&& self.option_participants.len() == self.votes.len()
        &&& self.kind is Common ==> self.votes.len() == 4
    }

    /// The tally slot that `action` addresses, if the action fits the proposal.
    pub open spec fn slot(self, action: Action) -> Option<int> {
        match self.kind {
            ProposalKind::FarmingReward => match action {
                Action::VoteFarm { farm_id } => if farm_id < self.votes.len() {
                    Some(farm_id as int)
                } else {
                    None
                },
                _ => None,
            },
            ProposalKind::Poll => match action {
                Action::VotePoll { poll_id } => if poll_id < self.votes.len() {
                    Some(poll_id as int)
                } else {
                    None
                },
                _ => None,
            },
            ProposalKind::Common => match Vote::of_action(action) {
                Some(v) => Some(v.slot()),
                None => None,
            },
        }
    }

    /// The proposal after `amount` was added to, or taken from, the slot of `action`.
    pub open spec fn update_votes(
        self,
        action: Action,
        amount: u128,
        total: u128,
        is_increased: bool,
    ) -> Result<ProposalView, Error> {
        match self.slot(action) {
            None => Err(Error::InvalidVote),
            Some(i) => {
                let tally = if is_increased {
                    self.votes[i] + amount
                } else {
                    self.votes[i] - amount
                };
                if tally < 0 || tally > u128::MAX {
                    Err(Error::Overflow)
                } else {
                    let votes = self.votes.update(i, tally as u128);
                    Ok(
                        ProposalView {
                            votes: if self.kind is Common {
                                votes.update(3, total)
                            } else {
                                votes
                            },
                            ..self
                        },
                    )
                }
            },
        }
    }
}

impl ProposalView {
    /// The proposal after one more voter on the option of `action`.
    pub open spec fn add_participant(self, action: Action) -> Result<ProposalView, Error> {
        match self.slot(action) {
            None => Err(Error::InvalidVote),
            Some(i) => if self.participants + 1 > u64::MAX || self.option_participants[i] + 1
                > u64::MAX {
                Err(Error::Overflow)
            } else {
                Ok(
                    ProposalView {
                        participants: (self.participants + 1) as u64,
                        option_participants: self.option_participants.update(
                            i,
                            (self.option_participants[i] + 1) as u64,
                        ),
                        ..self
                    },
                )
            },
        }
    }

    /// The proposal after one voter less on the option of `action`.
    pub open spec fn remove_participant(self, action: Action) -> Result<ProposalView, Error> {
        match self.slot(action) {
            None => Err(Error::InvalidVote),
            Some(i) => if self.participants == 0 || self.option_participants[i] == 0 {
                Err(Error::Overflow)
            } else {
                Ok(
                    ProposalView {
                        participants: (self.participants - 1) as u64,
                        option_participants: self.option_participants.update(
                            i,
                            (self.option_participants[i] - 1) as u64,
                        ),
                        ..self
                    },
                )
            },
        }
    }

    /// The proposal after `amount` of `token` was deposited for the voters of option
    /// `key`, to be shared as `incentive_type` says.
    pub open spec fn deposit_reward(
        self,
        key: usize,
        incentive_type: IncentiveType,
        token: Seq<char>,
        amount: u128,
    ) -> Result<ProposalView, Error> {
        if self.incentive.contains_key(key) {
            let pool = self.incentive[key];
            if pool.incentive_token_id != token {
                Err(Error::InvalidIncentiveToken)
            } else if pool.incentive_amount + amount > u128::MAX {
                Err(Error::Overflow)
            } else {
                Ok(
                    ProposalView {
                        incentive: self.incentive.insert(
                            key,
                            IncentiveView {
                                incentive_type,
                                incentive_amount: (pool.incentive_amount + amount) as u128,
                                ..pool
                            },
                        ),
                        ..self
                    },
                )
            }
        } else {
            Ok(
                ProposalView {
                    incentive: self.incentive.insert(
                        key,
                        IncentiveView {
                            incentive_type,
                            incentive_token_id: token,
                            incentive_amount: amount,
                            claimed_amount: 0,
                        },
                    ),
                    ..self
                },
            )
        }
    }

    /// What the voter of `action` with `weight` is owed from the pool of the option:
    /// nothing where the action does not fit or the option has no pool.
    pub open spec fn entitlement(self, action: Action, weight: u128) -> int {
        match self.slot(action) {
            Some(i) => if self.incentive.contains_key(i as usize) {
                self.incentive[i as usize].share(
                    weight,
                    self.votes[i],
                    self.option_participants[i],
                )
            } else {
                0
            },
            None => 0,
        }
    }

    /// The proposal after the voter of `action` with `weight` was paid, and the
    /// token and amount paid, if any.
    pub open spec fn claim_reward(self, action: Action, weight: u128) -> Result<
        (ProposalView, Option<(Seq<char>, u128)>),
        Error,
    > {
        let share = self.entitlement(action, weight);
        if share == 0 {
            Ok((self, None))
        } else {
            let i = self.slot(action)->Some_0 as usize;
            let pool = self.incentive[i];
            if pool.claimed_amount + share > u128::MAX {
                Err(Error::Overflow)
            } else {
                Ok(
                    (
                        ProposalView {
                            incentive: self.incentive.insert(
                                i,
                                IncentiveView {
                                    claimed_amount: (pool.claimed_amount + share) as u128,
                                    ..pool
                                },
                            ),
                            ..self
                        },
                        Some((pool.incentive_token_id, share as u128)),
                    ),
                )
            }
        }
    }
}

/// Whether `res` names the token and amount that `expected` does.
pub open spec fn same_reward(
    res: Result<Option<(String, u128)>, Error>,
    expected: Result<Option<(Seq<char>, u128)>, Error>,
) -> bool {
    match expected {
        Ok(Some((token, amount))) => res matches Ok(Some(r)) && r.0@ == token && r.1 == amount,
        Ok(None) => res matches Ok(None),
        Err(e) => res matches Err(f) && f == e,
    }
}

impl Proposal {
    /// See [`ProposalView::wf`].
    pub open spec fn wf(&self) -> bool {
        self@.wf()
    }

    /// A proposal of the given kind with `options` empty tally slots and no incentive.
    /// A common proposal always has its four slots.
    pub fn new(kind: ProposalKind, options: usize) -> (p: Proposal)
        ensures
            p.wf(),
            p@.kind == kind,
            p@.status == None::<ProposalStatus>,
            p@.votes == Seq::new(
                if kind is Common {
                    4
                } else {
                    options as nat
                },
                |i: int| 0u128,
            ),
            p@.option_participants == Seq::new(p@.votes.len(), |i: int| 0u64),
            p@.participants == 0,
            p@.incentive == Map::<usize, IncentiveView>::empty(),
    {
        let slots: usize = match kind {
            ProposalKind::Common => 4,
            _ => options,
        };
        let mut votes: Vec<u128> = Vec::new();
        let mut option_participants: Vec<u64> = Vec::new();
        let mut i: usize = 0;
        while i < slots
            invariant
                i <= slots,
                votes@ == Seq::new(i as nat, |j: int| 0u128),
                option_participants@ == Seq::new(i as nat, |j: int| 0u64),
            decreases slots - i,
        {
            votes.push(0);
            option_participants.push(0);
            i = i + 1;
        }
        let p = Proposal {
            kind,
            status: None,
            votes,
            option_participants,
            participants: 0,
            incentive: HashMap::new(),
        };
        assert(p@.incentive =~= Map::<usize, IncentiveView>::empty());
        p
    }

    /// The index of the tally slot that `action` addresses.
    pub fn slot_of(&self, action: &Action) -> (res: Result<usize, Error>)
        requires
            self.wf(),
        ensures
            res == (match self@.slot(*action) {
                Some(i) => Ok::<usize, Error>(i as usize),
                None => Err(Error::InvalidVote),
            }),
            res is Ok ==> res->Ok_0 < self.votes.len(),
    {
        match self.kind {
            ProposalKind::FarmingReward => {
                let farm_id = action.get_farm_id()?;
                if farm_id < self.votes.len() {
                    Ok(farm_id)
                } else {
                    Err(Error::InvalidVote)
                }
            },
            ProposalKind::Poll => {
                let poll_id = action.get_poll_id()?;
                if poll_id < self.votes.len() {
                    Ok(poll_id)
                } else {
                    Err(Error::InvalidVote)
                }
            },
            ProposalKind::Common => {
                let vote = Vote::from_action(action)?;
                Ok(vote.index())
            },
        }
    }

    /// Counts one more voter on the option of `action`.
    pub fn add_participant(&mut self, action: &Action) -> (res: Result<(), Error>)
        requires
            old(self).wf(),
        ensures
            match old(self)@.add_participant(*action) {
                Ok(post) => res is Ok && final(self)@ == post,
                Err(e) => res == Err::<(), Error>(e) && final(self)@ == old(self)@,
            },
            final(self).wf(),
    {
        let i = self.slot_of(action)?;
        let all = self.participants.checked_add(1);
        let here = self.option_participants[i].checked_add(1);
        match (all, here) {
            (Some(a), Some(h)) => {
                self.participants = a;
                self.option_participants.set(i, h);
                Ok(())
            },
            _ => Err(Error::Overflow),
        }
    }

    /// Counts one voter less on the option of `action`.
    pub fn remove_participant(&mut self, action: &Action) -> (res: Result<(), Error>)
        requires
            old(self).wf(),
        ensures
            match old(self)@.remove_participant(*action) {
                Ok(post) => res is Ok && final(self)@ == post,
                Err(e) => res == Err::<(), Error>(e) && final(self)@ == old(self)@,
            },
            final(self).wf(),
    {
        let i = self.slot_of(action)?;
        let all = self.participants.checked_sub(1);
        let here = self.option_participants[i].checked_sub(1);
        match (all, here) {
            (Some(a), Some(h)) => {
                self.participants = a;
                self.option_participants.set(i, h);
                Ok(())
            },
            _ => Err(Error::Overflow),
        }
    }

    /// Deposits `amount` of the token `token_id` for the voters of option
    /// `incentive_key`, and returns what the pool holds then.
    ///
    /// Deposits to one pool add up; the last one decides how the pool is shared.
    /// A pool holds one token: a deposit of another one is refused.
    pub fn deposit_reward(
        &mut self,
        incentive_key: usize,
        incentive_type: IncentiveType,
        token_id: &String,
        amount: u128,
    ) -> (res: Result<u128, Error>)
        ensures
            match old(self)@.deposit_reward(incentive_key, incentive_type, token_id@, amount) {
                Ok(post) => res == Ok::<u128, Error>(post.incentive[incentive_key].incentive_amount)
                    && final(self)@ == post,
                Err(e) => res == Err::<u128, Error>(e) && final(self)@ == old(self)@,
            },
            final(self).wf() == old(self).wf(),
    {
        let ghost before = self.incentive@;
        let pool = match self.incentive.get(&incentive_key) {
            Some(held) => {
                if held.incentive_token_id != *token_id {
                    return Err(Error::InvalidIncentiveToken);
                }
                match held.incentive_amount.checked_add(amount) {
                    None => {
                        return Err(Error::Overflow);
                    },
                    Some(sum) => ProposalIncentive {
                        incentive_type,
                        incentive_token_id: token_id.clone(),
                        incentive_amount: sum,
                        claimed_amount: held.claimed_amount,
                    },
                }
            },
            None => ProposalIncentive {
                incentive_type,
                incentive_token_id: token_id.clone(),
                incentive_amount: amount,
                claimed_amount: 0,
            },
        };
        let total = pool.incentive_amount;
        let ghost pool_view = pool@;
        self.incentive.insert(incentive_key, pool);
        assert(self@.incentive =~= before.map_values(|p: ProposalIncentive| p@).insert(
            incentive_key,
            pool_view,
        ));
        Ok(total)
    }

    /// What the voter of `action` with the weight `ve_lpt_amount` is owed: the token
    /// and the amount, or nothing.
    pub fn reward_of(&self, action: &Action, ve_lpt_amount: u128) -> (res: Result<
        Option<(String, u128)>,
        Error,
    >)
        requires
            self.wf(),
        ensures
            same_reward(
                res,
                match self@.claim_reward(*action, ve_lpt_amount) {
                    Ok((_, reward)) => Ok(reward),
                    Err(e) => Err(e),
                },
            ),
    {
        let i = match self.slot_of(action) {
            Ok(i) => i,
            Err(_) => {
                return Ok(None);
            },
        };
        let pool = match self.incentive.get(&i) {
            Some(pool) => pool,
            None => {
                return Ok(None);
            },
        };
        if ve_lpt_amount == 0 {
            return Ok(None);
        }
        let share = match pool.incentive_type {
            IncentiveType::Proportion => {
                let total = self.votes[i];
                if total == 0 {
                    0
                } else {
                    match checked_ratio(pool.incentive_amount, ve_lpt_amount, total) {
                        Some(s) => s,
                        None => {
                            return Err(Error::Overflow);
                        },
                    }
                }
            },
            IncentiveType::Evenly => {
                let participants = self.option_participants[i];
                if participants == 0 {
                    0
                } else {
                    pool.incentive_amount / (participants as u128)
                }
            },
        };
        if share == 0 {
            return Ok(None);
        }
        match pool.claimed_amount.checked_add(share) {
            None => Err(Error::Overflow),
            Some(_) => Ok(Some((pool.incentive_token_id.clone(), share))),
        }
    }

    /// Pays the voter of `action` with the weight `ve_lpt_amount` from the pool of
    /// the option, and returns the token and the amount paid, if any.
    pub fn claim_reward(&mut self, action: &Action, ve_lpt_amount: u128) -> (res: Result<
        Option<(String, u128)>,
        Error,
    >)
        requires
            old(self).wf(),
        ensures
            match old(self)@.claim_reward(*action, ve_lpt_amount) {
                Ok((post, reward)) => same_reward(res, Ok(reward)) && final(self)@ == post,
                Err(e) => same_reward(res, Err(e)) && final(self)@ == old(self)@,
            },
            final(self).wf(),
    {
        let reward = self.reward_of(action, ve_lpt_amount)?;
        match reward {
            None => Ok(None),
            Some((token, share)) => {
                let ghost before = self.incentive@;
                let i = self.slot_of(action).unwrap();
                let mut pool = self.incentive.remove(&i).unwrap();
                pool.claimed_amount = pool.claimed_amount + share;
                let ghost pool_view = pool@;
                self.incentive.insert(i, pool);
                assert(self@.incentive =~= before.map_values(|p: ProposalIncentive| p@).insert(
                    i,
                    pool_view,
                ));
                Ok(Some((token, share)))
            },
        }
    }
}

} // verus!
