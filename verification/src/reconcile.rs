//! Keeping the open votes of an account in step with its escrow weight.
//!
//! When the weight of an account changes, every proposal on which the account holds
//! an open vote is visited. A proposal that has expired is settled: the account is
//! paid from the incentive pool of its option and gives up the vote. Any other
//! proposal has its tally moved by the change of weight.

use vstd::prelude::*;
use crate::account::{balance_of, merged_rewards, Account, AccountView, Balance};
use crate::contract::{Contract, ContractView};
use crate::errors::Error;
use crate::proposals::{same_reward, Proposal, ProposalStatus, ProposalView};
use crate::proposals_action::Action;
use crate::str_map::StrMap;

verus! {

broadcast use vstd::std_specs::hash::group_hash_axioms;

/// A change of the escrow weight of an account.
#[derive(Clone, Copy, Debug, PartialEq, Eq, Structural)]
pub struct WeightChange {
    /// The weight before the change.
    pub prev: Balance,
    /// By how much the weight changed.
    pub diff: Balance,
    /// Whether the weight rose.
    pub is_increased: bool,
}

/// What became of one open vote.
pub struct Reconciled {
    /// The proposal afterwards.
    pub proposal: ProposalView,
    /// The reward paid to the voter, if any.
    pub reward: Option<(Seq<char>, Balance)>,
    /// Whether the vote was settled, so that it is no longer open.
    pub settled: bool,
}

/// One more than the largest identifier of a proposal.
pub open spec fn id_limit() -> nat {
    0x1_0000_0000
}

/// Visits the proposal `p`, on which a vote `action` is open, after the weight of
/// the voter changed. `total` is the escrow weight of the whole ledger.
///
/// An expired proposal pays the voter by the weight before the change. On any
/// other proposal the change moves the tally, and a voter whose whole weight went
/// is no longer counted.
pub open spec fn reconcile_vote(
    p: ProposalView,
    action: Action,
    change: WeightChange,
    total: Balance,
) -> Result<Reconciled, Error> {
    if p.status == Some(ProposalStatus::Expired) {
        match p.claim_reward(action, change.prev) {
            Ok((post, reward)) => Ok(Reconciled { proposal: post, reward, settled: true }),
            Err(e) => Err(e),
        }
    } else if change.diff > 0 {
        match p.update_votes(action, change.diff, total, change.is_increased) {
            Ok(post) => if !change.is_increased && change.prev == change.diff {
                match post.remove_participant(action) {
                    Ok(last) => Ok(Reconciled { proposal: last, reward: None, settled: false }),
                    Err(e) => Err(e),
                }
            } else {
                Ok(Reconciled { proposal: post, reward: None, settled: false })
            },
            Err(e) => Err(e),
        }
    } else {
        Ok(Reconciled { proposal: p, reward: None, settled: false })
    }
}

impl Proposal {
    /// Visits the proposal for an open vote `action` after the weight of the voter
    /// changed, and returns the reward paid and whether the vote was settled.
    pub fn reconcile(&mut self, action: &Action, change: WeightChange, total: Balance) -> (res:
        Result<(Option<(String, Balance)>, bool), Error>)
        requires
            old(self).wf(),
        ensures
            final(self).wf(),
            match reconcile_vote(old(self)@, *action, change, total) {
                Ok(r) => res matches Ok(out) && same_reward(Ok(out.0), Ok(r.reward)) && out.1
                    == r.settled && final(self)@ == r.proposal,
                Err(e) => res matches Err(f) && f == e && final(self)@ == old(self)@,
            },
    {
        match self.status {
            Some(ProposalStatus::Expired) => {
                let reward = self.claim_reward(action, change.prev)?;
                Ok((reward, true))
            },
            _ => {
                if change.diff > 0 {
                    if !change.is_increased && change.prev == change.diff {
                        let i = self.slot_of(action)?;
                        if self.participants == 0 || self.option_participants[i] == 0 {
                            return Err(Error::Overflow);
                        }
                        self.update_votes(action, change.diff, total, change.is_increased)?;
                        match self.remove_participant(action) {
                            Ok(()) => Ok((None, false)),
                            Err(e) => Err(e),
                        }
                    } else {
                        self.update_votes(action, change.diff, total, change.is_increased)?;
                        Ok((None, false))
                    }
                } else {
                    Ok((None, false))
                }
            },
        }
    }
}

impl ContractView {
    /// What becomes of the open vote `action` on the proposal `id`. A proposal that
    /// the ledger does not hold is an error.
    pub open spec fn vote_outcome(self, action: Action, id: u32, change: WeightChange) -> Result<
        Reconciled,
        Error,
    > {
        if self.proposals.contains_key(id) {
            reconcile_vote(self.proposals[id], action, change, self.cur_total_ve_lpt)
        } else {
            Err(Error::ProposalNotExist)
        }
    }

    /// What the open vote on the proposal `id`, if `votes` has one, is paid in
    /// `token`.
    pub open spec fn credit(
        self,
        votes: Map<u32, Action>,
        id: u32,
        token: Seq<char>,
        change: WeightChange,
    ) -> int {
        if votes.contains_key(id) {
            match self.vote_outcome(votes[id], id, change) {
                Ok(r) => match r.reward {
                    Some((t, amount)) => if t == token {
                        amount as int
                    } else {
                        0
                    },
                    None => 0,
                },
                Err(_) => 0,
            }
        } else {
            0
        }
    }

    /// What the open votes on the proposals below `n` are paid in `token`.
    pub open spec fn credits_below(
        self,
        votes: Map<u32, Action>,
        token: Seq<char>,
        n: nat,
        change: WeightChange,
    ) -> int
        decreases n,
    {
        if n == 0 {
            0
        } else {
            self.credits_below(votes, token, (n - 1) as nat, change) + self.credit(
                votes,
                (n - 1) as u32,
                token,
                change,
            )
        }
    }

    /// What all the open votes are paid in `token`.
    pub open spec fn credited(self, votes: Map<u32, Action>, token: Seq<char>, change: WeightChange) -> int {
        self.credits_below(votes, token, id_limit(), change)
    }

    /// The rewards that settling the open votes pays, by token.
    pub open spec fn settled_rewards(self, votes: Map<u32, Action>, change: WeightChange) -> Map<
        Seq<char>,
        Balance,
    > {
        Map::new(
            |token: Seq<char>| self.credited(votes, token, change) > 0,
            |token: Seq<char>| self.credited(votes, token, change) as u128,
        )
    }

    /// Whether every open vote of `account` can be reconciled and the rewards paid
    /// fit into the balances of the account.
    pub open spec fn can_reconcile(self, account: AccountView, change: WeightChange) -> bool {
        &&& forall|id: u32| #[trigger]
            account.proposals.contains_key(id) ==> self.vote_outcome(
                account.proposals[id],
                id,
                change,
            ) is Ok
        &&& forall|token: Seq<char>|
            balance_of(account.rewards, token) + #[trigger] self.credited(
                account.proposals,
                token,
                change,
            ) <= u128::MAX
    }

    /// The proposals after the open votes `votes` were reconciled.
    pub open spec fn reconciled_proposals(self, votes: Map<u32, Action>, change: WeightChange) -> Map<
        u32,
        ProposalView,
    > {
        Map::new(
            |id: u32| self.proposals.contains_key(id),
            |id: u32|
                if votes.contains_key(id) {
                    self.vote_outcome(votes[id], id, change)->Ok_0.proposal
                } else {
                    self.proposals[id]
                },
        )
    }

    /// The votes that are still open afterwards: those on proposals that have not
    /// expired.
    pub open spec fn open_after(self, votes: Map<u32, Action>) -> Map<u32, Action> {
        Map::new(
            |id: u32|
                votes.contains_key(id) && !(self.proposals.contains_key(id)
                    && self.proposals[id].status == Some(ProposalStatus::Expired)),
            |id: u32| votes[id],
        )
    }

    /// The ledger and the account after the open votes of the account were
    /// reconciled with a change of its weight.
    pub open spec fn update_impacted_proposals(self, account: AccountView, change: WeightChange) -> (
        ContractView,
        AccountView,
    ) {
        (
            ContractView {
                proposals: self.reconciled_proposals(account.proposals, change),
                ..self
            },
            AccountView {
                proposals: self.open_after(account.proposals),
                rewards: merged_rewards(
                    account.rewards,
                    self.settled_rewards(account.proposals, change),
                ),
                ..account
            },
        )
    }

    /// Whether `e` is an error that reconciling the open votes of `account` can end
    /// with: the error of one of the votes, or rewards that do not fit.
    pub open spec fn reconcile_error(self, account: AccountView, change: WeightChange, e: Error) -> bool {
        ||| exists|id: u32| #[trigger]
            account.proposals.contains_key(id) && self.vote_outcome(
                account.proposals[id],
                id,
                change,
            ) == Err::<Reconciled, Error>(e)
        ||| e == Error::Overflow && exists|token: Seq<char>|
            balance_of(account.rewards, token) + #[trigger] self.credited(
                account.proposals,
                token,
                change,
            ) > u128::MAX
    }
}

/// No vote is paid a negative amount.
proof fn lemma_credits_not_negative(
    ledger: ContractView,
    votes: Map<u32, Action>,
    token: Seq<char>,
    n: nat,
    change: WeightChange,
)
    ensures
        ledger.credits_below(votes, token, n, change) >= 0,
    decreases n,
{
    if n > 0 {
        lemma_credits_not_negative(ledger, votes, token, (n - 1) as nat, change);
    }
}

/// The votes among `done` are paid at most what all votes are paid.
proof fn lemma_credits_of_part(
    ledger: ContractView,
    votes: Map<u32, Action>,
    done: Set<u32>,
    token: Seq<char>,
    n: nat,
    change: WeightChange,
)
    ensures
        ledger.credits_below(votes.restrict(done), token, n, change) <= ledger.credits_below(
            votes,
            token,
            n,
            change,
        ),
    decreases n,
{
    if n > 0 {
        lemma_credits_of_part(ledger, votes, done, token, (n - 1) as nat, change);
    }
}

/// One more vote among those counted adds what it is paid.
proof fn lemma_credits_one_more(
    ledger: ContractView,
    votes: Map<u32, Action>,
    done: Set<u32>,
    id: u32,
    token: Seq<char>,
    n: nat,
    change: WeightChange,
)
    requires
        votes.contains_key(id),
        !done.contains(id),
        n <= id_limit(),
    ensures
        ledger.credits_below(votes.restrict(done.insert(id)), token, n, change)
            == ledger.credits_below(votes.restrict(done), token, n, change) + (if id < n {
            ledger.credit(votes, id, token, change)
        } else {
            0
        }),
    decreases n,
{
    if n > 0 {
        lemma_credits_one_more(ledger, votes, done, id, token, (n - 1) as nat, change);
        let m = (n - 1) as u32;
        let more = votes.restrict(done.insert(id));
        let fewer = votes.restrict(done);
        if m == id {
            assert(more.contains_key(m) && more[m] == votes[m]);
            assert(!fewer.contains_key(m));
        } else {
            assert(more.contains_key(m) == fewer.contains_key(m));
            if more.contains_key(m) {
                assert(more[m] == fewer[m]);
            }
        }
    }
}

/// No votes are paid nothing.
proof fn lemma_credits_of_none(
    ledger: ContractView,
    votes: Map<u32, Action>,
    token: Seq<char>,
    n: nat,
    change: WeightChange,
)
    ensures
        ledger.credits_below(votes.restrict(Set::empty()), token, n, change) == 0,
    decreases n,
{
    if n > 0 {
        lemma_credits_of_none(ledger, votes, token, (n - 1) as nat, change);
    }
}

/// A proposal as it will be once the plan is carried out.
struct Staged {
    id: u32,
    proposal: Proposal,
    settled: bool,
}

/// Whether the proposal `id` is one of `ids` from position `from` on.
spec fn listed_from(ids: Seq<u32>, from: int, id: u32) -> bool {
    exists|j: int| from <= j < ids.len() && ids[j] == id
}

impl Contract {
    /// Brings the open votes of `account` in step with a change of its weight:
    /// `prev_ve_lpt_amount` is the weight before the change, `diff_ve_lpt_amount`
    /// by how much it changed, and `is_increased` whether it rose.
    ///
    /// Votes on expired proposals are settled, with the weight before the change,
    /// and the rewards paid are added to the balances of the account. The tallies
    /// of all other proposals move by the change; a voter whose whole weight went
    /// is no longer counted, and keeps the vote open. All or nothing of this
    /// happens.
    pub fn update_impacted_proposals(
        &mut self,
        account: &mut Account,
        prev_ve_lpt_amount: Balance,
        diff_ve_lpt_amount: Balance,
        is_increased: bool,
    ) -> (res: Result<(), Error>)
        requires
            old(self).wf(),
            old(account).wf(),
        ensures
            final(self).wf(),
            final(account).wf(),
            ({
                let change = WeightChange {
                    prev: prev_ve_lpt_amount,
                    diff: diff_ve_lpt_amount,
                    is_increased,
                };
                if old(self)@.can_reconcile(old(account)@, change) {
                    &&& res is Ok
                    &&& (final(self)@, final(account)@) == old(self)@.update_impacted_proposals(
                        old(account)@,
                        change,
                    )
                } else {
                    &&& res is Err
                    &&& old(self)@.reconcile_error(old(account)@, change, res->Err_0)
                    &&& final(self)@ == old(self)@
                    &&& final(account)@ == old(account)@
                }
            }),
    {
        let change = WeightChange {
            prev: prev_ve_lpt_amount,
            diff: diff_ve_lpt_amount,
            is_increased,
        };
        let ghost ledger = self@;
        let ghost votes = account.proposals@;
        let total = self.cur_total_ve_lpt;
        let ids = account.open_votes();
        let n = ids.len();
        let mut staged: Vec<Staged> = Vec::new();
        let mut pending: StrMap<Balance> = StrMap::new();
        proof {
            assert forall|token: Seq<char>|
                balance_of(pending@, token) == #[trigger] ledger.credits_below(
                    votes.restrict(ids@.take(0).to_set()),
                    token,
                    id_limit(),
                    change,
                ) by {
                assert(ids@.take(0).to_set() =~= Set::<u32>::empty());
                lemma_credits_of_none(ledger, votes, token, id_limit(), change);
            }
        }
        let mut i: usize = 0;
        while i < n
            invariant
                i <= n,
                n == ids.len(),
                change == (WeightChange {
                    prev: prev_ve_lpt_amount,
                    diff: diff_ve_lpt_amount,
                    is_increased,
                }),
                self.wf(),
                self@ == ledger,
                ledger == old(self)@,
                total == ledger.cur_total_ve_lpt,
                account.wf(),
                account@ == old(account)@,
                account.proposals@ == votes,
                ids@.no_duplicates(),
                ids@.to_set() == votes.dom(),
                pending.wf(),
                staged.len() == i,
                forall|j: int|
                    0 <= j < i ==> {
                        let s = #[trigger] staged[j];
                        let outcome = ledger.vote_outcome(votes[ids[j]], ids[j], change);
                        &&& s.id == ids[j]
                        &&& outcome is Ok
                        &&& s.proposal@ == outcome->Ok_0.proposal
                        &&& s.settled == outcome->Ok_0.settled
                        &&& s.proposal.wf()
                    },
                forall|token: Seq<char>|
                    balance_of(pending@, token) == #[trigger] ledger.credits_below(
                        votes.restrict(ids@.take(i as int).to_set()),
                        token,
                        id_limit(),
                        change,
                    ),
                forall|token: Seq<char>| #[trigger]
                    pending@.contains_key(token) ==> pending@[token] > 0,
            ensures
                i == n,
            decreases n - i,
        {
            let id = ids[i];
            let ghost done = ids@.take(i as int).to_set();
            proof {
                assert(ids@.to_set().contains(id));
                let seen = ids@.take(i as int);
                let next = ids@.take(i + 1);
                assert(!done.contains(id)) by {
                    if done.contains(id) {
                        let j = choose|j: int| 0 <= j < seen.len() && seen[j] == id;
                        assert(ids@[j] == ids@[i as int]);
                    }
                }
                assert(next.to_set() =~= done.insert(id)) by {
                    assert forall|x: u32| next.to_set().contains(x) implies done.insert(
                        id,
                    ).contains(x) by {
                        let j = choose|j: int| 0 <= j < next.len() && next[j] == x;
                        if j < i {
                            assert(seen[j] == x);
                        }
                    }
                    assert forall|x: u32| done.insert(id).contains(x) implies next.to_set().contains(
                        x,
                    ) by {
                        if x == id {
                            assert(next[i as int] == x);
                        } else {
                            let j = choose|j: int| 0 <= j < seen.len() && seen[j] == x;
                            assert(next[j] == x);
                        }
                    }
                }
            }
            let action: Action = *account.proposals.get(&id).unwrap();
            let mut proposal = match self.proposals.get(&id) {
                Some(proposal) => proposal.clone(),
                None => {
                    proof {
                        assert(votes.contains_key(id));
                        assert(ledger.vote_outcome(votes[id], id, change) == Err::<
                            Reconciled,
                            Error,
                        >(Error::ProposalNotExist));
                    }
                    return Err(Error::ProposalNotExist);
                },
            };
            let (reward, settled) = match proposal.reconcile(&action, change, total) {
                Ok(out) => out,
                Err(e) => {
                    proof {
                        assert(votes.contains_key(id));
                        assert(ledger.vote_outcome(votes[id], id, change) == Err::<
                            Reconciled,
                            Error,
                        >(e));
                    }
                    return Err(e);
                },
            };
            match reward {
                Some((token, amount)) => {
                    let held: Balance = match pending.get(&token) {
                        Some(b) => *b,
                        None => 0,
                    };
                    proof {
                        lemma_credits_one_more(
                            ledger,
                            votes,
                            done,
                            id,
                            token@,
                            id_limit(),
                            change,
                        );
                        lemma_credits_of_part(
                            ledger,
                            votes,
                            done.insert(id),
                            token@,
                            id_limit(),
                            change,
                        );
                        assert(ledger.credit(votes, id, token@, change) == amount);
                    }
                    let sum = match held.checked_add(amount) {
                        Some(sum) => sum,
                        None => {
                            proof {
                                assert(ledger.credited(votes, token@, change) > u128::MAX);
                            }
                            return Err(Error::Overflow);
                        },
                    };
                    let ghost before = pending@;
                    let ghost paid = token@;
                    pending.insert(token, sum);
                    proof {
                        assert forall|t: Seq<char>|
                            balance_of(pending@, t) == #[trigger] ledger.credits_below(
                                votes.restrict(ids@.take(i + 1).to_set()),
                                t,
                                id_limit(),
                                change,
                            ) by {
                            lemma_credits_one_more(ledger, votes, done, id, t, id_limit(), change);
                            if t != paid {
                                assert(balance_of(pending@, t) == balance_of(before, t));
                            }
                        }
                    }
                },
                None => {
                    proof {
                        assert forall|t: Seq<char>|
                            balance_of(pending@, t) == #[trigger] ledger.credits_below(
                                votes.restrict(ids@.take(i + 1).to_set()),
                                t,
                                id_limit(),
                                change,
                            ) by {
                            lemma_credits_one_more(ledger, votes, done, id, t, id_limit(), change);
                        }
                    }
                },
            }
            staged.push(Staged { id, proposal, settled });
            i = i + 1;
        }
        proof {
            assert(ids@.take(n as int) =~= ids@);
            assert(votes.restrict(votes.dom()) =~= votes);
            assert(pending@ =~= ledger.settled_rewards(votes, change));
            assert forall|id: u32| #[trigger] votes.contains_key(id) implies ledger.vote_outcome(
                votes[id],
                id,
                change,
            ) is Ok by {
                assert(ids@.to_set().contains(id));
                let j = choose|j: int| 0 <= j < ids@.len() && ids@[j] == id;
                assert(staged[j].id == id);
            }
        }
        match account.add_rewards(&pending) {
            Ok(()) => {},
            Err(e) => {
                proof {
                    let token = choose|token: Seq<char>| #[trigger]
                        pending@.contains_key(token) && balance_of(old(account)@.rewards, token)
                            + pending@[token] > u128::MAX;
                    assert(balance_of(old(account)@.rewards, token) + ledger.credited(
                        votes,
                        token,
                        change,
                    ) > u128::MAX);
                }
                return Err(e);
            },
        }
        proof {
            assert forall|token: Seq<char>|
                balance_of(old(account)@.rewards, token) + #[trigger] ledger.credited(
                    votes,
                    token,
                    change,
                ) <= u128::MAX by {
                lemma_credits_not_negative(ledger, votes, token, id_limit(), change);
                if ledger.credited(votes, token, change) > 0 {
                    assert(pending@.contains_key(token));
                }
            }
            assert(ledger.can_reconcile(old(account)@, change));
        }
        let ghost plan = staged@;
        let ghost table = self.proposals@;
        while staged.len() > 0
            invariant
                n == ids.len(),
                plan.len() == n,
                staged.len() <= n,
                staged@ == plan.take(staged.len() as int),
                ids@.no_duplicates(),
                ids@.to_set() == votes.dom(),
                table == old(self).proposals@,
                ledger == old(self)@,
                votes == old(account).proposals@,
                forall|j: int|
                    0 <= j < n ==> {
                        let s = #[trigger] plan[j];
                        let outcome = ledger.vote_outcome(votes[ids[j]], ids[j], change);
                        &&& s.id == ids[j]
                        &&& outcome is Ok
                        &&& s.proposal@ == outcome->Ok_0.proposal
                        &&& s.settled == outcome->Ok_0.settled
                        &&& s.proposal.wf()
                    },
                self.config == old(self).config,
                self.accounts == old(self).accounts,
                self.cur_total_ve_lpt == old(self).cur_total_ve_lpt,
                self.cur_lock_lpt == old(self).cur_lock_lpt,
                self.account_count == old(self).account_count,
                forall|id: u32| self.proposals@.contains_key(id) <==> table.contains_key(id),
                forall|id: u32| #[trigger]
                    self.proposals@.contains_key(id) ==> self.proposals@[id].wf()
                        && self.proposals@[id]@ == (if listed_from(
                        ids@,
                        staged.len() as int,
                        id,
                    ) {
                        ledger.vote_outcome(votes[id], id, change)->Ok_0.proposal
                    } else {
                        table[id]@
                    }),
                account.wf(),
                account.lpt_amount == old(account).lpt_amount,
                account.ve_lpt_amount == old(account).ve_lpt_amount,
                account.unlock_timestamp == old(account).unlock_timestamp,
                account.duration_sec == old(account).duration_sec,
                account.rewards@ == merged_rewards(
                    old(account)@.rewards,
                    ledger.settled_rewards(votes, change),
                ),
                forall|id: u32|
                    account.proposals@.contains_key(id) <==> votes.contains_key(id) && !(
                    listed_from(ids@, staged.len() as int, id) && ledger.vote_outcome(
                        votes[id],
                        id,
                        change,
                    )->Ok_0.settled),
                forall|id: u32| #[trigger]
                    account.proposals@.contains_key(id) ==> account.proposals@[id] == votes[id],
            decreases staged.len(),
        {
            let ghost k = staged.len() - 1;
            let ghost tally = self.proposals@;
            let ghost open = account.proposals@;
            let s = staged.pop().unwrap();
            proof {
                assert(s == plan[k]);
                assert(staged@ =~= plan.take(k));
                assert(ids@.to_set().contains(ids@[k]));
                assert forall|id: u32|
                    listed_from(ids@, k, id) <==> id == ids@[k] || listed_from(ids@, k + 1, id) by {
                    if listed_from(ids@, k, id) {
                        let j = choose|j: int| k <= j < ids@.len() && ids@[j] == id;
                        if j != k {
                            assert(k + 1 <= j < ids@.len() && ids@[j] == id);
                        }
                    }
                    if listed_from(ids@, k + 1, id) {
                        let j = choose|j: int| k + 1 <= j < ids@.len() && ids@[j] == id;
                        assert(k <= j < ids@.len() && ids@[j] == id);
                    }
                    if id == ids@[k] {
                        assert(k <= k < ids@.len() && ids@[k] == id);
                    }
                }
                assert(!listed_from(ids@, k + 1, s.id)) by {
                    if listed_from(ids@, k + 1, s.id) {
                        let j = choose|j: int| k + 1 <= j < ids@.len() && ids@[j] == s.id;
                        assert(ids@[j] == ids@[k]);
                    }
                }
                assert(ledger.proposals.contains_key(s.id));
                assert(table.contains_key(s.id));
            }
            let id = s.id;
            let settled = s.settled;
            let ghost staged_view = s.proposal@;
            self.proposals.insert(id, s.proposal);
            if settled {
                account.proposals.remove(&id);
            }
            proof {
                assert(votes.contains_key(id));
                assert(settled == ledger.vote_outcome(votes[id], id, change)->Ok_0.settled);
                assert forall|x: u32| #[trigger]
                    self.proposals@.contains_key(x) implies self.proposals@[x].wf()
                    && self.proposals@[x]@ == (if listed_from(ids@, k, x) {
                    ledger.vote_outcome(votes[x], x, change)->Ok_0.proposal
                } else {
                    table[x]@
                }) by {
                    if x == id {
                        assert(listed_from(ids@, k, x));
                        assert(self.proposals@[x]@ == staged_view);
                    } else {
                        assert(tally.contains_key(x));
                        assert(self.proposals@[x] == tally[x]);
                        assert(listed_from(ids@, k, x) <==> listed_from(ids@, k + 1, x));
                    }
                }
                assert forall|x: u32|
                    account.proposals@.contains_key(x) <==> votes.contains_key(x) && !(listed_from(
                        ids@,
                        k,
                        x,
                    ) && ledger.vote_outcome(votes[x], x, change)->Ok_0.settled) by {
                    let was_listed = listed_from(ids@, k + 1, x);
                    let is_settled = ledger.vote_outcome(votes[x], x, change)->Ok_0.settled;
                    assert(open.contains_key(x) <==> votes.contains_key(x) && !(was_listed
                        && is_settled));
                    if x == id {
                        assert(listed_from(ids@, k, x));
                        assert(!was_listed);
                        assert(open.contains_key(x));
                        assert(account.proposals@.contains_key(x) == !settled);
                        assert(is_settled == settled);
                    } else {
                        assert(account.proposals@.contains_key(x) == open.contains_key(x));
                        assert(listed_from(ids@, k, x) <==> was_listed);
                    }
                }
                assert forall|x: u32| #[trigger]
                    account.proposals@.contains_key(x) implies account.proposals@[x]
                    == votes[x] by {
                    assert(open.contains_key(x));
                }
            }
        }
        proof {
            assert forall|id: u32| listed_from(ids@, 0, id) <==> votes.contains_key(id) by {
                if listed_from(ids@, 0, id) {
                    let j = choose|j: int| 0 <= j < ids@.len() && ids@[j] == id;
                    assert(ids@.to_set().contains(id));
                }
                if votes.contains_key(id) {
                    assert(ids@.to_set().contains(id));
                    let j = choose|j: int| 0 <= j < ids@.len() && ids@[j] == id;
                    assert(0 <= j < ids@.len() && ids@[j] == id);
                }
            }
            assert(self@.proposals =~= ledger.reconciled_proposals(votes, change));
            assert(self@.accounts =~= ledger.accounts);
            assert(account@.proposals =~= ledger.open_after(votes)) by {
                assert forall|id: u32| votes.contains_key(id) implies (ledger.vote_outcome(
                    votes[id],
                    id,
                    change,
                )->Ok_0.settled <==> ledger.proposals.contains_key(id)
                    && ledger.proposals[id].status == Some(ProposalStatus::Expired)) by {}
            }
        }
        Ok(())
    }

    /// Settles the open votes of `account` on proposals that have expired.
    pub fn internal_claim_all(&mut self, account: &mut Account) -> (res: Result<(), Error>)
        requires
            old(self).wf(),
            old(account).wf(),
        ensures
            final(self).wf(),
            final(account).wf(),
            ({
                let change = WeightChange {
                    prev: old(account).ve_lpt_amount,
                    diff: 0,
                    is_increased: false,
                };
                if old(self)@.can_reconcile(old(account)@, change) {
                    &&& res is Ok
                    &&& (final(self)@, final(account)@) == old(self)@.update_impacted_proposals(
                        old(account)@,
                        change,
                    )
                } else {
                    &&& res is Err
                    &&& old(self)@.reconcile_error(old(account)@, change, res->Err_0)
                    &&& final(self)@ == old(self)@
                    &&& final(account)@ == old(account)@
                }
            }),
    {
        let weight = account.ve_lpt_amount;
        self.update_impacted_proposals(account, weight, 0, false)
    }
}

} // verus!
