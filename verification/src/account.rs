//! Accounts: the locked balance, its escrow weight, open votes and rewards.

use vstd::prelude::*;
use vstd::std_specs::iter::IteratorSpec;
use vstd::arithmetic::div_mod::{lemma_div_is_ordered, lemma_div_pos_is_pos};
use std::collections::HashMap;
use crate::errors::Error;
use crate::math::{checked_ratio, nanos, ratio, to_nano};
use crate::proposals_action::Action;
use crate::str_map::StrMap;

verus! {

broadcast use vstd::std_specs::hash::group_hash_axioms;

/// An amount of tokens, in the smallest unit.
pub type Balance = u128;

/// The multiplier of a lock of no duration, in the unit of
/// [`Config::max_locking_multiplier`].
pub const MIN_LOCKING_REWARD_RATIO: u32 = 10000;

/// The parameters of the locking curve.
#[derive(Clone, Copy, Debug, PartialEq, Eq, Structural)]
pub struct Config {
    /// The multiplier of a lock of the longest duration, where
    /// `MIN_LOCKING_REWARD_RATIO` stands for one.
    pub max_locking_multiplier: u32,
    /// The longest duration of a lock, in seconds.
    pub max_locking_duration_sec: u32,
}

impl Config {
    /// The curve does not fall, and the longest duration is not zero.
    pub open spec fn wf(&self) -> bool {
        &&& self.max_locking_multiplier >= MIN_LOCKING_REWARD_RATIO
        &&& self.max_locking_duration_sec > 0
    }

    /// The escrow weight of `amount` locked for `duration_sec`: the amount itself
    /// for no duration, rising in a straight line with the duration.
    pub open spec fn ve_lpt_amount(&self, amount: int, duration_sec: u32) -> int {
        amount + ratio(
            amount,
            (self.max_locking_multiplier - MIN_LOCKING_REWARD_RATIO) * nanos(duration_sec),
            nanos(self.max_locking_duration_sec) * MIN_LOCKING_REWARD_RATIO,
        )
    }

    /// The parameters, if they make a curve.
    pub fn new(max_locking_multiplier: u32, max_locking_duration_sec: u32) -> (res: Option<Config>)
        ensures
            res == (if max_locking_multiplier >= MIN_LOCKING_REWARD_RATIO
                && max_locking_duration_sec > 0 {
                Some(Config { max_locking_multiplier, max_locking_duration_sec })
            } else {
                None
            }),
            res is Some ==> res->Some_0.wf(),
    {
        if max_locking_multiplier >= MIN_LOCKING_REWARD_RATIO && max_locking_duration_sec > 0 {
            Some(Config { max_locking_multiplier, max_locking_duration_sec })
        } else {
            None
        }
    }
}

/// The weight of an amount is at least the amount.
pub proof fn lemma_weight_at_least_amount(config: Config, amount: int, duration_sec: u32)
    requires
        config.wf(),
        amount >= 0,
    ensures
        config.ve_lpt_amount(amount, duration_sec) >= amount,
{
    let num = (config.max_locking_multiplier - MIN_LOCKING_REWARD_RATIO) * nanos(duration_sec);
    let denom = nanos(config.max_locking_duration_sec) * MIN_LOCKING_REWARD_RATIO;
    assert(num >= 0) by (nonlinear_arith)
        requires
            num == (config.max_locking_multiplier - MIN_LOCKING_REWARD_RATIO) * (duration_sec
                * 1_000_000_000),
            config.max_locking_multiplier >= MIN_LOCKING_REWARD_RATIO,
    ;
    assert(amount * num >= 0) by (nonlinear_arith)
        requires
            amount >= 0,
            num >= 0,
    ;
    lemma_div_pos_is_pos(amount * num, denom);
}

/// Nothing locked weighs nothing.
pub proof fn lemma_weight_of_nothing(config: Config, duration_sec: u32)
    requires
        config.wf(),
    ensures
        config.ve_lpt_amount(0, duration_sec) == 0,
{
    let num = (config.max_locking_multiplier - MIN_LOCKING_REWARD_RATIO) * nanos(duration_sec);
    let denom = nanos(config.max_locking_duration_sec) * MIN_LOCKING_REWARD_RATIO;
    assert(0 * num == 0) by (nonlinear_arith);
    assert(0int / denom == 0);
}

/// Locked for no time, an amount weighs what it is.
pub proof fn lemma_weight_of_no_duration(config: Config, amount: int)
    requires
        config.wf(),
    ensures
        config.ve_lpt_amount(amount, 0) == amount,
{
    let denom = nanos(config.max_locking_duration_sec) * MIN_LOCKING_REWARD_RATIO;
    assert(amount * ((config.max_locking_multiplier - MIN_LOCKING_REWARD_RATIO) * nanos(0)) == 0)
        by (nonlinear_arith);
    assert(0int / denom == 0);
}

/// Locked for the longest duration, an amount weighs
/// `amount * max_locking_multiplier / MIN_LOCKING_REWARD_RATIO`.
pub proof fn lemma_weight_of_max_duration(config: Config, amount: int)
    requires
        config.wf(),
        amount >= 0,
    ensures
        config.ve_lpt_amount(amount, config.max_locking_duration_sec) == (amount
            * config.max_locking_multiplier) / (MIN_LOCKING_REWARD_RATIO as int),
{
    let m = config.max_locking_multiplier as int;
    let min = MIN_LOCKING_REWARD_RATIO as int;
    let n = nanos(config.max_locking_duration_sec);
    let x = amount * (m - min);
    // (x * n) / (n * min) == x / min
    assert(amount * ((m - min) * n) == x * n) by (nonlinear_arith)
        requires
            x == amount * (m - min),
    ;
    assert(x >= 0) by (nonlinear_arith)
        requires
            x == amount * (m - min),
            amount >= 0,
            m >= min,
    ;
    let q = x / min;
    let r = x % min;
    vstd::arithmetic::div_mod::lemma_fundamental_div_mod(x, min);
    assert(x * n == q * (n * min) + r * n) by (nonlinear_arith)
        requires
            x == min * q + r,
    ;
    assert(0 <= r * n < n * min) by (nonlinear_arith)
        requires
            0 <= r < min,
            n > 0,
    ;
    vstd::arithmetic::div_mod::lemma_fundamental_div_mod_converse(x * n, n * min, q, r * n);
    // amount + x / min == (amount * min + x) / min
    assert(amount * m == amount * min + x) by (nonlinear_arith)
        requires
            x == amount * (m - min),
    ;
    assert(amount * min + x == (amount + q) * min + r) by (nonlinear_arith)
        requires
            x == min * q + r,
    ;
    vstd::arithmetic::div_mod::lemma_fundamental_div_mod_converse(amount * m, min, amount + q, r);
}

/// The escrow weight of `amount` locked for `duration_sec`, or an overflow error
/// where the weight does not fit in 128 bits.
pub fn compute_ve_lpt_amount(config: &Config, amount: u128, duration_sec: u32) -> (res: Result<
    u128,
    Error,
>)
    requires
        config.wf(),
    ensures
        res == (if config.ve_lpt_amount(amount as int, duration_sec) <= u128::MAX {
            Ok::<u128, Error>(config.ve_lpt_amount(amount as int, duration_sec) as u128)
        } else {
            Err(Error::Overflow)
        }),
{
    let above: u32 = config.max_locking_multiplier - MIN_LOCKING_REWARD_RATIO;
    let span: u64 = to_nano(duration_sec);
    let full: u64 = to_nano(config.max_locking_duration_sec);
    assert(above as int * span as int <= 0xffff_ffff * 0xffff_ffff_ffff_ffff) by (nonlinear_arith)
        requires
            0 <= above <= 0xffff_ffff,
            0 <= span <= 0xffff_ffff_ffff_ffff,
    ;
    assert(0 < full as int * MIN_LOCKING_REWARD_RATIO as int <= 0xffff_ffff_ffff_ffff * 10000)
        by (nonlinear_arith)
        requires
            0 < full <= 0xffff_ffff_ffff_ffff,
            MIN_LOCKING_REWARD_RATIO == 10000,
    ;
    let num: u128 = (above as u128) * (span as u128);
    let denom: u128 = (full as u128) * (MIN_LOCKING_REWARD_RATIO as u128);
    proof {
        lemma_weight_at_least_amount(*config, amount as int, duration_sec);
    }
    match checked_ratio(amount, num, denom) {
        None => Err(Error::Overflow),
        Some(bonus) => match amount.checked_add(bonus) {
            None => Err(Error::Overflow),
            Some(weight) => Ok(weight),
        },
    }
}

/// What the ledger holds of one user.
#[derive(Debug)]
pub struct Account {
    /// The amount of LPT locked
    pub lpt_amount: Balance,
    /// The amount of veLPT the account holds
    pub ve_lpt_amount: Balance,
    /// When the locking token can be unlocked without slash in nanoseconds.
    pub unlock_timestamp: u64,
    /// The duration of current locking in seconds.
    pub duration_sec: u32,
    /// Record voting action
    pub proposals: HashMap<u32, Action>,
    /// Rewards that were claimed and not withdrawn yet, by token.
    pub rewards: StrMap<Balance>,
}

/// An account as plain values.
pub struct AccountView {
    pub lpt_amount: Balance,
    pub ve_lpt_amount: Balance,
    pub unlock_timestamp: u64,
    pub duration_sec: u32,
    pub proposals: Map<u32, Action>,
    pub rewards: Map<Seq<char>, Balance>,
}

/// What a table of rewards holds of `token`: nothing where it has no entry.
pub open spec fn balance_of(rewards: Map<Seq<char>, Balance>, token: Seq<char>) -> Balance {
    if rewards.contains_key(token) {
        rewards[token]
    } else {
        0
    }
}

/// Whether `added` can be added to `held` token by token within 128 bits.
pub open spec fn rewards_fit(
    held: Map<Seq<char>, Balance>,
    added: Map<Seq<char>, Balance>,
) -> bool {
    forall|token: Seq<char>| #[trigger]
        added.contains_key(token) ==> balance_of(held, token) + added[token] <= u128::MAX
}

/// The table that holds of every token what `held` and `added` hold together.
pub open spec fn merged_rewards(
    held: Map<Seq<char>, Balance>,
    added: Map<Seq<char>, Balance>,
) -> Map<Seq<char>, Balance> {
    Map::new(
        |token: Seq<char>| held.contains_key(token) || added.contains_key(token),
        |token: Seq<char>| (balance_of(held, token) + balance_of(added, token)) as u128,
    )
}

impl View for Account {
    type V = AccountView;

    open spec fn view(&self) -> AccountView {
        AccountView {
            lpt_amount: self.lpt_amount,
            ve_lpt_amount: self.ve_lpt_amount,
            unlock_timestamp: self.unlock_timestamp,
            duration_sec: self.duration_sec,
            proposals: self.proposals@,
            rewards: self.rewards@,
        }
    }
}

impl AccountView {
    /// The account that holds nothing.
    pub open spec fn empty() -> AccountView {
        AccountView {
            lpt_amount: 0,
            ve_lpt_amount: 0,
            unlock_timestamp: 0,
            duration_sec: 0,
            proposals: Map::empty(),
            rewards: Map::empty(),
        }
    }

    /// An account without unlock time holds no lock, and nothing locked has no weight.
    pub open spec fn lock_consistent(self) -> bool {
        &&& self.unlock_timestamp == 0 ==> self.ve_lpt_amount == 0 && self.duration_sec == 0
            && self.lpt_amount == 0
        &&& self.lpt_amount == 0 ==> self.ve_lpt_amount == 0
    }

    /// Whether a lock is running at `timestamp`.
    pub open spec fn lock_active(self, timestamp: u64) -> bool {
        self.unlock_timestamp > 0 && self.unlock_timestamp > timestamp
    }

    /// The weight after locking `amount` more for `duration_sec` at `timestamp`.
    ///
    /// A running lock keeps at least its weight, is weighed again at the new duration,
    /// and the added amount is weighed on its own. Otherwise the whole balance is
    /// weighed afresh.
    pub open spec fn weight_after_lock(
        self,
        amount: Balance,
        duration_sec: u32,
        config: Config,
        timestamp: u64,
    ) -> int {
        if self.lock_active(timestamp) {
            let relocked = config.ve_lpt_amount(self.lpt_amount as int, duration_sec);
            let kept = if self.ve_lpt_amount >= relocked {
                self.ve_lpt_amount as int
            } else {
                relocked
            };
            kept + config.ve_lpt_amount(amount as int, duration_sec)
        } else {
            config.ve_lpt_amount(self.lpt_amount + amount, duration_sec)
        }
    }

    /// The account after locking `amount` more, and the weight it gained.
    pub open spec fn lock_lpt(
        self,
        amount: Balance,
        duration_sec: u32,
        config: Config,
        timestamp: u64,
    ) -> Result<(AccountView, Balance), Error> {
        let unlock = timestamp + nanos(duration_sec);
        let weight = self.weight_after_lock(amount, duration_sec, config, timestamp);
        if self.lock_active(timestamp) && self.unlock_timestamp > unlock {
            Err(Error::CausePreUnlock)
        } else if unlock > u64::MAX || self.lpt_amount + amount > u128::MAX || weight > u128::MAX
            || weight < self.ve_lpt_amount {
            Err(Error::Overflow)
        } else {
            Ok(
                (
                    AccountView {
                        lpt_amount: (self.lpt_amount + amount) as u128,
                        ve_lpt_amount: weight as u128,
                        unlock_timestamp: unlock as u64,
                        duration_sec,
                        ..self
                    },
                    (weight - self.ve_lpt_amount) as u128,
                ),
            )
        }
    }

    /// The account after the rewards `added` were credited to it.
    pub open spec fn add_rewards(self, added: Map<Seq<char>, Balance>) -> Result<
        AccountView,
        Error,
    > {
        if rewards_fit(self.rewards, added) {
            Ok(AccountView { rewards: merged_rewards(self.rewards, added), ..self })
        } else {
            Err(Error::Overflow)
        }
    }

    /// The account after `amount` of the reward in `token` was taken from it. A
    /// balance that is used up leaves the table.
    pub open spec fn sub_reward(self, token: Seq<char>, amount: Balance) -> Result<
        AccountView,
        Error,
    > {
        let held = balance_of(self.rewards, token);
        if amount > held {
            Err(Error::InsufficientBalance)
        } else if amount < held {
            Ok(AccountView { rewards: self.rewards.insert(token, (held - amount) as u128), ..self })
        } else {
            Ok(AccountView { rewards: self.rewards.remove(token), ..self })
        }
    }

    /// The account after `amount` was withdrawn at `timestamp`, and the weight it lost.
    pub open spec fn withdraw_lpt(self, amount: Balance, timestamp: u64) -> Result<
        (AccountView, Balance),
        Error,
    > {
        if timestamp < self.unlock_timestamp {
            Err(Error::StillInLock)
        } else if amount == 0 || amount > self.lpt_amount {
            Err(Error::InsufficientBalance)
        } else if amount < self.lpt_amount {
            let weight = ratio(
                self.ve_lpt_amount as int,
                self.lpt_amount - amount,
                self.lpt_amount as int,
            );
            Ok(
                (
                    AccountView {
                        lpt_amount: (self.lpt_amount - amount) as u128,
                        ve_lpt_amount: weight as u128,
                        ..self
                    },
                    (self.ve_lpt_amount - weight) as u128,
                ),
            )
        } else {
            Ok(
                (
                    AccountView {
                        lpt_amount: 0,
                        ve_lpt_amount: 0,
                        unlock_timestamp: 0,
                        duration_sec: 0,
                        ..self
                    },
                    self.ve_lpt_amount,
                ),
            )
        }
    }
}

/// One request to lock.
pub struct LockRequest {
    pub amount: Balance,
    pub duration_sec: u32,
    pub timestamp: u64,
}

impl AccountView {
    /// The account after the requests were made one after the other; a request
    /// that is refused leaves the account as it was.
    pub open spec fn lock_all(self, requests: Seq<LockRequest>, config: Config) -> AccountView
        decreases requests.len(),
    {
        if requests.len() == 0 {
            self
        } else {
            let before = self.lock_all(requests.drop_last(), config);
            let last = requests.last();
            match before.lock_lpt(last.amount, last.duration_sec, config, last.timestamp) {
                Ok((after, _)) => after,
                Err(_) => before,
            }
        }
    }
}

/// Locking never lowers the escrow weight of an account, however often and with
/// whatever amounts and durations it is done.
pub proof fn lemma_locking_never_lowers_weight(
    account: AccountView,
    requests: Seq<LockRequest>,
    config: Config,
)
    ensures
        account.lock_all(requests, config).ve_lpt_amount >= account.ve_lpt_amount,
    decreases requests.len(),
{
    if requests.len() > 0 {
        lemma_locking_never_lowers_weight(account, requests.drop_last(), config);
    }
}

/// A part of a weight is at most the weight.
proof fn lemma_part_of_weight(weight: int, part: int, whole: int)
    requires
        0 <= weight,
        0 <= part <= whole,
        0 < whole,
    ensures
        0 <= ratio(weight, part, whole) <= weight,
{
    assert(0 <= weight * part <= weight * whole) by (nonlinear_arith)
        requires
            0 <= weight,
            0 <= part <= whole,
    ;
    lemma_div_pos_is_pos(weight * part, whole);
    lemma_div_is_ordered(weight * part, weight * whole, whole);
    vstd::arithmetic::div_mod::lemma_div_multiples_vanish(weight, whole);
    assert(weight * whole == whole * weight) by (nonlinear_arith);
}

impl Account {
    /// The table of rewards is in order.
    pub open spec fn wf(&self) -> bool {
        self.rewards.wf()
    }

    /// An account that holds nothing.
    pub fn new() -> (account: Account)
        ensures
            account.wf(),
            account@ == AccountView::empty(),
    {
        Account {
            lpt_amount: 0,
            ve_lpt_amount: 0,
            unlock_timestamp: 0,
            duration_sec: 0,
            proposals: HashMap::new(),
            rewards: StrMap::new(),
        }
    }

    /// The proposals on which the account holds an open vote, in no particular order.
    pub fn open_votes(&self) -> (ids: Vec<u32>)
        ensures
            ids@.no_duplicates(),
            ids@.to_set() == self.proposals@.dom(),
    {
        let mut ids: Vec<u32> = Vec::new();
        let ghost all: Seq<u32> = self.proposals.keys().remaining().unref();
        for id in it: self.proposals.keys()
            invariant
                it.seq().unref() == all,
                ids@ == all.take(it.index() as int),
        {
            assert(all[it.index() as int] == *id);
            ids.push(*id);
            assert(ids@ =~= all.take(it.index() + 1));
        }
        assert(all.take(all.len() as int) =~= all);
        ids
    }

    /// Credits the rewards `rewards` to the account, each added to what the account
    /// holds of its token.
    pub fn add_rewards(&mut self, rewards: &StrMap<Balance>) -> (res: Result<(), Error>)
        requires
            old(self).wf(),
            rewards.wf(),
        ensures
            match old(self)@.add_rewards(rewards@) {
                Ok(post) => res is Ok && final(self)@ == post,
                Err(e) => res == Err::<(), Error>(e) && final(self)@ == old(self)@,
            },
            final(self).wf(),
    {
        let n = rewards.len();
        let mut i: usize = 0;
        while i < n
            invariant
                i <= n,
                n == rewards.spec_len(),
                rewards.wf(),
                rewards.listed(),
                self.wf(),
                forall|j: int|
                    0 <= j < i ==> balance_of(self.rewards@, #[trigger] rewards.spec_key(j))
                        + rewards.spec_value(j) <= u128::MAX,
            decreases n - i,
        {
            let (token, amount) = rewards.entry(i);
            let held: Balance = match self.rewards.get(token) {
                Some(b) => *b,
                None => 0,
            };
            if held.checked_add(*amount).is_none() {
                assert(rewards@.contains_key(token@));
                return Err(Error::Overflow);
            }
            i = i + 1;
        }
        assert(rewards_fit(self.rewards@, rewards@)) by {
            assert forall|token: Seq<char>| #[trigger] rewards@.contains_key(token) implies balance_of(
                self.rewards@,
                token,
            ) + rewards@[token] <= u128::MAX by {
                let j = choose|j: int| 0 <= j < rewards.spec_len() && rewards.spec_key(j) == token;
                assert(rewards.spec_key(j) == token);
            }
        }
        let ghost held = self.rewards@;
        let mut i: usize = 0;
        while i < n
            invariant
                i <= n,
                n == rewards.spec_len(),
                rewards.wf(),
                rewards.listed(),
                self.rewards.wf(),
                self.lpt_amount == old(self).lpt_amount,
                self.ve_lpt_amount == old(self).ve_lpt_amount,
                self.unlock_timestamp == old(self).unlock_timestamp,
                self.duration_sec == old(self).duration_sec,
                self.proposals == old(self).proposals,
                rewards_fit(held, rewards@),
                forall|token: Seq<char>|
                    self.rewards@.contains_key(token) <==> held.contains_key(token) || exists|
                        j: int,
                    |
                        0 <= j < i && #[trigger] rewards.spec_key(j) == token,
                forall|token: Seq<char>| #[trigger]
                    self.rewards@.contains_key(token) ==> self.rewards@[token] == (if exists|
                        j: int,
                    |
                        0 <= j < i && #[trigger] rewards.spec_key(j) == token {
                        (balance_of(held, token) + rewards@[token]) as u128
                    } else {
                        held[token]
                    }),
            decreases n - i,
        {
            let (token, amount) = rewards.entry(i);
            let ghost before = self.rewards@;
            let ours: Balance = match self.rewards.get(token) {
                Some(b) => *b,
                None => 0,
            };
            proof {
                assert(rewards.spec_key(i as int) == token@);
                assert(rewards@.contains_key(token@));
                if exists|j: int| 0 <= j < i && #[trigger] rewards.spec_key(j) == token@ {
                    let j = choose|j: int| 0 <= j < i && #[trigger] rewards.spec_key(j) == token@;
                    assert(false);
                }
                assert(ours == balance_of(held, token@));
            }
            self.rewards.insert(token.clone(), ours + *amount);
            proof {
                assert forall|t: Seq<char>|
                    self.rewards@.contains_key(t) <==> held.contains_key(t) || exists|j: int|
                        0 <= j < i + 1 && #[trigger] rewards.spec_key(j) == t by {
                    if t == token@ {
                        assert(rewards.spec_key(i as int) == t);
                    } else {
                        if exists|j: int| 0 <= j < i + 1 && #[trigger] rewards.spec_key(j) == t {
                            let j = choose|j: int|
                                0 <= j < i + 1 && #[trigger] rewards.spec_key(j) == t;
                            assert(0 <= j < i && rewards.spec_key(j) == t);
                        }
                        if exists|j: int| 0 <= j < i && #[trigger] rewards.spec_key(j) == t {
                            let j = choose|j: int| 0 <= j < i && #[trigger] rewards.spec_key(j) == t;
                            assert(0 <= j < i + 1 && rewards.spec_key(j) == t);
                        }
                    }
                }
                assert forall|t: Seq<char>| #[trigger]
                    self.rewards@.contains_key(t) implies self.rewards@[t] == (if exists|j: int|
                    0 <= j < i + 1 && #[trigger] rewards.spec_key(j) == t {
                    (balance_of(held, t) + rewards@[t]) as u128
                } else {
                    held[t]
                }) by {
                    if t == token@ {
                        assert(rewards.spec_key(i as int) == t);
                    } else {
                        assert(before.contains_key(t));
                        if exists|j: int| 0 <= j < i + 1 && #[trigger] rewards.spec_key(j) == t {
                            let j = choose|j: int|
                                0 <= j < i + 1 && #[trigger] rewards.spec_key(j) == t;
                            assert(0 <= j < i && rewards.spec_key(j) == t);
                        }
                        if exists|j: int| 0 <= j < i && #[trigger] rewards.spec_key(j) == t {
                            let j = choose|j: int| 0 <= j < i && #[trigger] rewards.spec_key(j) == t;
                            assert(0 <= j < i + 1 && rewards.spec_key(j) == t);
                        }
                    }
                }
            }
            i = i + 1;
        }
        assert(self.rewards@ =~= merged_rewards(held, rewards@)) by {
            assert forall|t: Seq<char>| rewards@.contains_key(t) <==> exists|j: int|
                0 <= j < n && #[trigger] rewards.spec_key(j) == t by {
                if rewards@.contains_key(t) {
                    let j = choose|j: int| 0 <= j < rewards.spec_len() && rewards.spec_key(j) == t;
                    assert(0 <= j < n && rewards.spec_key(j) == t);
                }
            }
        }
        Ok(())
    }

    /// Takes `amount` from the reward that the account holds in `token_id`.
    ///
    /// More than the account holds cannot be taken. A balance that is used up
    /// leaves the table.
    pub fn sub_reward(&mut self, token_id: &String, amount: Balance) -> (res: Result<(), Error>)
        requires
            old(self).wf(),
        ensures
            match old(self)@.sub_reward(token_id@, amount) {
                Ok(post) => res is Ok && final(self)@ == post,
                Err(e) => res == Err::<(), Error>(e) && final(self)@ == old(self)@,
            },
            final(self).wf(),
    {
        let prev: Balance = match self.rewards.get(token_id) {
            Some(b) => *b,
            None => 0,
        };
        if amount > prev {
            return Err(Error::InsufficientBalance);
        }
        let remain = prev - amount;
        if remain > 0 {
            self.rewards.insert(token_id.clone(), remain);
        } else {
            self.rewards.remove(token_id);
        }
        Ok(())
    }

    /// Locks `amount` more for `duration_sec` from `timestamp` on, and returns the
    /// escrow weight that the account gained.
    ///
    /// A lock that is still running can be prolonged, never shortened. The weight of
    /// the account never falls by locking.
    pub fn lock_lpt(
        &mut self,
        amount: Balance,
        duration_sec: u32,
        config: &Config,
        timestamp: u64,
    ) -> (res: Result<Balance, Error>)
        requires
            config.wf(),
        ensures
            match old(self)@.lock_lpt(amount, duration_sec, *config, timestamp) {
                Ok((post, gained)) => res == Ok::<Balance, Error>(gained) && final(self)@ == post,
                Err(e) => res == Err::<Balance, Error>(e) && final(self)@ == old(self)@,
            },
            final(self).ve_lpt_amount >= old(self).ve_lpt_amount,
            final(self).rewards == old(self).rewards,
            final(self).proposals == old(self).proposals,
            res is Ok && old(self)@.lock_consistent() && (timestamp > 0 || duration_sec > 0)
                ==> final(self)@.lock_consistent(),
    {
        let prev = self.ve_lpt_amount;
        let span = to_nano(duration_sec);
        proof {
            lemma_weight_at_least_amount(*config, self.lpt_amount as int, duration_sec);
            lemma_weight_at_least_amount(*config, amount as int, duration_sec);
            lemma_weight_at_least_amount(*config, self.lpt_amount + amount, duration_sec);
            lemma_weight_of_nothing(*config, duration_sec);
        }
        let active = self.unlock_timestamp > 0 && self.unlock_timestamp > timestamp;
        let new_unlock_timestamp = match timestamp.checked_add(span) {
            Some(t) => t,
            None => {
                return Err(Error::Overflow);
            },
        };
        if active && self.unlock_timestamp > new_unlock_timestamp {
            return Err(Error::CausePreUnlock);
        }
        let lpt_amount = match self.lpt_amount.checked_add(amount) {
            Some(a) => a,
            None => {
                return Err(Error::Overflow);
            },
        };
        let weight = if active {
            // a running lock is weighed again at the new duration
            let relocked_ve = compute_ve_lpt_amount(config, self.lpt_amount, duration_sec)?;
            let kept = if self.ve_lpt_amount >= relocked_ve {
                self.ve_lpt_amount
            } else {
                relocked_ve
            };
            let extra_x = compute_ve_lpt_amount(config, amount, duration_sec)?;
            match kept.checked_add(extra_x) {
                Some(w) => w,
                None => {
                    return Err(Error::Overflow);
                },
            }
        } else {
            compute_ve_lpt_amount(config, lpt_amount, duration_sec)?
        };
        let gained = match weight.checked_sub(prev) {
            Some(g) => g,
            None => {
                return Err(Error::Overflow);
            },
        };
        self.ve_lpt_amount = weight;
        self.unlock_timestamp = new_unlock_timestamp;
        self.lpt_amount = lpt_amount;
        self.duration_sec = duration_sec;
        Ok(gained)
    }

    /// Withdraws `amount` of the locked balance at `timestamp`, and returns the
    /// escrow weight that the account lost.
    ///
    /// The lock must have run out. A part withdrawn takes its part of the weight,
    /// rounded so that the weight left is `weight * (locked - amount) / locked`;
    /// the whole withdrawn leaves no lock at all.
    pub fn withdraw_lpt(&mut self, amount: Balance, timestamp: u64) -> (res: Result<Balance, Error>)
        ensures
            match old(self)@.withdraw_lpt(amount, timestamp) {
                Ok((post, lost)) => res == Ok::<Balance, Error>(lost) && final(self)@ == post,
                Err(e) => res == Err::<Balance, Error>(e) && final(self)@ == old(self)@,
            },
            res is Ok && amount == old(self).lpt_amount ==> final(self).lpt_amount == 0
                && final(self).ve_lpt_amount == 0 && final(self).unlock_timestamp == 0
                && final(self).duration_sec == 0,
            res is Ok && amount < old(self).lpt_amount ==> final(self).ve_lpt_amount as int == (
            old(self).ve_lpt_amount * (old(self).lpt_amount - amount)) / (
            old(self).lpt_amount as int) && final(self).lpt_amount == old(self).lpt_amount
                - amount,
            final(self).ve_lpt_amount <= old(self).ve_lpt_amount,
            final(self).rewards == old(self).rewards,
            final(self).proposals == old(self).proposals,
            res is Ok && old(self)@.lock_consistent() ==> final(self)@.lock_consistent(),
    {
        let prev = self.ve_lpt_amount;
        if timestamp < self.unlock_timestamp {
            return Err(Error::StillInLock);
        }
        if amount > self.lpt_amount || amount == 0 {
            return Err(Error::InsufficientBalance);
        }
        if amount < self.lpt_amount {
            proof {
                lemma_part_of_weight(
                    self.ve_lpt_amount as int,
                    self.lpt_amount - amount,
                    self.lpt_amount as int,
                );
            }
            let new_ve = match checked_ratio(
                self.ve_lpt_amount,
                self.lpt_amount - amount,
                self.lpt_amount,
            ) {
                Some(w) => w,
                None => 0,
            };
            self.ve_lpt_amount = new_ve;
        } else {
            self.ve_lpt_amount = 0;
            self.unlock_timestamp = 0;
            self.duration_sec = 0;
        }
        self.lpt_amount = self.lpt_amount - amount;
        Ok(prev - self.ve_lpt_amount)
    }
}

impl Clone for Account {
    fn clone(&self) -> (account: Account)
        ensures
            self.wf() ==> account.wf() && account@ == self@,
    {
        let rewards = self.rewards.clone();
        assert(self.wf() ==> rewards@ =~= self.rewards@);
        Account {
            lpt_amount: self.lpt_amount,
            ve_lpt_amount: self.ve_lpt_amount,
            unlock_timestamp: self.unlock_timestamp,
            duration_sec: self.duration_sec,
            proposals: self.proposals.clone(),
            rewards,
        }
    }
}

/// The stored form of an account, by the version of its layout.
#[derive(Debug)]
pub enum VAccount {
    Current(Account),
}

impl From<VAccount> for Account {
    fn from(v: VAccount) -> (account: Account) {
        match v {
            VAccount::Current(c) => c,
        }
    }
}

impl vstd::std_specs::convert::FromSpecImpl<VAccount> for Account {
    open spec fn obeys_from_spec() -> bool {
        true
    }

    open spec fn from_spec(v: VAccount) -> Account {
        v->Current_0
    }
}

impl From<Account> for VAccount {
    fn from(c: Account) -> (v: VAccount) {
        VAccount::Current(c)
    }
}

impl vstd::std_specs::convert::FromSpecImpl<Account> for VAccount {
    open spec fn obeys_from_spec() -> bool {
        true
    }

    open spec fn from_spec(c: Account) -> VAccount {
        VAccount::Current(c)
    }
}

impl Default for Account {
    fn default() -> (account: Account)
        ensures
            account.wf(),
            account@ == AccountView::empty(),
    {
        Account::new()
    }
}

} // verus!
