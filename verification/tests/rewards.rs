use ref_ve::account::{Account, Config};
use ref_ve::contract::Contract;
use ref_ve::errors::Error;
use ref_ve::proposals::{IncentiveType, Proposal, ProposalKind, ProposalStatus};
use ref_ve::proposals_action::Action;
use ref_ve::str_map::StrMap;

const FULL: u32 = 86_400;
const NOW: u64 = 7_000_000;

fn id(text: &str) -> String {
    String::from(text)
}

fn poll_with_voters(weights: &[(&str, u128, usize)]) -> Contract {
    let mut ledger = Contract::new(Config::new(20000, FULL).unwrap());
    let mut poll = Proposal::new(ProposalKind::Poll, 3);
    poll.status = Some(ProposalStatus::InProgress);
    ledger.internal_set_proposal(0, poll);
    for (voter, weight, option) in weights {
        ledger.lock_lpt(&id(voter), *weight, 0, NOW).unwrap();
        ledger.action_proposal(&id(voter), 0, &Action::VotePoll { poll_id: *option }).unwrap();
    }
    ledger
}

fn expire(ledger: &mut Contract, proposal_id: u32) {
    let mut proposal = ledger.internal_unwrap_proposal(proposal_id).unwrap();
    proposal.status = Some(ProposalStatus::Expired);
    ledger.internal_set_proposal(proposal_id, proposal);
}

fn balance(ledger: &Contract, account_id: &str, token: &str) -> u128 {
    let account = ledger.internal_unwrap_account(&id(account_id)).unwrap();
    match account.rewards.get(&id(token)) {
        Some(amount) => *amount,
        None => 0,
    }
}

fn table(entries: &[(&str, u128)]) -> StrMap<u128> {
    let mut rewards: StrMap<u128> = StrMap::new();
    for (token, amount) in entries {
        rewards.insert(id(token), *amount);
    }
    rewards
}

#[test]
fn deposits_to_one_pool_add_up() {
    let mut proposal = Proposal::new(ProposalKind::FarmingReward, 2);
    assert_eq!(proposal.deposit_reward(1, IncentiveType::Proportion, &id("ref"), 40), Ok(40));
    assert_eq!(proposal.deposit_reward(1, IncentiveType::Evenly, &id("ref"), 2), Ok(42));
    assert_eq!(proposal.deposit_reward(0, IncentiveType::Proportion, &id("usn"), 5), Ok(5));
    let pool = proposal.incentive.get(&1).unwrap();
    assert_eq!(pool.incentive_amount, 42);
    assert_eq!(pool.claimed_amount, 0);
    assert_eq!(pool.incentive_type, IncentiveType::Evenly);
    assert_eq!(pool.incentive_token_id, id("ref"));
    assert_eq!(proposal.incentive.get(&0).unwrap().incentive_amount, 5);
    assert_eq!(proposal.incentive.len(), 2);
}

#[test]
fn a_pool_holds_one_token() {
    let mut proposal = Proposal::new(ProposalKind::Poll, 2);
    proposal.deposit_reward(0, IncentiveType::Proportion, &id("ref"), 40).unwrap();
    assert_eq!(
        proposal.deposit_reward(0, IncentiveType::Proportion, &id("usn"), 1),
        Err(Error::InvalidIncentiveToken)
    );
    assert_eq!(
        proposal.deposit_reward(0, IncentiveType::Proportion, &id("ref"), u128::MAX),
        Err(Error::Overflow)
    );
    assert_eq!(proposal.incentive.get(&0).unwrap().incentive_amount, 40);
    assert_eq!(proposal.incentive.get(&0).unwrap().incentive_token_id, id("ref"));
}

#[test]
fn a_deposit_needs_its_proposal() {
    let mut ledger = Contract::new(Config::new(20000, FULL).unwrap());
    assert_eq!(
        ledger.deposit_reward(3, 0, IncentiveType::Evenly, &id("ref"), 1),
        Err(Error::ProposalNotExist)
    );
    assert!(ledger.proposals.is_empty());
}

#[test]
fn a_proportional_pool_pays_by_weight_rounded_down() {
    let mut proposal = Proposal::new(ProposalKind::Poll, 2);
    proposal.votes = vec![7, 3];
    proposal.option_participants = vec![3, 1];
    proposal.participants = 4;
    proposal.deposit_reward(0, IncentiveType::Proportion, &id("ref"), 100).unwrap();
    let vote = Action::VotePoll { poll_id: 0 };
    // 100 * 2 / 7 = 28.57, 100 * 4 / 7 = 57.14, 100 * 1 / 7 = 14.28
    assert_eq!(proposal.reward_of(&vote, 2), Ok(Some((id("ref"), 28))));
    assert_eq!(proposal.reward_of(&vote, 4), Ok(Some((id("ref"), 57))));
    assert_eq!(proposal.reward_of(&vote, 1), Ok(Some((id("ref"), 14))));
    assert_eq!(proposal.reward_of(&vote, 0), Ok(None));
    assert_eq!(proposal.reward_of(&Action::VotePoll { poll_id: 1 }, 3), Ok(None));
    assert_eq!(proposal.reward_of(&Action::VoteApprove, 3), Ok(None));
    assert_eq!(proposal.incentive.get(&0).unwrap().claimed_amount, 0);
}

#[test]
fn an_even_pool_pays_every_voter_the_same() {
    let mut proposal = Proposal::new(ProposalKind::Poll, 2);
    proposal.votes = vec![7, 3];
    proposal.option_participants = vec![3, 1];
    proposal.participants = 4;
    proposal.deposit_reward(0, IncentiveType::Evenly, &id("ref"), 100).unwrap();
    let vote = Action::VotePoll { poll_id: 0 };
    assert_eq!(proposal.claim_reward(&vote, 2), Ok(Some((id("ref"), 33))));
    assert_eq!(proposal.claim_reward(&vote, 4), Ok(Some((id("ref"), 33))));
    assert_eq!(proposal.claim_reward(&vote, 1), Ok(Some((id("ref"), 33))));
    assert_eq!(proposal.claim_reward(&vote, 0), Ok(None));
    let pool = proposal.incentive.get(&0).unwrap();
    assert_eq!(pool.claimed_amount, 99);
    assert_eq!(pool.incentive_amount, 100);
}

#[test]
fn a_pool_without_votes_pays_nothing() {
    let mut proposal = Proposal::new(ProposalKind::Poll, 2);
    proposal.deposit_reward(0, IncentiveType::Proportion, &id("ref"), 100).unwrap();
    proposal.deposit_reward(1, IncentiveType::Evenly, &id("ref"), 100).unwrap();
    assert_eq!(proposal.claim_reward(&Action::VotePoll { poll_id: 0 }, 5), Ok(None));
    assert_eq!(proposal.claim_reward(&Action::VotePoll { poll_id: 1 }, 5), Ok(None));
    assert_eq!(proposal.incentive.get(&0).unwrap().claimed_amount, 0);
    assert_eq!(proposal.incentive.get(&1).unwrap().claimed_amount, 0);
}

#[test]
fn two_equal_voters_share_a_proportional_pool_in_halves() {
    let mut ledger = poll_with_voters(&[("ann", 500, 0), ("ben", 500, 0)]);
    ledger.deposit_reward(0, 0, IncentiveType::Proportion, &id("ref"), 100).unwrap();
    expire(&mut ledger, 0);
    assert_eq!(ledger.claim_reward(&id("ann"), 0), Ok(()));
    assert_eq!(ledger.claim_reward(&id("ben"), 0), Ok(()));
    assert_eq!(balance(&ledger, "ann", "ref"), 50);
    assert_eq!(balance(&ledger, "ben", "ref"), 50);
    let pool_owner = ledger.internal_unwrap_proposal(0).unwrap();
    let pool = pool_owner.incentive.get(&0).unwrap();
    assert_eq!(pool.claimed_amount, 100);
    assert_eq!(pool.incentive_amount, 100);
}

#[test]
fn four_voters_share_an_even_pool_in_quarters() {
    let mut ledger =
        poll_with_voters(&[("ann", 1, 1), ("ben", 20, 1), ("cat", 300, 1), ("dan", 4000, 1)]);
    ledger.deposit_reward(0, 1, IncentiveType::Evenly, &id("ref"), 200).unwrap();
    expire(&mut ledger, 0);
    for voter in ["ann", "ben", "cat", "dan"] {
        assert_eq!(ledger.claim_reward(&id(voter), 0), Ok(()));
        assert_eq!(balance(&ledger, voter, "ref"), 50);
    }
    let proposal = ledger.internal_unwrap_proposal(0).unwrap();
    assert_eq!(proposal.incentive.get(&1).unwrap().claimed_amount, 200);
}

#[test]
fn a_proportional_pool_never_pays_more_than_it_holds() {
    let mut ledger = poll_with_voters(&[("ann", 1, 2), ("ben", 1, 2), ("cat", 1, 2)]);
    ledger.deposit_reward(0, 2, IncentiveType::Proportion, &id("ref"), 100).unwrap();
    expire(&mut ledger, 0);
    let mut paid: u128 = 0;
    for voter in ["ann", "ben", "cat"] {
        ledger.claim_reward(&id(voter), 0).unwrap();
        assert_eq!(balance(&ledger, voter, "ref"), 33);
        paid += balance(&ledger, voter, "ref");
    }
    assert_eq!(paid, 99);
    let proposal = ledger.internal_unwrap_proposal(0).unwrap();
    let pool = proposal.incentive.get(&2).unwrap();
    assert_eq!(pool.claimed_amount, paid);
    assert!(pool.claimed_amount <= pool.incentive_amount);
    assert!(pool.incentive_amount - pool.claimed_amount <= 2);
}

#[test]
fn uneven_weights_share_a_proportional_pool_by_weight() {
    let mut ledger = poll_with_voters(&[("ann", 1, 0), ("ben", 2, 0), ("cat", 4, 0), ("dan", 9, 1)]);
    ledger.deposit_reward(0, 0, IncentiveType::Proportion, &id("ref"), 1000).unwrap();
    expire(&mut ledger, 0);
    for voter in ["ann", "ben", "cat", "dan"] {
        ledger.claim_reward(&id(voter), 0).unwrap();
    }
    assert_eq!(balance(&ledger, "ann", "ref"), 142);
    assert_eq!(balance(&ledger, "ben", "ref"), 285);
    assert_eq!(balance(&ledger, "cat", "ref"), 571);
    assert_eq!(balance(&ledger, "dan", "ref"), 0);
    let proposal = ledger.internal_unwrap_proposal(0).unwrap();
    assert_eq!(proposal.incentive.get(&0).unwrap().claimed_amount, 998);
}

#[test]
fn claiming_twice_pays_once() {
    let mut ledger = poll_with_voters(&[("ann", 500, 0), ("ben", 500, 0)]);
    ledger.deposit_reward(0, 0, IncentiveType::Proportion, &id("ref"), 100).unwrap();
    expire(&mut ledger, 0);
    assert_eq!(ledger.claim_reward(&id("ann"), 0), Ok(()));
    let once = balance(&ledger, "ann", "ref");
    let claimed = ledger.internal_unwrap_proposal(0).unwrap().incentive.get(&0).unwrap().claimed_amount;
    assert_eq!(ledger.claim_reward(&id("ann"), 0), Ok(()));
    assert_eq!(ledger.claim_reward(&id("ann"), 0), Ok(()));
    assert_eq!(balance(&ledger, "ann", "ref"), once);
    assert_eq!(once, 50);
    assert_eq!(
        ledger.internal_unwrap_proposal(0).unwrap().incentive.get(&0).unwrap().claimed_amount,
        claimed
    );
    assert!(ledger.internal_unwrap_account(&id("ann")).unwrap().proposals.is_empty());
}

#[test]
fn a_claim_before_the_proposal_expired_changes_nothing() {
    let mut ledger = poll_with_voters(&[("ann", 500, 0)]);
    ledger.deposit_reward(0, 0, IncentiveType::Proportion, &id("ref"), 100).unwrap();
    assert_eq!(ledger.claim_reward(&id("ann"), 0), Ok(()));
    assert_eq!(balance(&ledger, "ann", "ref"), 0);
    let account = ledger.internal_unwrap_account(&id("ann")).unwrap();
    assert_eq!(account.open_votes(), vec![0]);
    assert_eq!(ledger.claim_reward(&id("nobody"), 0), Err(Error::AccNotRegistered));
    assert_eq!(ledger.claim_reward(&id("ann"), 5), Err(Error::ProposalNotExist));
}

#[test]
fn rewards_are_added_token_by_token() {
    let mut account = Account::new();
    assert_eq!(account.add_rewards(&table(&[("ref", 5), ("usn", 7)])), Ok(()));
    assert_eq!(account.add_rewards(&table(&[("usn", 3), ("dai", 1)])), Ok(()));
    assert_eq!(account.add_rewards(&table(&[])), Ok(()));
    assert_eq!(account.rewards.get(&id("ref")), Some(&5));
    assert_eq!(account.rewards.get(&id("usn")), Some(&10));
    assert_eq!(account.rewards.get(&id("dai")), Some(&1));
    assert_eq!(account.rewards.len(), 3);
}

#[test]
fn rewards_that_do_not_fit_are_refused_whole() {
    let mut account = Account::new();
    account.add_rewards(&table(&[("ref", 5), ("usn", u128::MAX)])).unwrap();
    assert_eq!(account.add_rewards(&table(&[("ref", 1), ("usn", 1)])), Err(Error::Overflow));
    assert_eq!(account.add_rewards(&table(&[("usn", 1), ("ref", 1)])), Err(Error::Overflow));
    assert_eq!(account.rewards.get(&id("ref")), Some(&5));
    assert_eq!(account.rewards.get(&id("usn")), Some(&u128::MAX));
}

#[test]
fn a_reward_is_taken_in_parts_or_whole() {
    let mut account = Account::new();
    account.add_rewards(&table(&[("ref", 10)])).unwrap();
    assert_eq!(account.sub_reward(&id("ref"), 4), Ok(()));
    assert_eq!(account.rewards.get(&id("ref")), Some(&6));
    assert_eq!(account.sub_reward(&id("ref"), 7), Err(Error::InsufficientBalance));
    assert_eq!(account.rewards.get(&id("ref")), Some(&6));
    assert_eq!(account.sub_reward(&id("usn"), 1), Err(Error::InsufficientBalance));
    assert_eq!(account.sub_reward(&id("usn"), 0), Ok(()));
    assert_eq!(account.sub_reward(&id("ref"), 6), Ok(()));
    assert_eq!(account.rewards.get(&id("ref")), None);
    assert!(account.rewards.is_empty());
}

#[test]
fn a_withdrawn_reward_can_be_restored() {
    let mut ledger = poll_with_voters(&[("ann", 500, 0)]);
    ledger.deposit_reward(0, 0, IncentiveType::Evenly, &id("ref"), 100).unwrap();
    expire(&mut ledger, 0);
    ledger.claim_reward(&id("ann"), 0).unwrap();
    assert_eq!(ledger.withdraw_reward(&id("ann"), &id("ref"), Some(101)), Err(Error::InsufficientBalance));
    assert_eq!(ledger.withdraw_reward(&id("ann"), &id("usn"), Some(1)), Err(Error::InsufficientBalance));
    assert_eq!(ledger.withdraw_reward(&id("nobody"), &id("ref"), None), Err(Error::AccNotRegistered));
    assert_eq!(balance(&ledger, "ann", "ref"), 100);
    assert_eq!(ledger.withdraw_reward(&id("ann"), &id("ref"), Some(30)), Ok(30));
    assert_eq!(balance(&ledger, "ann", "ref"), 70);
    assert_eq!(ledger.restore_reward(&id("ann"), &id("ref"), 30), Ok(()));
    assert_eq!(balance(&ledger, "ann", "ref"), 100);
    assert_eq!(ledger.withdraw_reward(&id("ann"), &id("ref"), None), Ok(100));
    assert!(ledger.internal_unwrap_account(&id("ann")).unwrap().rewards.is_empty());
    assert_eq!(ledger.withdraw_reward(&id("ann"), &id("ref"), None), Ok(0));
    assert_eq!(ledger.restore_reward(&id("ann"), &id("ref"), 100), Ok(()));
    assert_eq!(balance(&ledger, "ann", "ref"), 100);
    assert_eq!(ledger.restore_reward(&id("nobody"), &id("ref"), 1), Err(Error::AccNotRegistered));
    assert_eq!(ledger.restore_reward(&id("ann"), &id("ref"), u128::MAX), Err(Error::Overflow));
    assert_eq!(balance(&ledger, "ann", "ref"), 100);
}

#[test]
fn an_account_leaves_only_without_rewards() {
    let mut ledger = poll_with_voters(&[("ann", 500, 0), ("ben", 5, 1)]);
    ledger.deposit_reward(0, 0, IncentiveType::Evenly, &id("ref"), 100).unwrap();
    expire(&mut ledger, 0);
    ledger.claim_reward(&id("ann"), 0).unwrap();
    assert_eq!(ledger.unregister_account(&id("ann")), Err(Error::StillHasReward));
    assert_eq!(ledger.unregister_account(&id("nobody")), Err(Error::AccNotRegistered));
    assert_eq!(ledger.account_count, 2);
    ledger.withdraw_reward(&id("ann"), &id("ref"), None).unwrap();
    assert_eq!(ledger.unregister_account(&id("ann")), Ok(()));
    assert_eq!(ledger.account_count, 1);
    assert!(ledger.internal_get_account(&id("ann")).is_none());
    assert!(ledger.internal_get_account(&id("ben")).is_some());
}
