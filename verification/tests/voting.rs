use ref_ve::account::{Account, Config};
use ref_ve::contract::Contract;
use ref_ve::errors::Error;
use ref_ve::math::to_nano;
use ref_ve::proposals::{IncentiveType, Proposal, ProposalKind, ProposalStatus};
use ref_ve::proposals_action::{Action, Vote};

const LONGEST: u32 = 1000;
const OPENED: u64 = 50_000;

fn name(text: &str) -> String {
    String::from(text)
}

fn ledger_with(voters: &[(&str, u128)]) -> Contract {
    let mut ledger = Contract::new(Config::new(20000, LONGEST).unwrap());
    for (voter, amount) in voters {
        ledger.lock_lpt(&name(voter), *amount, LONGEST, OPENED).unwrap();
    }
    ledger
}

fn open_proposal(ledger: &mut Contract, id: u32, kind: ProposalKind, options: usize) {
    let mut proposal = Proposal::new(kind, options);
    proposal.status = Some(ProposalStatus::InProgress);
    ledger.internal_set_proposal(id, proposal);
}

fn close_proposal(ledger: &mut Contract, id: u32) {
    let mut proposal = ledger.internal_unwrap_proposal(id).unwrap();
    proposal.status = Some(ProposalStatus::Expired);
    ledger.internal_set_proposal(id, proposal);
}

#[test]
fn an_action_names_its_farm_or_poll_option() {
    assert_eq!(Action::VoteFarm { farm_id: 7 }.get_farm_id(), Ok(7));
    assert_eq!(Action::VotePoll { poll_id: 7 }.get_farm_id(), Err(Error::InvalidVote));
    assert_eq!(Action::VoteApprove.get_farm_id(), Err(Error::InvalidVote));
    assert_eq!(Action::VotePoll { poll_id: 3 }.get_poll_id(), Ok(3));
    assert_eq!(Action::VoteFarm { farm_id: 3 }.get_poll_id(), Err(Error::InvalidVote));
    assert_eq!(Action::VoteNonsense.get_poll_id(), Err(Error::InvalidVote));
}

#[test]
fn a_plain_action_is_a_vote_with_a_slot() {
    assert_eq!(Vote::from_action(&Action::VoteApprove), Ok(Vote::Approve));
    assert_eq!(Vote::from_action(&Action::VoteReject), Ok(Vote::Reject));
    assert_eq!(Vote::from_action(&Action::VoteNonsense), Ok(Vote::Nonsense));
    assert_eq!(Vote::from_action(&Action::VoteFarm { farm_id: 0 }), Err(Error::InvalidVote));
    assert_eq!(Vote::from_action(&Action::VotePoll { poll_id: 0 }), Err(Error::InvalidVote));
    assert_eq!(Vote::Approve.index(), 0);
    assert_eq!(Vote::Reject.index(), 1);
    assert_eq!(Vote::Nonsense.index(), 2);
}

#[test]
fn a_new_proposal_has_a_slot_for_each_option() {
    let poll = Proposal::new(ProposalKind::Poll, 3);
    assert_eq!(poll.votes, vec![0, 0, 0]);
    assert_eq!(poll.option_participants, vec![0, 0, 0]);
    assert_eq!(poll.participants, 0);
    assert_eq!(poll.status, None);
    assert!(poll.incentive.is_empty());
    let common = Proposal::new(ProposalKind::Common, 0);
    assert_eq!(common.votes, vec![0, 0, 0, 0]);
    assert_eq!(common.kind, ProposalKind::Common);
    assert_eq!(Proposal::new(ProposalKind::FarmingReward, 0).votes, Vec::<u128>::new());
}

#[test]
fn the_slot_of_an_action_follows_the_kind() {
    let farms = Proposal::new(ProposalKind::FarmingReward, 2);
    assert_eq!(farms.slot_of(&Action::VoteFarm { farm_id: 1 }), Ok(1));
    assert_eq!(farms.slot_of(&Action::VoteFarm { farm_id: 2 }), Err(Error::InvalidVote));
    assert_eq!(farms.slot_of(&Action::VotePoll { poll_id: 1 }), Err(Error::InvalidVote));
    assert_eq!(farms.slot_of(&Action::VoteApprove), Err(Error::InvalidVote));
    let poll = Proposal::new(ProposalKind::Poll, 2);
    assert_eq!(poll.slot_of(&Action::VotePoll { poll_id: 0 }), Ok(0));
    assert_eq!(poll.slot_of(&Action::VotePoll { poll_id: 2 }), Err(Error::InvalidVote));
    assert_eq!(poll.slot_of(&Action::VoteFarm { farm_id: 0 }), Err(Error::InvalidVote));
    let common = Proposal::new(ProposalKind::Common, 0);
    assert_eq!(common.slot_of(&Action::VoteApprove), Ok(0));
    assert_eq!(common.slot_of(&Action::VoteReject), Ok(1));
    assert_eq!(common.slot_of(&Action::VoteNonsense), Ok(2));
    assert_eq!(common.slot_of(&Action::VotePoll { poll_id: 0 }), Err(Error::InvalidVote));
    assert_eq!(common.slot_of(&Action::VoteFarm { farm_id: 0 }), Err(Error::InvalidVote));
}

#[test]
fn update_votes_moves_one_slot() {
    let mut farms = Proposal::new(ProposalKind::FarmingReward, 3);
    assert_eq!(farms.update_votes(&Action::VoteFarm { farm_id: 2 }, 70, 999, true), Ok(()));
    assert_eq!(farms.update_votes(&Action::VoteFarm { farm_id: 0 }, 5, 999, true), Ok(()));
    assert_eq!(farms.update_votes(&Action::VoteFarm { farm_id: 2 }, 30, 999, false), Ok(()));
    assert_eq!(farms.votes, vec![5, 0, 40]);
    assert_eq!(farms.participants, 0);
    let mut poll = Proposal::new(ProposalKind::Poll, 2);
    assert_eq!(poll.update_votes(&Action::VotePoll { poll_id: 1 }, 11, 999, true), Ok(()));
    assert_eq!(poll.votes, vec![0, 11]);
}

#[test]
fn update_votes_of_a_common_proposal_records_the_total() {
    let mut common = Proposal::new(ProposalKind::Common, 0);
    assert_eq!(common.update_votes(&Action::VoteApprove, 10, 500, true), Ok(()));
    assert_eq!(common.votes, vec![10, 0, 0, 500]);
    assert_eq!(common.update_votes(&Action::VoteReject, 20, 600, true), Ok(()));
    assert_eq!(common.votes, vec![10, 20, 0, 600]);
    assert_eq!(common.update_votes(&Action::VoteNonsense, 1, 650, true), Ok(()));
    assert_eq!(common.votes, vec![10, 20, 1, 650]);
    assert_eq!(common.update_votes(&Action::VoteApprove, 4, 300, false), Ok(()));
    assert_eq!(common.votes, vec![6, 20, 1, 300]);
}

#[test]
fn update_votes_refuses_what_does_not_fit() {
    let mut farms = Proposal::new(ProposalKind::FarmingReward, 3);
    assert_eq!(
        farms.update_votes(&Action::VoteFarm { farm_id: 3 }, 1, 0, true),
        Err(Error::InvalidVote)
    );
    assert_eq!(
        farms.update_votes(&Action::VotePoll { poll_id: 0 }, 1, 0, true),
        Err(Error::InvalidVote)
    );
    assert_eq!(
        farms.update_votes(&Action::VoteFarm { farm_id: 0 }, 1, 0, false),
        Err(Error::Overflow)
    );
    let mut common = Proposal::new(ProposalKind::Common, 0);
    assert_eq!(
        common.update_votes(&Action::VoteFarm { farm_id: 0 }, 1, 9, true),
        Err(Error::InvalidVote)
    );
    assert_eq!(farms.votes, vec![0, 0, 0]);
    assert_eq!(common.votes, vec![0, 0, 0, 0]);
    farms.update_votes(&Action::VoteFarm { farm_id: 0 }, u128::MAX, 0, true).unwrap();
    assert_eq!(
        farms.update_votes(&Action::VoteFarm { farm_id: 0 }, 1, 0, true),
        Err(Error::Overflow)
    );
}

#[test]
fn a_vote_is_cast_with_the_whole_weight() {
    let mut ledger = ledger_with(&[("ann", 100), ("ben", 30)]);
    open_proposal(&mut ledger, 4, ProposalKind::Common, 0);
    assert_eq!(ledger.action_proposal(&name("ann"), 4, &Action::VoteApprove), Ok(200));
    assert_eq!(ledger.action_proposal(&name("ben"), 4, &Action::VoteReject), Ok(60));
    let proposal = ledger.internal_unwrap_proposal(4).unwrap();
    assert_eq!(proposal.votes, vec![200, 60, 0, 260]);
    assert_eq!(proposal.option_participants, vec![1, 1, 0, 0]);
    assert_eq!(proposal.participants, 2);
    let ann = ledger.internal_unwrap_account(&name("ann")).unwrap();
    assert_eq!(ann.proposals.get(&4), Some(&Action::VoteApprove));
    assert_eq!(ann.open_votes(), vec![4]);
}

#[test]
fn an_account_holds_one_vote_on_a_proposal() {
    let mut ledger = ledger_with(&[("ann", 100)]);
    open_proposal(&mut ledger, 1, ProposalKind::Poll, 2);
    ledger.action_proposal(&name("ann"), 1, &Action::VotePoll { poll_id: 0 }).unwrap();
    assert_eq!(
        ledger.action_proposal(&name("ann"), 1, &Action::VotePoll { poll_id: 1 }),
        Err(Error::AlreadyVoted)
    );
    assert_eq!(
        ledger.action_proposal(&name("ann"), 1, &Action::VotePoll { poll_id: 0 }),
        Err(Error::AlreadyVoted)
    );
    let ann = ledger.internal_unwrap_account(&name("ann")).unwrap();
    assert_eq!(ann.open_votes(), vec![1]);
    assert_eq!(ann.proposals.len(), 1);
    let proposal = ledger.internal_unwrap_proposal(1).unwrap();
    assert_eq!(proposal.votes, vec![200, 0]);
    assert_eq!(proposal.participants, 1);
}

#[test]
fn a_vote_needs_an_account_with_weight() {
    let mut ledger = ledger_with(&[("ann", 100)]);
    open_proposal(&mut ledger, 1, ProposalKind::Poll, 2);
    ledger.internal_set_account(&name("idle"), Account::new());
    assert_eq!(
        ledger.action_proposal(&name("nobody"), 1, &Action::VotePoll { poll_id: 0 }),
        Err(Error::AccNotRegistered)
    );
    assert_eq!(
        ledger.action_proposal(&name("idle"), 1, &Action::VotePoll { poll_id: 0 }),
        Err(Error::InsufficientVeLpt)
    );
    assert_eq!(ledger.internal_unwrap_proposal(1).unwrap().participants, 0);
}

#[test]
fn a_vote_needs_a_proposal_in_progress() {
    let mut ledger = ledger_with(&[("ann", 100)]);
    assert_eq!(
        ledger.action_proposal(&name("ann"), 9, &Action::VoteApprove),
        Err(Error::ProposalNotExist)
    );
    let mut warm = Proposal::new(ProposalKind::Common, 0);
    warm.status = Some(ProposalStatus::WarmUp);
    ledger.internal_set_proposal(1, warm);
    ledger.internal_set_proposal(2, Proposal::new(ProposalKind::Common, 0));
    open_proposal(&mut ledger, 3, ProposalKind::Common, 0);
    close_proposal(&mut ledger, 3);
    assert_eq!(ledger.action_proposal(&name("ann"), 1, &Action::VoteApprove), Err(Error::NotVotable));
    assert_eq!(ledger.action_proposal(&name("ann"), 2, &Action::VoteApprove), Err(Error::NotVotable));
    assert_eq!(ledger.action_proposal(&name("ann"), 3, &Action::VoteApprove), Err(Error::NotVotable));
    assert!(ledger.internal_unwrap_account(&name("ann")).unwrap().proposals.is_empty());
    assert_eq!(ledger.internal_unwrap_proposal(3).unwrap().votes, vec![0, 0, 0, 0]);
}

#[test]
fn a_vote_must_fit_the_proposal() {
    let mut ledger = ledger_with(&[("ann", 100)]);
    open_proposal(&mut ledger, 1, ProposalKind::Poll, 2);
    open_proposal(&mut ledger, 2, ProposalKind::FarmingReward, 2);
    open_proposal(&mut ledger, 3, ProposalKind::Common, 0);
    let ann = name("ann");
    assert_eq!(
        ledger.action_proposal(&ann, 1, &Action::VoteFarm { farm_id: 0 }),
        Err(Error::InvalidVote)
    );
    assert_eq!(
        ledger.action_proposal(&ann, 1, &Action::VotePoll { poll_id: 2 }),
        Err(Error::InvalidVote)
    );
    assert_eq!(ledger.action_proposal(&ann, 1, &Action::VoteApprove), Err(Error::InvalidVote));
    assert_eq!(
        ledger.action_proposal(&ann, 2, &Action::VotePoll { poll_id: 0 }),
        Err(Error::InvalidVote)
    );
    assert_eq!(
        ledger.action_proposal(&ann, 3, &Action::VotePoll { poll_id: 0 }),
        Err(Error::InvalidVote)
    );
    assert_eq!(ledger.action_proposal(&ann, 3, &Action::VoteNonsense), Err(Error::InvalidVote));
    assert!(ledger.internal_unwrap_account(&ann).unwrap().proposals.is_empty());
    assert_eq!(ledger.internal_unwrap_proposal(3).unwrap().votes, vec![0, 0, 0, 0]);
    assert_eq!(ledger.internal_unwrap_proposal(3).unwrap().participants, 0);
}

#[test]
fn a_cancelled_vote_leaves_the_tally() {
    let mut ledger = ledger_with(&[("ann", 100), ("ben", 30)]);
    open_proposal(&mut ledger, 1, ProposalKind::Poll, 2);
    ledger.action_proposal(&name("ann"), 1, &Action::VotePoll { poll_id: 1 }).unwrap();
    ledger.action_proposal(&name("ben"), 1, &Action::VotePoll { poll_id: 1 }).unwrap();
    assert_eq!(ledger.action_cancel(&name("ann"), 1), Ok(200));
    let proposal = ledger.internal_unwrap_proposal(1).unwrap();
    assert_eq!(proposal.votes, vec![0, 60]);
    assert_eq!(proposal.option_participants, vec![0, 1]);
    assert_eq!(proposal.participants, 1);
    assert!(ledger.internal_unwrap_account(&name("ann")).unwrap().proposals.is_empty());
    assert_eq!(ledger.action_cancel(&name("ann"), 1), Err(Error::NoVoted));
    assert_eq!(
        ledger.action_proposal(&name("ann"), 1, &Action::VotePoll { poll_id: 0 }),
        Ok(200)
    );
    assert_eq!(ledger.internal_unwrap_proposal(1).unwrap().votes, vec![200, 60]);
}

#[test]
fn a_vote_cannot_be_cancelled_after_the_proposal_expired() {
    let mut ledger = ledger_with(&[("ann", 100)]);
    open_proposal(&mut ledger, 1, ProposalKind::Poll, 2);
    ledger.action_proposal(&name("ann"), 1, &Action::VotePoll { poll_id: 1 }).unwrap();
    close_proposal(&mut ledger, 1);
    assert_eq!(ledger.action_cancel(&name("ann"), 1), Err(Error::VoteCanNotCancel));
    assert_eq!(ledger.action_cancel(&name("nobody"), 1), Err(Error::AccNotRegistered));
    let ann = ledger.internal_unwrap_account(&name("ann")).unwrap();
    assert_eq!(ann.proposals.get(&1), Some(&Action::VotePoll { poll_id: 1 }));
    let proposal = ledger.internal_unwrap_proposal(1).unwrap();
    assert_eq!(proposal.votes, vec![0, 200]);
    assert_eq!(proposal.participants, 1);
}

#[test]
fn casting_a_vote_settles_the_votes_on_expired_proposals() {
    let mut ledger = ledger_with(&[("ann", 100)]);
    let ann = name("ann");
    let token = name("token.near");
    open_proposal(&mut ledger, 1, ProposalKind::Poll, 2);
    open_proposal(&mut ledger, 2, ProposalKind::Poll, 2);
    ledger.action_proposal(&ann, 1, &Action::VotePoll { poll_id: 0 }).unwrap();
    ledger.deposit_reward(1, 0, IncentiveType::Proportion, &token, 90).unwrap();
    close_proposal(&mut ledger, 1);
    ledger.action_proposal(&ann, 2, &Action::VotePoll { poll_id: 1 }).unwrap();
    let account = ledger.internal_unwrap_account(&ann).unwrap();
    assert_eq!(account.open_votes(), vec![2]);
    assert_eq!(account.rewards.get(&token), Some(&90));
    let settled = ledger.internal_unwrap_proposal(1).unwrap();
    assert_eq!(settled.incentive.get(&0).unwrap().claimed_amount, 90);
    assert_eq!(settled.votes, vec![200, 0]);
    assert_eq!(settled.participants, 1);
}

#[test]
fn cancelling_a_vote_settles_the_votes_on_expired_proposals() {
    let mut ledger = ledger_with(&[("ann", 100)]);
    let ann = name("ann");
    let token = name("token.near");
    open_proposal(&mut ledger, 1, ProposalKind::Poll, 2);
    open_proposal(&mut ledger, 2, ProposalKind::Poll, 2);
    ledger.action_proposal(&ann, 1, &Action::VotePoll { poll_id: 0 }).unwrap();
    ledger.action_proposal(&ann, 2, &Action::VotePoll { poll_id: 0 }).unwrap();
    ledger.deposit_reward(1, 0, IncentiveType::Evenly, &token, 90).unwrap();
    close_proposal(&mut ledger, 1);
    assert_eq!(ledger.action_cancel(&ann, 2), Ok(200));
    let account = ledger.internal_unwrap_account(&ann).unwrap();
    assert!(account.proposals.is_empty());
    assert_eq!(account.rewards.get(&token), Some(&90));
    assert_eq!(ledger.internal_unwrap_proposal(2).unwrap().votes, vec![0, 0]);
}

#[test]
fn recording_and_tallying_a_vote_are_two_steps() {
    let mut ledger = ledger_with(&[("ann", 100)]);
    let ann = name("ann");
    open_proposal(&mut ledger, 1, ProposalKind::Poll, 2);
    assert_eq!(
        ledger.internal_account_vote(&ann, 1, &Action::VotePoll { poll_id: 0 }),
        Ok(200)
    );
    assert_eq!(ledger.internal_unwrap_proposal(1).unwrap().votes, vec![0, 0]);
    assert_eq!(
        ledger.internal_account_vote(&ann, 1, &Action::VotePoll { poll_id: 0 }),
        Err(Error::AlreadyVoted)
    );
    assert_eq!(ledger.internal_append_vote(1, &Action::VotePoll { poll_id: 0 }, 200), Ok(()));
    let tallied = ledger.internal_unwrap_proposal(1).unwrap();
    assert_eq!(tallied.votes, vec![200, 0]);
    assert_eq!(tallied.participants, 1);
    assert_eq!(
        ledger.internal_account_cancel_vote(&ann, 1),
        Ok((Action::VotePoll { poll_id: 0 }, 200))
    );
    assert_eq!(ledger.internal_account_cancel_vote(&ann, 1), Err(Error::NoVoted));
    assert_eq!(ledger.internal_cancel_vote(1, &Action::VotePoll { poll_id: 0 }, 200), Ok(()));
    let emptied = ledger.internal_unwrap_proposal(1).unwrap();
    assert_eq!(emptied.votes, vec![0, 0]);
    assert_eq!(emptied.participants, 0);
    assert_eq!(
        ledger.internal_append_vote(7, &Action::VotePoll { poll_id: 0 }, 1),
        Err(Error::ProposalNotExist)
    );
    assert_eq!(ledger.internal_append_vote(1, &Action::VoteNonsense, 1), Err(Error::InvalidVote));
    close_proposal(&mut ledger, 1);
    assert_eq!(
        ledger.internal_append_vote(1, &Action::VotePoll { poll_id: 0 }, 1),
        Err(Error::NotVotable)
    );
    assert_eq!(
        ledger.internal_cancel_vote(1, &Action::VotePoll { poll_id: 0 }, 0),
        Err(Error::VoteCanNotCancel)
    );
}

#[test]
fn a_vote_outlives_the_weight_behind_it() {
    let mut ledger = ledger_with(&[("ann", 100), ("ben", 30)]);
    let ann = name("ann");
    let token = name("token.near");
    open_proposal(&mut ledger, 1, ProposalKind::Poll, 2);
    ledger.action_proposal(&ann, 1, &Action::VotePoll { poll_id: 0 }).unwrap();
    ledger.action_proposal(&name("ben"), 1, &Action::VotePoll { poll_id: 0 }).unwrap();
    ledger.deposit_reward(1, 0, IncentiveType::Proportion, &token, 60).unwrap();
    let before = ledger.internal_unwrap_proposal(1).unwrap();
    assert_eq!(before.votes, vec![260, 0]);
    assert_eq!(before.participants, 2);

    let unlocked: u64 = OPENED + to_nano(LONGEST);
    assert_eq!(ledger.withdraw_lpt(&ann, 100, unlocked), Ok(200));
    let after = ledger.internal_unwrap_proposal(1).unwrap();
    assert_eq!(after.votes, vec![60, 0]);
    assert_eq!(after.option_participants, vec![1, 0]);
    assert_eq!(after.participants, 1);
    let account = ledger.internal_unwrap_account(&ann).unwrap();
    assert_eq!(account.ve_lpt_amount, 0);
    assert_eq!(account.proposals.get(&1), Some(&Action::VotePoll { poll_id: 0 }));

    close_proposal(&mut ledger, 1);
    assert_eq!(ledger.lock_lpt(&ann, 10, LONGEST, unlocked), Ok(20));
    let settled = ledger.internal_unwrap_account(&ann).unwrap();
    assert!(settled.proposals.is_empty());
    assert!(settled.rewards.is_empty());
    let closed = ledger.internal_unwrap_proposal(1).unwrap();
    assert_eq!(closed.votes, vec![60, 0]);
    assert_eq!(closed.participants, 1);
    assert_eq!(closed.incentive.get(&0).unwrap().claimed_amount, 0);
}

#[test]
fn a_change_of_weight_moves_the_open_votes() {
    let mut ledger = ledger_with(&[("ann", 100)]);
    let ann = name("ann");
    open_proposal(&mut ledger, 1, ProposalKind::Common, 0);
    open_proposal(&mut ledger, 2, ProposalKind::FarmingReward, 3);
    ledger.action_proposal(&ann, 1, &Action::VoteReject).unwrap();
    ledger.action_proposal(&ann, 2, &Action::VoteFarm { farm_id: 2 }).unwrap();
    assert_eq!(ledger.lock_lpt(&ann, 50, LONGEST, OPENED + 1), Ok(100));
    assert_eq!(ledger.internal_unwrap_proposal(1).unwrap().votes, vec![0, 300, 0, 300]);
    assert_eq!(ledger.internal_unwrap_proposal(2).unwrap().votes, vec![0, 0, 300]);
    let unlocked: u64 = OPENED + 1 + to_nano(LONGEST);
    assert_eq!(ledger.withdraw_lpt(&ann, 30, unlocked), Ok(60));
    assert_eq!(ledger.internal_unwrap_proposal(1).unwrap().votes, vec![0, 240, 0, 240]);
    assert_eq!(ledger.internal_unwrap_proposal(2).unwrap().votes, vec![0, 0, 240]);
    assert_eq!(ledger.internal_unwrap_proposal(1).unwrap().participants, 1);
    assert_eq!(ledger.internal_unwrap_proposal(2).unwrap().participants, 1);
    let account = ledger.internal_unwrap_account(&ann).unwrap();
    let mut open = account.open_votes();
    open.sort();
    assert_eq!(open, vec![1, 2]);
}
