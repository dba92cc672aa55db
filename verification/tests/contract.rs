use ref_ve::account::{Account, Config};
use ref_ve::contract::Contract;
use ref_ve::errors::Error;
use ref_ve::proposals::{Proposal, ProposalKind};
use ref_ve::proposals_action::Action;

fn fresh() -> Contract {
    Contract::new(Config::new(15000, 60).unwrap())
}

fn who(text: &str) -> String {
    String::from(text)
}

#[test]
fn a_new_ledger_holds_nothing() {
    let ledger = fresh();
    assert_eq!(ledger.account_count, 0);
    assert_eq!(ledger.cur_lock_lpt, 0);
    assert_eq!(ledger.cur_total_ve_lpt, 0);
    assert!(ledger.accounts.is_empty());
    assert!(ledger.proposals.is_empty());
    assert_eq!(ledger.config, Config { max_locking_multiplier: 15000, max_locking_duration_sec: 60 });
}

#[test]
fn an_account_is_read_as_it_was_set() {
    let mut ledger = fresh();
    assert!(ledger.internal_get_account(&who("ann")).is_none());
    assert!(matches!(ledger.internal_unwrap_account(&who("ann")), Err(Error::AccNotRegistered)));
    let mut account = Account::new();
    account.lpt_amount = 5;
    account.ve_lpt_amount = 6;
    account.unlock_timestamp = 7;
    account.duration_sec = 8;
    account.proposals.insert(3, Action::VoteApprove);
    account.rewards.insert(who("ref"), 9);
    ledger.internal_set_account(&who("ann"), account);
    let read = ledger.internal_unwrap_account(&who("ann")).unwrap();
    assert_eq!(read.lpt_amount, 5);
    assert_eq!(read.ve_lpt_amount, 6);
    assert_eq!(read.unlock_timestamp, 7);
    assert_eq!(read.duration_sec, 8);
    assert_eq!(read.proposals.get(&3), Some(&Action::VoteApprove));
    assert_eq!(read.rewards.get(&who("ref")), Some(&9));
    assert!(ledger.internal_get_account(&who("ann")).is_some());
    assert!(ledger.internal_get_account(&who("an")).is_none());
    assert_eq!(ledger.account_count, 0);
}

#[test]
fn a_missing_account_is_counted_when_it_is_made() {
    let mut ledger = fresh();
    let made = ledger.internal_unwrap_or_default_account(&who("ann")).unwrap();
    assert_eq!(made.lpt_amount, 0);
    assert!(made.proposals.is_empty());
    assert_eq!(ledger.account_count, 1);
    assert!(ledger.internal_get_account(&who("ann")).is_none());
    let mut kept = Account::new();
    kept.lpt_amount = 4;
    ledger.internal_set_account(&who("ann"), kept);
    let read = ledger.internal_unwrap_or_default_account(&who("ann")).unwrap();
    assert_eq!(read.lpt_amount, 4);
    assert_eq!(ledger.account_count, 1);
    ledger.account_count = u64::MAX;
    assert!(matches!(
        ledger.internal_unwrap_or_default_account(&who("ben")),
        Err(Error::Overflow)
    ));
    assert_eq!(ledger.account_count, u64::MAX);
}

#[test]
fn a_removed_account_is_gone_and_counted_out() {
    let mut ledger = fresh();
    ledger.internal_unwrap_or_default_account(&who("ann")).unwrap();
    ledger.internal_set_account(&who("ann"), Account::new());
    assert_eq!(ledger.internal_remove_account(&who("ann")), Ok(()));
    assert_eq!(ledger.account_count, 0);
    assert!(ledger.internal_get_account(&who("ann")).is_none());
    assert_eq!(ledger.internal_remove_account(&who("ann")), Err(Error::Overflow));
    assert_eq!(ledger.account_count, 0);
}

#[test]
fn a_proposal_is_read_as_it_was_set() {
    let mut ledger = fresh();
    assert!(matches!(ledger.internal_unwrap_proposal(2), Err(Error::ProposalNotExist)));
    let mut proposal = Proposal::new(ProposalKind::FarmingReward, 2);
    proposal.votes = vec![3, 4];
    ledger.internal_set_proposal(2, proposal);
    let read = ledger.internal_unwrap_proposal(2).unwrap();
    assert_eq!(read.votes, vec![3, 4]);
    assert_eq!(read.kind, ProposalKind::FarmingReward);
    assert!(matches!(ledger.internal_unwrap_proposal(1), Err(Error::ProposalNotExist)));
}

#[test]
fn a_proposal_counts_its_voters_by_option() {
    let mut proposal = Proposal::new(ProposalKind::Poll, 2);
    assert_eq!(proposal.add_participant(&Action::VotePoll { poll_id: 1 }), Ok(()));
    assert_eq!(proposal.add_participant(&Action::VotePoll { poll_id: 1 }), Ok(()));
    assert_eq!(proposal.add_participant(&Action::VotePoll { poll_id: 0 }), Ok(()));
    assert_eq!(proposal.option_participants, vec![1, 2]);
    assert_eq!(proposal.participants, 3);
    assert_eq!(proposal.remove_participant(&Action::VotePoll { poll_id: 0 }), Ok(()));
    assert_eq!(proposal.remove_participant(&Action::VotePoll { poll_id: 0 }), Err(Error::Overflow));
    assert_eq!(proposal.add_participant(&Action::VotePoll { poll_id: 2 }), Err(Error::InvalidVote));
    assert_eq!(proposal.remove_participant(&Action::VoteApprove), Err(Error::InvalidVote));
    assert_eq!(proposal.option_participants, vec![0, 2]);
    assert_eq!(proposal.participants, 2);
}
