use voting_contract::TransferIntent;
use voting_contract::VoteRecord;
use voting_contract::VotingContract;
use voting_contract::VotingError;
use voting_contract::VotingOption;

const ADMIN: u64 = 1000;
const VOTER1: u64 = 2001;
const VOTER2: u64 = 2002;
const RECIPIENT1: u64 = 3001;
const RECIPIENT2: u64 = 3002;
const TOKEN: u64 = 4000;

fn opt(id: u32, name: &str, recipient: u64) -> VotingOption {
    VotingOption {
        id,
        name: String::from(name),
        recipient,
        vote_count: 0,
        total_funds: 0,
    }
}

fn two_option_contract() -> VotingContract {
    let mut c = VotingContract::new();
    let options = vec![
        opt(1, "Option A", RECIPIENT1),
        opt(2, "Option B", RECIPIENT2),
    ];
    assert_eq!(c.initialize(ADMIN, options), Ok(()));
    c
}

#[test]
fn test_voting_contract() {
    let mut c = VotingContract::new();
    let options = vec![
        opt(1, "Option A", RECIPIENT1),
        opt(2, "Option B", RECIPIENT2),
    ];
    c.initialize(ADMIN, options).unwrap();

    assert!(c.is_active());
    assert_eq!(c.get_total_votes(), 0);

    assert!(!c.has_voted(VOTER1));

    let results = c.get_all_results();
    assert_eq!(results.len(), 2);
}

#[test]
fn initialize_seeds_zeroed_options() {
    let c = two_option_contract();
    assert!(c.is_active());
    assert_eq!(c.get_total_votes(), 0);
    for id in [1u32, 2u32] {
        let o = c.get_option_results(id).unwrap();
        assert_eq!(o.id, id);
        assert_eq!(o.vote_count, 0);
        assert_eq!(o.total_funds, 0);
    }
    assert_eq!(c.get_option_results(1).unwrap().name, "Option A");
    assert_eq!(c.get_option_results(2).unwrap().recipient, RECIPIENT2);
}

#[test]
fn initialize_twice_fails_and_changes_nothing() {
    let mut c = two_option_contract();
    let r = c.initialize(ADMIN, vec![opt(9, "Late", RECIPIENT1)]);
    assert_eq!(r, Err(VotingError::AlreadyInitialized));
    let r2 = c.initialize(999, vec![]);
    assert_eq!(r2, Err(VotingError::AlreadyInitialized));
    assert!(c.is_active());
    assert_eq!(c.get_all_results().len(), 2);
    assert!(c.get_option_results(9).is_none());
}

#[test]
fn initialize_duplicate_id_overwrites_earlier_entry() {
    let mut c = VotingContract::new();
    let options = vec![
        opt(1, "First", RECIPIENT1),
        opt(1, "Second", RECIPIENT2),
    ];
    assert_eq!(c.initialize(ADMIN, options), Ok(()));
    let results = c.get_all_results();
    assert_eq!(results.len(), 1);
    assert_eq!(results[0].name, "Second");
    assert_eq!(results[0].recipient, RECIPIENT2);
}

#[test]
fn vote_while_paused_fails_without_mutation() {
    let mut c = two_option_contract();
    assert_eq!(c.toggle_voting(ADMIN), Ok(false));
    let r = c.vote(VOTER1, 1, 100, TOKEN, 5);
    assert_eq!(r, Err(VotingError::VotingInactive));
    assert_eq!(c.get_total_votes(), 0);
    assert!(!c.has_voted(VOTER1));
    assert_eq!(c.get_option_results(1).unwrap().vote_count, 0);
}

#[test]
fn vote_before_initialize_fails_inactive() {
    let mut c = VotingContract::new();
    let r = c.vote(VOTER1, 1, 100, TOKEN, 5);
    assert_eq!(r, Err(VotingError::VotingInactive));
}

#[test]
fn second_vote_by_same_voter_fails() {
    let mut c = two_option_contract();
    assert!(c.vote(VOTER1, 1, 100, TOKEN, 5).is_ok());
    let r = c.vote(VOTER1, 2, 50, TOKEN, 6);
    assert_eq!(r, Err(VotingError::AlreadyVoted));
    assert_eq!(c.get_total_votes(), 1);
    assert_eq!(c.get_user_vote(VOTER1), Some(1));
    assert_eq!(c.get_option_results(2).unwrap().vote_count, 0);
    assert_eq!(c.get_option_results(1).unwrap().vote_count, 1);
}

#[test]
fn vote_with_bad_amount_or_option_fails_without_mutation() {
    let mut c = two_option_contract();
    assert_eq!(c.vote(VOTER1, 1, 0, TOKEN, 5), Err(VotingError::InvalidAmount));
    assert_eq!(c.vote(VOTER1, 1, -7, TOKEN, 5), Err(VotingError::InvalidAmount));
    assert_eq!(c.vote(VOTER1, 42, 100, TOKEN, 5), Err(VotingError::InvalidOption));
    assert_eq!(c.get_total_votes(), 0);
    assert!(!c.has_voted(VOTER1));
    assert_eq!(c.get_option_results(1).unwrap().total_funds, 0);
}

#[test]
fn successful_vote_updates_everything() {
    let mut c = two_option_contract();
    let before = c.get_total_votes();
    let intent = c.vote(VOTER1, 1, 100, TOKEN, 77).unwrap();
    assert_eq!(
        intent,
        TransferIntent { token: TOKEN, from: VOTER1, to: RECIPIENT1, amount: 100 }
    );
    assert_eq!(c.get_user_vote(VOTER1), Some(1));
    assert!(c.has_voted(VOTER1));
    assert_eq!(c.get_total_votes(), before + 1);
    let o = c.get_option_results(1).unwrap();
    assert_eq!(o.vote_count, 1);
    assert_eq!(o.total_funds, 100);
    assert_eq!(
        c.get_vote_record(before),
        Some(VoteRecord { voter: VOTER1, option_id: 1, amount: 100, timestamp: 77 })
    );
}

#[test]
fn vote_record_unknown_index_is_absent() {
    let c = two_option_contract();
    assert_eq!(c.get_vote_record(0), None);
    assert_eq!(c.get_vote_record(7), None);
}

#[test]
fn toggle_voting_is_admin_gated() {
    let mut c = two_option_contract();
    assert_eq!(c.toggle_voting(VOTER1), Err(VotingError::Unauthorized));
    assert!(c.is_active());
    assert_eq!(c.toggle_voting(ADMIN), Ok(false));
    assert!(!c.is_active());
    assert_eq!(c.toggle_voting(ADMIN), Ok(true));
    assert!(c.is_active());
}

#[test]
fn toggle_voting_before_initialize_fails() {
    let mut c = VotingContract::new();
    assert_eq!(c.toggle_voting(ADMIN), Err(VotingError::NotInitialized));
    assert!(!c.is_active());
}

#[test]
fn add_option_is_admin_gated_and_rejects_known_ids() {
    let mut c = two_option_contract();
    assert_eq!(
        c.add_option(VOTER1, opt(3, "Option C", RECIPIENT1)),
        Err(VotingError::Unauthorized)
    );
    assert!(c.get_option_results(3).is_none());
    assert_eq!(c.add_option(ADMIN, opt(3, "Option C", RECIPIENT1)), Ok(()));
    let o = c.get_option_results(3).unwrap();
    assert_eq!(o.name, "Option C");
    assert_eq!(o.vote_count, 0);
    assert_eq!(o.total_funds, 0);
    assert_eq!(
        c.add_option(ADMIN, opt(3, "Again", RECIPIENT2)),
        Err(VotingError::OptionAlreadyExists)
    );
    assert_eq!(c.get_option_results(3).unwrap().name, "Option C");
    assert_eq!(c.get_all_results().len(), 3);
}

#[test]
fn add_option_before_initialize_fails() {
    let mut c = VotingContract::new();
    assert_eq!(
        c.add_option(ADMIN, opt(1, "Early", RECIPIENT1)),
        Err(VotingError::NotInitialized)
    );
    assert!(c.get_option_results(1).is_none());
}

#[test]
fn end_to_end_two_voters() {
    let mut c = two_option_contract();

    let intent1 = c.vote(VOTER1, 1, 100, TOKEN, 10).unwrap();
    assert_eq!(intent1.to, RECIPIENT1);
    let o1 = c.get_option_results(1).unwrap();
    assert_eq!(o1.vote_count, 1);
    assert_eq!(o1.total_funds, 100);

    assert_eq!(c.vote(VOTER1, 1, 25, TOKEN, 11), Err(VotingError::AlreadyVoted));

    let intent2 = c.vote(VOTER2, 2, 50, TOKEN, 12).unwrap();
    assert_eq!(intent2.to, RECIPIENT2);
    assert_eq!(c.get_total_votes(), 2);
    let o2 = c.get_option_results(2).unwrap();
    assert_eq!(o2.vote_count, 1);
    assert_eq!(o2.total_funds, 50);

    assert_eq!(c.get_user_vote(VOTER1), Some(1));
    assert_eq!(c.get_user_vote(VOTER2), Some(2));
    assert_eq!(c.get_user_vote(ADMIN), None);
    assert_eq!(
        c.get_vote_record(1),
        Some(VoteRecord { voter: VOTER2, option_id: 2, amount: 50, timestamp: 12 })
    );
}

#[test]
fn results_keep_registry_order() {
    let mut c = two_option_contract();
    assert_eq!(c.add_option(ADMIN, opt(7, "Option G", RECIPIENT1)), Ok(()));
    let results = c.get_all_results();
    assert_eq!(results.len(), 3);
    assert_eq!(results[0].id, 1);
    assert_eq!(results[1].id, 2);
    assert_eq!(results[2].id, 7);
}
