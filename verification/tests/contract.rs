//! The leaderboard as a caller sees it: construction, reads, owner-only
//! writes and their events.

use leaderboard::account::AccountId;
use leaderboard::leaderboard::{Error, Leaderboard, SetAccountScore};

/// Returns a dummy AccountId for unit tests
fn test_get_dummy_account() -> AccountId {
    [0u8; 32].into()
}

fn test_get_owner() -> AccountId {
    [1u8; 32].into()
}

fn account(tag: u8) -> AccountId {
    let mut bytes = [0u8; 32];
    bytes[31] = tag;
    AccountId::from(bytes)
}

#[test]
fn get_score_of_account_works() {
    let leaderboard = Leaderboard::new(test_get_owner());
    assert_eq!(leaderboard.get_score_of_account(test_get_dummy_account()), 0);
}

#[test]
fn get_score_of_sender_works() {
    let leaderboard = Leaderboard::new(test_get_owner());
    assert_eq!(leaderboard.get_score_of_sender(test_get_owner()), 0);
}

#[test]
fn get_owner_works() {
    let leaderboard = Leaderboard::new(test_get_owner());
    assert_eq!(leaderboard.get_owner(), test_get_owner());
}

#[test]
fn set_score_of_sender_works() {
    let mut leaderboard = Leaderboard::new(test_get_owner());
    assert_eq!(
        leaderboard.set_score_of_sender(test_get_owner(), 1),
        Ok(SetAccountScore { of: test_get_owner(), score: 1 })
    );
    assert_eq!(leaderboard.get_score_of_sender(test_get_owner()), 1);
}

#[test]
fn set_score_of_account_is_ok_when_sender_equals_given_account_works() {
    let mut leaderboard = Leaderboard::new(test_get_owner());
    assert_eq!(leaderboard.get_owner(), test_get_owner());
    assert_eq!(
        leaderboard.set_score_of_account(test_get_owner(), test_get_owner(), 2),
        Ok(SetAccountScore { of: test_get_owner(), score: 2 })
    );
    assert_eq!(leaderboard.get_score_of_account(test_get_owner()), 2);
    assert_eq!(leaderboard.get_score_of_account(test_get_dummy_account()), 0);
}

#[test]
fn set_score_of_account_errors_when_sender_not_equal_given_account_works() {
    let mut leaderboard = Leaderboard::new(test_get_owner());
    assert_eq!(leaderboard.get_owner(), test_get_owner());
    assert_eq!(
        leaderboard
            .set_score_of_account(test_get_dummy_account(), test_get_dummy_account(), 2)
            .map(|_| ())
            .map_err(|e| e.message()),
        Err("Error: CallerIsNotOwner")
    );
    assert_eq!(leaderboard.get_score_of_account(test_get_dummy_account()), 0);
    assert_eq!(leaderboard.get_score_of_account(test_get_owner()), 0);
}

#[test]
fn new_leaderboard_reads_zero_for_every_account() {
    let leaderboard = Leaderboard::new(test_get_owner());
    for tag in 0..=255u8 {
        assert_eq!(leaderboard.get_score_of_account(account(tag)), 0);
        assert_eq!(leaderboard.get_score_of_account(AccountId::from([tag; 32])), 0);
    }
}

#[test]
fn new_leaderboard_registers_the_zero_account_only() {
    let leaderboard = Leaderboard::new(test_get_owner());
    assert_eq!(leaderboard.store().accounts(), vec![AccountId::zero()]);
    assert_eq!(leaderboard.get_score_of_account(AccountId::zero()), 0);
}

#[test]
fn owner_sets_score_of_another_account() {
    let owner = test_get_owner();
    let a = account(7);
    let dummy = account(9);
    let mut leaderboard = Leaderboard::new(owner);
    assert_eq!(leaderboard.get_score_of_account(owner), 0);
    assert_eq!(
        leaderboard.set_score_of_account(owner, a, 2),
        Ok(SetAccountScore { of: a, score: 2 })
    );
    assert_eq!(leaderboard.get_score_of_account(a), 2);
    assert_eq!(leaderboard.get_score_of_account(dummy), 0);
    assert_eq!(leaderboard.get_score_of_account(owner), 0);
}

#[test]
fn stranger_cannot_set_a_score() {
    let owner = test_get_owner();
    let dummy = account(9);
    let mut leaderboard = Leaderboard::new(owner);
    assert_eq!(leaderboard.set_score_of_account(dummy, dummy, 2), Err(Error::CallerIsNotOwner));
    assert_eq!(leaderboard.get_score_of_account(dummy), 0);
    assert_eq!(leaderboard.set_score_of_account(dummy, owner, 5), Err(Error::CallerIsNotOwner));
    assert_eq!(leaderboard.get_score_of_account(owner), 0);
    assert_eq!(leaderboard.set_score_of_sender(dummy, 3), Err(Error::CallerIsNotOwner));
    assert_eq!(leaderboard.get_score_of_sender(dummy), 0);
    assert_eq!(leaderboard.store().accounts(), vec![AccountId::zero()]);
    assert_eq!(leaderboard.get_owner(), owner);
}

#[test]
fn refused_write_keeps_earlier_scores() {
    let owner = test_get_owner();
    let a = account(1);
    let stranger = account(2);
    let mut leaderboard = Leaderboard::new(owner);
    assert!(leaderboard.set_score_of_account(owner, a, 10).is_ok());
    assert_eq!(leaderboard.set_score_of_account(stranger, a, 99), Err(Error::CallerIsNotOwner));
    assert_eq!(leaderboard.set_score_of_account(a, a, 98), Err(Error::CallerIsNotOwner));
    assert_eq!(leaderboard.get_score_of_account(a), 10);
    assert_eq!(leaderboard.store().accounts(), vec![AccountId::zero(), a]);
}

#[test]
fn later_write_replaces_earlier_one() {
    let owner = test_get_owner();
    let a = account(1);
    let b = account(2);
    let mut leaderboard = Leaderboard::new(owner);
    assert!(leaderboard.set_score_of_account(owner, a, 5).is_ok());
    assert!(leaderboard.set_score_of_account(owner, b, 6).is_ok());
    assert!(leaderboard.set_score_of_account(owner, a, 7).is_ok());
    assert!(leaderboard.set_score_of_account(owner, b, 0).is_ok());
    assert_eq!(leaderboard.get_score_of_account(a), 7);
    assert_eq!(leaderboard.get_score_of_account(b), 0);
}

#[test]
fn sender_score_is_replaced_not_summed() {
    let owner = test_get_owner();
    let mut leaderboard = Leaderboard::new(owner);
    assert_eq!(
        leaderboard.set_score_of_sender(owner, 1),
        Ok(SetAccountScore { of: owner, score: 1 })
    );
    assert_eq!(
        leaderboard.set_score_of_sender(owner, 1),
        Ok(SetAccountScore { of: owner, score: 1 })
    );
    assert_eq!(leaderboard.get_score_of_sender(owner), 1);

    let stranger = account(3);
    assert_eq!(leaderboard.set_score_of_sender(stranger, 1), Err(Error::CallerIsNotOwner));
    assert_eq!(leaderboard.set_score_of_sender(stranger, 1), Err(Error::CallerIsNotOwner));
    assert_eq!(leaderboard.get_score_of_sender(stranger), 0);
}

#[test]
fn owner_stays_the_same_after_writes() {
    let owner = account(42);
    let mut leaderboard = Leaderboard::new(owner);
    assert_eq!(leaderboard.get_owner(), owner);
    let _ = leaderboard.set_score_of_account(owner, account(1), 1);
    let _ = leaderboard.set_score_of_account(account(1), account(1), 2);
    let _ = leaderboard.set_score_of_sender(owner, 3);
    let _ = leaderboard.set_score_of_sender(account(5), 4);
    let _ = leaderboard.set_score_of_account(owner, owner, 5);
    assert_eq!(leaderboard.get_owner(), owner);
}

#[test]
fn event_names_the_written_account_and_score() {
    let owner = test_get_owner();
    let mut leaderboard = Leaderboard::new(owner);
    let event = leaderboard.set_score_of_account(owner, account(8), 1234).unwrap();
    assert_eq!(event.of, account(8));
    assert_eq!(event.score, 1234);
    let event = leaderboard.set_score_of_sender(owner, u32::MAX).unwrap();
    assert_eq!(event.of, owner);
    assert_eq!(event.score, u32::MAX);
    assert_eq!(leaderboard.get_score_of_sender(owner), u32::MAX);
}

#[test]
fn events_compare_by_account_and_score() {
    let a = SetAccountScore { of: account(1), score: 5 };
    assert_eq!(a, SetAccountScore { of: account(1), score: 5 });
    assert_ne!(a, SetAccountScore { of: account(2), score: 5 });
    assert_ne!(a, SetAccountScore { of: account(1), score: 6 });
}

#[test]
fn zero_account_can_own_and_be_written() {
    let owner = AccountId::zero();
    let mut leaderboard = Leaderboard::new(owner);
    assert_eq!(leaderboard.get_owner(), test_get_dummy_account());
    assert_eq!(
        leaderboard.set_score_of_sender(owner, 9),
        Ok(SetAccountScore { of: owner, score: 9 })
    );
    assert_eq!(leaderboard.get_score_of_account(AccountId::zero()), 9);
    assert_eq!(leaderboard.store().accounts(), vec![AccountId::zero()]);
}

#[test]
fn registry_keeps_order_of_first_write() {
    let owner = test_get_owner();
    let mut leaderboard = Leaderboard::new(owner);
    for (tag, score) in [(3u8, 30u32), (1, 10), (3, 31), (2, 20), (1, 11), (0, 5)] {
        assert!(leaderboard.set_score_of_account(owner, account(tag), score).is_ok());
    }
    assert_eq!(
        leaderboard.store().accounts(),
        vec![AccountId::zero(), account(3), account(1), account(2)]
    );
    assert_eq!(leaderboard.get_score_of_account(account(3)), 31);
    assert_eq!(leaderboard.get_score_of_account(account(1)), 11);
    assert_eq!(leaderboard.get_score_of_account(account(2)), 20);
    assert_eq!(leaderboard.get_score_of_account(account(0)), 5);
}

#[test]
fn error_message_names_the_error() {
    assert_eq!(Error::CallerIsNotOwner.message(), "Error: CallerIsNotOwner");
}

#[test]
fn leaderboard_is_rebuilt_from_its_parts() {
    let owner = test_get_owner();
    let mut leaderboard = Leaderboard::new(owner);
    assert!(leaderboard.set_score_of_account(owner, account(4), 44).is_ok());
    assert!(leaderboard.set_score_of_account(owner, account(5), 55).is_ok());

    let mut store = leaderboard::store::ScoreStore::new();
    for known in leaderboard.store().accounts() {
        store.upsert(known, leaderboard.get_score_of_account(known));
    }
    let mut rebuilt = Leaderboard::from_parts(leaderboard.get_owner(), store);
    assert_eq!(rebuilt.get_owner(), owner);
    assert_eq!(rebuilt.store().accounts(), leaderboard.store().accounts());
    assert_eq!(rebuilt.get_score_of_account(account(4)), 44);
    assert_eq!(rebuilt.get_score_of_account(account(5)), 55);
    assert_eq!(rebuilt.get_score_of_account(account(6)), 0);
    assert_eq!(rebuilt.set_score_of_sender(account(4), 1), Err(Error::CallerIsNotOwner));
    assert!(rebuilt.set_score_of_sender(owner, 1).is_ok());
}
