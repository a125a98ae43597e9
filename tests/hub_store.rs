use keyr::client::{revert, RevertError};
use keyr::counts::{KeystrokesStats, StoreError};
use keyr::hub::{HubStore, KeyrHubstorageError, MaybeUserId, Token, UserId};
use keyr::local::LocalStore;
use keyr::types::Summary;

const TEN: i64 = 1_599_998_400;
const ELEVEN: i64 = TEN + 3600;

fn hub_with(name: &str) -> (HubStore, MaybeUserId, Token) {
    let mut hub = HubStore::new();
    let u = hub.create_user(name.to_string()).unwrap();
    let t = hub.generate_token(u).unwrap();
    (hub, u, t)
}

#[test]
fn second_registration_of_a_name_fails() {
    let mut hub = HubStore::new();
    let first = hub.create_user("alice".to_string());
    let second = hub.create_user("alice".to_string());
    assert_eq!(first.unwrap(), MaybeUserId(1));
    match second {
        Err(KeyrHubstorageError::AlreadyUsedNickname(n)) => assert_eq!(n, "alice"),
        other => panic!("unexpected {:?}", other),
    }
    assert_eq!(hub.create_user("bob".to_string()).unwrap(), MaybeUserId(2));
}

#[test]
fn tokens_are_fresh_and_identify_their_user() {
    let (mut hub, u, t1) = hub_with("alice");
    let t2 = hub.generate_token(u).unwrap();
    assert_eq!(t1.0.len(), 32);
    assert!(t1.0.chars().all(|c| c.is_ascii_hexdigit()));
    assert_ne!(t1.0, t2.0);
    assert_eq!(hub.identify_user_by_token(&t1).unwrap(), u);
    assert_eq!(hub.identify_user_by_token(&t2).unwrap(), u);
    assert!(matches!(
        hub.identify_user_by_token(&Token("nope".to_string())),
        Err(KeyrHubstorageError::InvalidToken)
    ));
    assert!(matches!(hub.generate_token(MaybeUserId(9)), Err(KeyrHubstorageError::UnknownUser)));
}

#[test]
fn validate_and_find_by_name() {
    let (hub, u, _) = hub_with("alice");
    assert_eq!(u.validate(&hub).unwrap(), UserId(1));
    assert!(matches!(MaybeUserId(0).validate(&hub), Err(KeyrHubstorageError::UnknownUser)));
    assert!(matches!(MaybeUserId(2).validate(&hub), Err(KeyrHubstorageError::UnknownUser)));
    assert_eq!(hub.find_user_by_name(&"alice".to_string()).unwrap(), UserId(1));
    assert!(matches!(hub.find_user_by_name(&"eve".to_string()), Err(KeyrHubstorageError::UnknownUser)));
}

#[test]
fn deltas_merge_in_any_order() {
    let (mut a, u, _) = hub_with("alice");
    let (mut b, _, _) = hub_with("alice");
    let (mut c, _, _) = hub_with("alice");
    a.upsert_keystrokes_count(u, TEN + 5, 3).unwrap();
    a.upsert_keystrokes_count(u, TEN + 9, 4).unwrap();
    b.upsert_keystrokes_count(u, TEN + 9, 4).unwrap();
    b.upsert_keystrokes_count(u, TEN + 5, 3).unwrap();
    c.upsert_keystrokes_count(u, TEN, 7).unwrap();
    let id = UserId(1);
    assert_eq!(a.get_keystrokes_stats(id), vec![(TEN, 7)]);
    assert_eq!(b.get_keystrokes_stats(id), vec![(TEN, 7)]);
    assert_eq!(c.get_keystrokes_stats(id), vec![(TEN, 7)]);
}

#[test]
fn upsert_errors() {
    let (mut hub, u, _) = hub_with("alice");
    assert!(matches!(hub.upsert_keystrokes_count(MaybeUserId(5), TEN, 1), Err(KeyrHubstorageError::UnknownUser)));
    assert!(matches!(hub.upsert_keystrokes_count(u, i64::MIN, 1), Err(KeyrHubstorageError::InvalidTimestamp)));
    hub.upsert_keystrokes_count(u, TEN, u32::MAX).unwrap();
    assert!(matches!(hub.upsert_keystrokes_count(u, TEN, 1), Err(KeyrHubstorageError::CountOverflow)));
    hub.upsert_keystrokes_count(u, TEN, 0).unwrap();
    assert_eq!(hub.get_keystrokes_stats(UserId(1)), vec![(TEN, u32::MAX)]);
}

#[test]
fn frozen_user_rejects_writes_until_unfrozen() {
    let (mut hub, u, _) = hub_with("alice");
    hub.upsert_keystrokes_count(u, TEN, 2).unwrap();
    let export = hub.initiate_revert(u).unwrap();
    assert_eq!(export, vec![(TEN, 2)]);
    assert_eq!(hub.is_frozen(u).unwrap(), true);
    assert!(matches!(hub.upsert_keystrokes_count(u, TEN, 1), Err(KeyrHubstorageError::FrozenUser)));
    assert!(matches!(hub.upsert_keystrokes_count(u, TEN, 0), Err(KeyrHubstorageError::FrozenUser)));
    assert!(matches!(hub.commit(u, TEN, &vec![(TEN, 1)]), Err(KeyrHubstorageError::FrozenUser)));
    hub.cancel_revert(u).unwrap();
    assert_eq!(hub.is_frozen(u).unwrap(), false);
    hub.upsert_keystrokes_count(u, TEN, 1).unwrap();
    assert_eq!(hub.get_keystrokes_stats(UserId(1)), vec![(TEN, 3)]);
    hub.freeze_user(u).unwrap();
    assert!(matches!(hub.upsert_keystrokes_count(u, TEN, 1), Err(KeyrHubstorageError::FrozenUser)));
    hub.unfreeze_user(u).unwrap();
    hub.upsert_keystrokes_count(u, TEN, 1).unwrap();
}

#[test]
fn terminate_clears_the_ledger_and_unfreezes() {
    let (mut hub, u, _) = hub_with("alice");
    hub.upsert_keystrokes_count(u, TEN, 2).unwrap();
    hub.initiate_revert(u).unwrap();
    hub.terminate_revert(u).unwrap();
    assert_eq!(hub.is_frozen(u).unwrap(), false);
    assert!(hub.get_keystrokes_stats(UserId(1)).is_empty());
    let s = hub.get_summary(UserId(1), TEN);
    assert_eq!(s, Summary { oldest_timestamp: TEN, global_count: 0, today_timestamp: TEN, today_count: 0 });
    assert!(matches!(hub.terminate_revert(MaybeUserId(3)), Err(KeyrHubstorageError::UnknownUser)));
}

#[test]
fn commit_from_empty_ledger_example() {
    let (mut hub, u, _) = hub_with("alice");
    let mut local = LocalStore::new();
    local.upsert_hour_count(TEN, 5).unwrap();
    local.upsert_hour_count(ELEVEN, 3).unwrap();
    let r: Result<Summary, KeyrHubstorageError> =
        local.commit(TEN, |req| hub.commit(u, req.today, &req.staging_area));
    let expected = Summary { oldest_timestamp: TEN, global_count: 8, today_timestamp: TEN, today_count: 8 };
    assert_eq!(r.unwrap(), expected);
    assert!(local.staging_area().is_empty());
    assert_eq!(local.summary(), Some(expected));
    assert_eq!(local.get_global_count(), 8);
    assert_eq!(local.get_today_count(TEN), 8);
}

#[test]
fn commit_summary_counts_only_the_user_and_today() {
    let (mut hub, u, _) = hub_with("alice");
    let v = hub.create_user("bob".to_string()).unwrap();
    hub.upsert_keystrokes_count(v, TEN - 86_400, 1000).unwrap();
    hub.upsert_keystrokes_count(u, TEN - 86_400, 10).unwrap();
    let s = hub.commit(u, TEN, &vec![(TEN, 5), (ELEVEN, 3), (TEN + 60, 2)]).unwrap();
    assert_eq!(s, Summary { oldest_timestamp: TEN - 86_400, global_count: 20, today_timestamp: TEN, today_count: 10 });
    assert_eq!(hub.get_keystrokes_stats(UserId(1)), vec![(TEN - 86_400, 10), (TEN, 7), (ELEVEN, 3)]);
}

#[test]
fn commit_is_all_or_nothing() {
    let (mut hub, u, _) = hub_with("alice");
    hub.upsert_keystrokes_count(u, TEN, 1).unwrap();
    assert!(matches!(
        hub.commit(u, TEN, &vec![(ELEVEN, 4), (TEN, u32::MAX)]),
        Err(KeyrHubstorageError::CountOverflow)
    ));
    assert!(matches!(hub.commit(u, TEN, &vec![(ELEVEN, 4), (i64::MIN, 1)]), Err(KeyrHubstorageError::InvalidTimestamp)));
    assert!(matches!(hub.commit(MaybeUserId(4), TEN, &vec![]), Err(KeyrHubstorageError::UnknownUser)));
    assert_eq!(hub.get_keystrokes_stats(UserId(1)), vec![(TEN, 1)]);
}

#[test]
fn full_revert_moves_the_ledger_to_the_agent() {
    let (mut hub, u, _) = hub_with("alice");
    hub.upsert_keystrokes_count(u, TEN, 5).unwrap();
    hub.upsert_keystrokes_count(u, ELEVEN, 3).unwrap();
    let global_before = hub.get_summary(UserId(1), TEN).global_count;
    let mut local = LocalStore::new();
    let hub_cell = std::cell::RefCell::new(hub);
    let r: Result<(), RevertError<KeyrHubstorageError>> = revert(
        &mut local,
        || hub_cell.borrow_mut().initiate_revert(u),
        || hub_cell.borrow_mut().terminate_revert(u),
        || hub_cell.borrow_mut().cancel_revert(u),
    );
    assert!(r.is_ok());
    let hub = hub_cell.into_inner();
    assert_eq!(local.get_global_count(), global_before);
    assert_eq!(local.get_global_count(), 8);
    assert_eq!(local.staging_area(), vec![(TEN, 5), (ELEVEN, 3)]);
    assert!(hub.get_keystrokes_stats(UserId(1)).is_empty());
    assert_eq!(hub.is_frozen(u).unwrap(), false);
}

#[test]
fn failed_terminate_cancels_and_keeps_local_state() {
    let (mut hub, u, _) = hub_with("alice");
    hub.upsert_keystrokes_count(u, TEN, 5).unwrap();
    let mut local = LocalStore::new();
    local.upsert_hour_count(TEN, 1).unwrap();
    let hub_cell = std::cell::RefCell::new(hub);
    let r: Result<(), RevertError<&str>> = revert(
        &mut local,
        || Ok(hub_cell.borrow_mut().initiate_revert(u).unwrap()),
        || Err("timeout"),
        || {
            hub_cell.borrow_mut().cancel_revert(u).unwrap();
            Ok(())
        },
    );
    assert!(matches!(r, Err(RevertError::Terminate { error: "timeout", cancelled: true })));
    let hub = hub_cell.into_inner();
    assert_eq!(hub.is_frozen(u).unwrap(), false);
    assert_eq!(hub.get_keystrokes_stats(UserId(1)), vec![(TEN, 5)]);
    assert_eq!(local.staging_area(), vec![(TEN, 1)]);
}

#[test]
fn failed_initiate_and_replay_cancel() {
    let mut local = LocalStore::new();
    local.upsert_hour_count(TEN, u32::MAX).unwrap();
    let r: Result<(), RevertError<&str>> = revert(&mut local, || Err("down"), || Ok(()), || Err("down"));
    assert!(matches!(r, Err(RevertError::Initiate { error: "down", cancelled: false })));
    let export: KeystrokesStats = vec![(TEN, 1)];
    let r: Result<(), RevertError<&str>> = revert(&mut local, move || Ok(export), || Ok(()), || Ok(()));
    assert!(matches!(r, Err(RevertError::Replay { error: StoreError::CountOverflow, cancelled: true })));
    assert_eq!(local.staging_area(), vec![(TEN, u32::MAX)]);
}

#[test]
fn staging_order_does_not_reach_the_hub() {
    let mut first = LocalStore::new();
    first.upsert_hour_count(TEN + 10, 3).unwrap();
    first.upsert_hour_count(TEN + 20, 4).unwrap();
    let mut second = LocalStore::new();
    second.upsert_hour_count(TEN + 20, 4).unwrap();
    second.upsert_hour_count(TEN + 10, 3).unwrap();
    let mut summed = LocalStore::new();
    summed.upsert_hour_count(TEN, 7).unwrap();
    let mut ledgers = Vec::new();
    for local in [&mut first, &mut second, &mut summed] {
        let (mut hub, u, _) = hub_with("alice");
        hub.upsert_keystrokes_count(u, TEN, 1).unwrap();
        let r: Result<Summary, KeyrHubstorageError> =
            local.commit(TEN, |req| hub.commit(u, req.today, &req.staging_area));
        assert_eq!(r.unwrap().global_count, 8);
        ledgers.push(hub.get_keystrokes_stats(UserId(1)));
    }
    assert_eq!(ledgers[0], vec![(TEN, 8)]);
    assert_eq!(ledgers[1], ledgers[0]);
    assert_eq!(ledgers[2], ledgers[0]);
}
