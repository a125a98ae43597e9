use keyr::hub::{HubStore, KeyrHubstorageError, MaybeUserId, Token};
use keyr::service::{commit, revert_cancel, revert_initiate, revert_terminate, view_stats, KeyrHubError};
use keyr::types::{Summary, SynchronizeRequest};

const TEN: i64 = 1_599_998_400;

fn setup() -> (HubStore, MaybeUserId, Token) {
    let mut hub = HubStore::new();
    let u = hub.create_user("alice".to_string()).unwrap();
    let t = hub.generate_token(u).unwrap();
    (hub, u, t)
}

#[test]
fn commit_route_authenticates() {
    let (mut hub, _, t) = setup();
    let req = SynchronizeRequest { staging_area: vec![(TEN, 4)], today: TEN };
    let e = commit(&mut hub, None, &req).unwrap_err();
    assert!(matches!(e, KeyrHubError::MissingKeyrTokenHeader));
    assert_eq!(e.status_code(), 401);
    let e = commit(&mut hub, Some(&Token("x".to_string())), &req).unwrap_err();
    assert!(matches!(e, KeyrHubError::Storage(KeyrHubstorageError::InvalidToken)));
    assert_eq!(e.status_code(), 401);
    let s = commit(&mut hub, Some(&t), &req).unwrap();
    assert_eq!(s, Summary { oldest_timestamp: TEN, global_count: 4, today_timestamp: TEN, today_count: 4 });
}

#[test]
fn revert_routes() {
    let (mut hub, u, t) = setup();
    hub.upsert_keystrokes_count(u, TEN, 9).unwrap();
    assert_eq!(revert_initiate(&mut hub, Some(&t)).unwrap(), vec![(TEN, 9)]);
    assert!(hub.is_frozen(u).unwrap());
    revert_cancel(&mut hub, Some(&t)).unwrap();
    assert!(!hub.is_frozen(u).unwrap());
    revert_initiate(&mut hub, Some(&t)).unwrap();
    revert_terminate(&mut hub, Some(&t)).unwrap();
    assert!(!hub.is_frozen(u).unwrap());
    assert!(revert_initiate(&mut hub, Some(&t)).unwrap().is_empty());
    assert!(matches!(revert_terminate(&mut hub, None), Err(KeyrHubError::MissingKeyrTokenHeader)));
}

#[test]
fn view_route_respects_visibility() {
    let (mut hub, u, _) = setup();
    hub.upsert_keystrokes_count(u, TEN, 2).unwrap();
    let e = view_stats(&hub, &"alice".to_string()).unwrap_err();
    assert!(matches!(e, KeyrHubError::PrivateData));
    assert_eq!(e.status_code(), 401);
    hub.set_visible(u, true).unwrap();
    assert_eq!(view_stats(&hub, &"alice".to_string()).unwrap(), vec![(TEN, 2)]);
    let e = view_stats(&hub, &"bob".to_string()).unwrap_err();
    assert!(matches!(e, KeyrHubError::Storage(KeyrHubstorageError::UnknownUser)));
    assert_eq!(e.status_code(), 400);
}

#[test]
fn status_codes() {
    assert_eq!(KeyrHubError::Storage(KeyrHubstorageError::AlreadyUsedNickname("a".to_string())).status_code(), 400);
    assert_eq!(KeyrHubError::Storage(KeyrHubstorageError::InvalidTimestamp).status_code(), 400);
    assert_eq!(KeyrHubError::Storage(KeyrHubstorageError::FrozenUser).status_code(), 500);
    assert_eq!(KeyrHubError::Storage(KeyrHubstorageError::CountOverflow).status_code(), 500);
    assert_eq!(KeyrHubError::Storage(KeyrHubstorageError::TooManyUsers).status_code(), 500);
}
