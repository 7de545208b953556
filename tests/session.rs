use stellar_bomb::session::{SessionContract, SessionError, SessionEvent, SessionInfo};

fn s(text: &str) -> String {
    text.to_string()
}

#[test]
fn test_create_session() {
    let mut c = SessionContract::new();
    let r = c.create_session(true, 500, s("GA"), s("abc"), 1000);
    assert_eq!(r, Ok(s("abc")));
    let info = c.get_session_info(&s("GA")).unwrap();
    assert_eq!(
        info,
        SessionInfo {
            wallet: s("GA"),
            session_token: s("abc"),
            created_at: 500,
            expires_at: 1000,
            is_valid: true,
        }
    );
    assert_eq!(
        c.take_events(),
        vec![SessionEvent::Created { wallet: s("GA"), session_token: s("abc"), expires_at: 1000 }]
    );
    assert!(c.take_events().is_empty());
}

#[test]
fn test_verify_session() {
    let mut c = SessionContract::new();
    assert!(!c.verify_session(10, &s("GA"), &s("t1")));
    c.create_session(true, 10, s("GA"), s("t1"), 100).unwrap();
    c.take_events();
    assert!(c.verify_session(10, &s("GA"), &s("t1")));
    assert!(c.verify_session(100, &s("GA"), &s("t1")));
    assert!(!c.verify_session(50, &s("GA"), &s("t2")));
    assert!(!c.verify_session(50, &s("GB"), &s("t1")));
    assert_eq!(
        c.take_events(),
        vec![
            SessionEvent::Verified { wallet: s("GA"), created_at: 10 },
            SessionEvent::Verified { wallet: s("GA"), created_at: 10 },
        ]
    );
}

#[test]
fn test_session_expiration() {
    let mut c = SessionContract::new();
    c.create_session(true, 10, s("GA"), s("t1"), 100).unwrap();
    assert_eq!(c.get_remaining_time(10, &s("GA")), 90);
    assert_eq!(c.get_remaining_time(100, &s("GA")), 0);
    assert_eq!(c.get_remaining_time(101, &s("GA")), 0);
    assert!(!c.verify_session(101, &s("GA"), &s("t1")));
    assert_eq!(c.cleanup_expired(100), 0);
    assert_eq!(c.cleanup_expired(101), 1);
    assert_eq!(c.cleanup_expired(102), 0);
    let info = c.get_session_info(&s("GA")).unwrap();
    assert!(!info.is_valid);
    assert_eq!(info.session_token, s("t1"));
}

#[test]
fn test_revoke_session() {
    let mut c = SessionContract::new();
    c.create_session(true, 10, s("GA"), s("t1"), 100).unwrap();
    c.take_events();
    assert_eq!(c.revoke_session(false, 20, &s("GA")), Err(SessionError::Unauthorized));
    assert_eq!(c.revoke_session(true, 20, &s("GB")), Ok(false));
    assert!(c.verify_session(20, &s("GA"), &s("t1")));
    assert_eq!(c.revoke_session(true, 30, &s("GA")), Ok(true));
    assert!(!c.verify_session(40, &s("GA"), &s("t1")));
    assert_eq!(c.revoke_session(true, 50, &s("GA")), Ok(true));
    let info = c.get_session_info(&s("GA")).unwrap();
    assert_eq!(info.wallet, s("GA"));
    assert_eq!(info.session_token, s("t1"));
    assert!(!info.is_valid);
    assert_eq!(
        c.take_events(),
        vec![
            SessionEvent::Verified { wallet: s("GA"), created_at: 10 },
            SessionEvent::Revoked { wallet: s("GA"), at: 30 },
            SessionEvent::Revoked { wallet: s("GA"), at: 50 },
        ]
    );
}

#[test]
fn scenario_create_verify_expire_revoke() {
    let mut c = SessionContract::new();
    assert_eq!(c.create_session(true, 500, s("A"), s("abc"), 1000), Ok(s("abc")));
    assert!(c.verify_session(900, &s("A"), &s("abc")));
    assert!(!c.verify_session(1001, &s("A"), &s("abc")));
    assert_eq!(c.revoke_session(true, 1001, &s("A")), Ok(true));
    assert!(!c.verify_session(1001, &s("A"), &s("abc")));
}

#[test]
fn scenario_past_expiry_leaves_store() {
    let mut c = SessionContract::new();
    assert_eq!(c.create_session(true, 200, s("A"), s("t"), 100), Err(SessionError::InvalidExpiry));
    assert_eq!(c.stored(), None);
    assert!(c.take_events().is_empty());
    c.create_session(true, 10, s("B"), s("old"), 50).unwrap();
    let before = c.stored();
    assert_eq!(c.create_session(true, 200, s("A"), s("t"), 100), Err(SessionError::InvalidExpiry));
    assert_eq!(c.create_session(true, 200, s("A"), s("t"), 200), Err(SessionError::InvalidExpiry));
    assert_eq!(c.stored(), before);
}

#[test]
fn unauthorized_create_changes_nothing() {
    let mut c = SessionContract::new();
    assert_eq!(c.create_session(false, 1, s("A"), s("t"), 100), Err(SessionError::Unauthorized));
    assert_eq!(c.create_session(false, 200, s("A"), s("t"), 100), Err(SessionError::Unauthorized));
    assert_eq!(c.stored(), None);
    assert!(c.take_events().is_empty());
}

#[test]
fn other_wallet_never_verifies() {
    let mut c = SessionContract::new();
    c.create_session(true, 0, s("A"), s("t1"), 100).unwrap();
    for now in [0u64, 50, 100, 101] {
        assert!(!c.verify_session(now, &s("B"), &s("t1")));
    }
    assert_eq!(c.get_session_info(&s("B")), None);
    assert_eq!(c.get_remaining_time(50, &s("B")), 0);
}

#[test]
fn creation_replaces_other_wallet_session() {
    let mut c = SessionContract::new();
    c.create_session(true, 0, s("A"), s("t1"), 100).unwrap();
    c.create_session(true, 5, s("B"), s("t2"), 60).unwrap();
    assert!(!c.verify_session(10, &s("A"), &s("t1")));
    assert!(c.verify_session(10, &s("B"), &s("t2")));
    assert_eq!(c.get_remaining_time(10, &s("B")), 50);
}

#[test]
fn remaining_time_without_session_is_zero() {
    let c = SessionContract::new();
    assert_eq!(c.get_remaining_time(0, &s("A")), 0);
}

#[test]
fn revoke_without_session_is_false() {
    let mut c = SessionContract::new();
    assert_eq!(c.revoke_session(true, 0, &s("A")), Ok(false));
    assert!(c.take_events().is_empty());
}

#[test]
fn cleanup_of_revoked_session_does_nothing() {
    let mut c = SessionContract::new();
    c.create_session(true, 0, s("A"), s("t1"), 10).unwrap();
    c.revoke_session(true, 5, &s("A")).unwrap();
    assert_eq!(c.cleanup_expired(20), 0);
    assert_eq!(SessionContract::new().cleanup_expired(20), 0);
}

#[test]
fn restored_contract_keeps_session() {
    let info = SessionInfo {
        wallet: s("A"),
        session_token: s("t1"),
        created_at: 1,
        expires_at: 9,
        is_valid: true,
    };
    let mut c = SessionContract::from_stored(Some(info.clone()));
    assert!(c.verify_session(9, &s("A"), &s("t1")));
    assert_eq!(c.stored(), Some(info));
}
