use zkp_course::bignum::BigNum;
use zkp_course::store::{AuthStore, NotFound, UserInfo};

fn n(v: u64) -> BigNum {
    BigNum::from_bytes_be(&v.to_be_bytes())
}

#[test]
fn a_new_store_is_empty() {
    let store = AuthStore::new();
    assert!(!store.is_registered("alice"));
    assert!(store.user("alice").is_none());
    assert_eq!(store.lookup_for_answer("abc123").err(), Some(NotFound));
}

#[test]
fn register_starts_a_clean_record() {
    let mut store = AuthStore::new();
    store.register("alice".to_string(), n(2), n(3));
    assert!(store.is_registered("alice"));
    let info = store.user("alice").unwrap();
    assert!(info.y1.equals(&n(2)));
    assert!(info.y2.equals(&n(3)));
    assert!(info.r1.is_zero());
    assert!(info.r2.is_zero());
    assert!(info.c.is_zero());
    assert_eq!(info.session_id, "");
}

#[test]
fn begin_challenge_needs_a_registered_user() {
    let mut store = AuthStore::new();
    let r = store.begin_challenge("alice".to_string(), n(8), n(4), n(4), "tok001".to_string());
    assert_eq!(r, Err(NotFound));
    assert!(!store.is_registered("alice"));
    assert!(store.lookup_for_answer("tok001").is_err());
}

#[test]
fn begin_challenge_overwrites_the_previous_one() {
    let mut store = AuthStore::new();
    store.register("alice".to_string(), n(2), n(3));
    assert_eq!(
        store.begin_challenge("alice".to_string(), n(8), n(4), n(4), "tok001".to_string()),
        Ok(())
    );
    assert_eq!(
        store.begin_challenge("alice".to_string(), n(18), n(13), n(6), "tok002".to_string()),
        Ok(())
    );
    for token in ["tok001", "tok002"] {
        let (user, info) = store.lookup_for_answer(token).unwrap();
        assert_eq!(user, "alice");
        assert!(info.y1.equals(&n(2)));
        assert!(info.y2.equals(&n(3)));
        assert!(info.r1.equals(&n(18)));
        assert!(info.r2.equals(&n(13)));
        assert!(info.c.equals(&n(6)));
    }
}

#[test]
fn complete_session_is_an_idempotent_overwrite() {
    let mut store = AuthStore::new();
    store.register("alice".to_string(), n(2), n(3));
    assert_eq!(store.complete_session("bob".to_string(), "s00001".to_string()), Err(NotFound));
    assert_eq!(store.complete_session("alice".to_string(), "s00001".to_string()), Ok(()));
    assert_eq!(store.complete_session("alice".to_string(), "s00001".to_string()), Ok(()));
    assert_eq!(store.user("alice").unwrap().session_id, "s00001");
    assert_eq!(store.complete_session("alice".to_string(), "s00002".to_string()), Ok(()));
    let info = store.user("alice").unwrap();
    assert_eq!(info.session_id, "s00002");
    assert!(info.y1.equals(&n(2)));
    assert!(info.y2.equals(&n(3)));
}

#[test]
fn registering_one_user_leaves_the_others_alone() {
    let mut store = AuthStore::new();
    store.register("bob".to_string(), n(5), n(7));
    store.begin_challenge("bob".to_string(), n(8), n(4), n(9), "tokbob".to_string()).unwrap();
    store.complete_session("bob".to_string(), "sesbob".to_string()).unwrap();
    store.register("alice".to_string(), n(2), n(3));
    let bob = store.user("bob").unwrap();
    assert!(bob.y1.equals(&n(5)));
    assert!(bob.y2.equals(&n(7)));
    assert!(bob.r1.equals(&n(8)));
    assert!(bob.r2.equals(&n(4)));
    assert!(bob.c.equals(&n(9)));
    assert_eq!(bob.session_id, "sesbob");
    assert_eq!(store.lookup_for_answer("tokbob").unwrap().0, "bob");
}

#[test]
fn many_registrations_are_all_kept() {
    let mut store = AuthStore::new();
    for i in 0..200u64 {
        store.register(format!("user{}", i), n(i), n(i + 1));
    }
    for i in 0..200u64 {
        let info = store.user(&format!("user{}", i)).unwrap();
        assert!(info.y1.equals(&n(i)));
        assert!(info.y2.equals(&n(i + 1)));
    }
}

#[test]
fn registering_again_replaces_the_record() {
    let mut store = AuthStore::new();
    store.register("alice".to_string(), n(2), n(3));
    store.begin_challenge("alice".to_string(), n(8), n(4), n(4), "tok001".to_string()).unwrap();
    store.complete_session("alice".to_string(), "s00001".to_string()).unwrap();
    store.register("alice".to_string(), n(12), n(13));
    let info = store.user("alice").unwrap();
    assert!(info.y1.equals(&n(12)));
    assert!(info.y2.equals(&n(13)));
    assert!(info.r1.is_zero());
    assert!(info.c.is_zero());
    assert_eq!(info.session_id, "");
}

#[test]
fn the_default_record_is_blank() {
    let info = UserInfo::default();
    assert!(info.y1.is_zero());
    assert!(info.y2.is_zero());
    assert!(info.r1.is_zero());
    assert!(info.r2.is_zero());
    assert!(info.c.is_zero());
    assert_eq!(info.session_id, "");
    let copy = info.clone();
    assert!(copy.y1.equals(&info.y1));
}
