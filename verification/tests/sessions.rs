use cloud_drive::models::sessions_model::{
    delete_session, draw_token, get_session_user_id, new_session, store_session,
    token_from_bytes, SessionStore,
};
use rand_chacha::ChaCha8Rng;
use rand_core::{RngCore, SeedableRng};

#[test]
fn a_token_is_sixteen_bytes_with_the_first_counting_least() {
    assert_eq!(token_from_bytes(&[0; 16]), 0);
    assert_eq!(token_from_bytes(&[255; 16]), u128::MAX);
    let mut bytes = [0u8; 16];
    bytes[0] = 1;
    assert_eq!(token_from_bytes(&bytes), 1);
    bytes[1] = 2;
    assert_eq!(token_from_bytes(&bytes), 513);
    bytes[15] = 0x80;
    assert_eq!(token_from_bytes(&bytes), (1u128 << 127) + 513);
    let all: [u8; 16] = [1, 2, 3, 4, 5, 6, 7, 8, 9, 10, 11, 12, 13, 14, 15, 16];
    assert_eq!(token_from_bytes(&all), u128::from_le_bytes(all));
}

#[test]
fn tokens_are_drawn_from_the_generator() {
    let mut ours = ChaCha8Rng::seed_from_u64(99);
    let mut theirs = ChaCha8Rng::seed_from_u64(99);
    for _ in 0..3 {
        let mut bytes = [0u8; 16];
        theirs.fill_bytes(&mut bytes);
        assert_eq!(draw_token(&mut ours), u128::from_le_bytes(bytes));
    }
    let mut store = SessionStore::new(60);
    let mut bytes = [0u8; 16];
    theirs.fill_bytes(&mut bytes);
    assert_eq!(new_session(&mut store, &mut ours, 5, 0), u128::from_le_bytes(bytes));
}

#[test]
fn a_new_session_resolves_to_its_user() {
    let mut rng = ChaCha8Rng::seed_from_u64(1);
    let mut store = SessionStore::new(60);
    let a = new_session(&mut store, &mut rng, 5, 1_000);
    let b = new_session(&mut store, &mut rng, 6, 1_000);
    assert_ne!(a, b);
    assert_eq!(get_session_user_id(&mut store, a, 1_000), Some(5));
    assert_eq!(get_session_user_id(&mut store, b, 1_000), Some(6));
    assert_eq!(get_session_user_id(&mut store, a ^ 1, 1_000), None);
}

#[test]
fn a_revoked_session_resolves_to_nobody() {
    let mut store = SessionStore::new(60);
    store_session(&mut store, 77, 5, 1_000);
    store_session(&mut store, 78, 5, 1_000);
    delete_session(&mut store, 77);
    assert_eq!(get_session_user_id(&mut store, 77, 1_000), None);
    assert_eq!(get_session_user_id(&mut store, 78, 1_000), Some(5));
    delete_session(&mut store, 77);
    delete_session(&mut store, 1);
    assert_eq!(get_session_user_id(&mut store, 78, 1_000), Some(5));
}

#[test]
fn a_session_runs_out_after_its_time() {
    let mut store = SessionStore::new(60);
    store_session(&mut store, 77, 5, 1_000);
    store_session(&mut store, 78, 5, 1_000);
    assert_eq!(get_session_user_id(&mut store, 78, 1_059), Some(5));
    assert_eq!(get_session_user_id(&mut store, 77, 1_060), None);
    assert_eq!(get_session_user_id(&mut store, 77, 1_000), None);
}

#[test]
fn every_use_renews_a_session() {
    let mut store = SessionStore::new(60);
    store_session(&mut store, 77, 5, 1_000);
    assert_eq!(get_session_user_id(&mut store, 77, 1_059), Some(5));
    assert_eq!(get_session_user_id(&mut store, 77, 1_118), Some(5));
    assert_eq!(get_session_user_id(&mut store, 77, 1_177), Some(5));
    assert_eq!(get_session_user_id(&mut store, 77, 1_237), None);
}

#[test]
fn a_token_given_twice_stands_for_the_last_user() {
    let mut store = SessionStore::new(60);
    store_session(&mut store, 77, 5, 1_000);
    store_session(&mut store, 77, 6, 1_010);
    assert_eq!(get_session_user_id(&mut store, 77, 1_069), Some(6));
}

#[test]
fn a_session_without_time_is_never_alive() {
    let mut store = SessionStore::new(0);
    store_session(&mut store, 77, 5, 1_000);
    assert_eq!(get_session_user_id(&mut store, 77, 1_000), None);
}

#[test]
fn the_clock_may_stand_at_its_ends() {
    let mut store = SessionStore::new(u64::MAX);
    store_session(&mut store, 1, 5, i64::MAX);
    assert_eq!(get_session_user_id(&mut store, 1, i64::MAX), Some(5));
    store_session(&mut store, 2, 6, i64::MIN);
    store_session(&mut store, 4, 6, i64::MIN);
    assert_eq!(get_session_user_id(&mut store, 2, i64::MAX - 1), Some(6));
    assert_eq!(get_session_user_id(&mut store, 4, i64::MAX), None);
    let mut short = SessionStore::new(1);
    store_session(&mut short, 3, 7, i64::MIN);
    assert_eq!(get_session_user_id(&mut short, 3, i64::MIN), Some(7));
    assert_eq!(get_session_user_id(&mut short, 3, i64::MIN + 1), None);
}
