//! The session store: tokens that stand for a logged-in user for a limited
//! time, renewed at every use.

use vstd::prelude::*;
use std::collections::HashMap;
use rand_chacha::ChaCha8Rng;
use rand_core::RngCore;

verus! {

/// The generator of rand_chacha, of whose state nothing is looked at.
#[verifier::external_type_specification]
#[verifier::external_body]
pub struct ExChaCha8Rng(ChaCha8Rng);

/// Draws 16 bytes from the generator with `RngCore::fill_bytes` of
/// rand_core, as rand_chacha implements it for `ChaCha8Rng`. Nothing is
/// claimed of the bytes, nor of the state in which the generator is left.
#[verifier::external_body]
fn draw_token_bytes(rng: &mut ChaCha8Rng) -> (bytes: [u8; 16]) {
    let mut bytes = [0u8; 16];
    rng.fill_bytes(&mut bytes);
    bytes
}

/// The number that 16 bytes stand for, the first byte counting least.
pub open spec fn le_value(b: Seq<u8>) -> int
    decreases b.len(),
{
    if b.len() == 0 {
        0
    } else {
        b[0] as int + 256 * le_value(b.drop_first())
    }
}

/// The token that 16 bytes stand for, the first byte counting least.
pub fn token_from_bytes(bytes: &[u8; 16]) -> (token: u128)
    ensures
        token == le_value(bytes@),
{
    let mut token: u128 = 0;
    let mut i: usize = 16;
    assert(bytes@.skip(16) == Seq::<u8>::empty());
    while i > 0
        invariant
            0 <= i <= 16,
            token == le_value(bytes@.skip(i as int)),
            token <= u128::MAX >> ((8 * i) as u128),
        decreases i,
    {
        i = i - 1;
        proof {
            assert(bytes@.skip(i as int).drop_first() == bytes@.skip(i + 1));
            let shift: u128 = (8 * i) as u128;
            let old_token: u128 = token;
            let b: u8 = bytes[i as int];
            assert(old_token <= u128::MAX >> ((shift + 8) as u128) && shift <= 120 ==> old_token
                * 256 + b <= u128::MAX >> shift && old_token * 256 + b <= u128::MAX) by (bit_vector);
        }
        token = token * 256 + bytes[i] as u128;
    }
    assert(bytes@.skip(0) == bytes@);
    token
}

/// What the store holds for a token.
pub struct Session {
    pub user_id: i32,
    /// The second from which the session is no longer alive.
    pub expires_at: i128,
}

/// The sessions by their tokens.
pub struct SessionStore {
    pub(crate) sessions: HashMap<u128, Session>,
    pub(crate) ttl: u64,
}

/// The state of a session store.
pub ghost struct SessionsView {
    pub sessions: Map<u128, Session>,
    /// The seconds for which a session stays alive after its last use.
    pub ttl: int,
}

impl SessionsView {
    /// Whether `token` stands for a user at the second `now`.
    pub open spec fn alive(self, token: u128, now: i64) -> bool {
        self.sessions.contains_key(token) && now < self.sessions[token].expires_at
    }

    /// The store after `token` was given to `user_id` at the second `now`.
    pub open spec fn created(self, token: u128, user_id: i32, now: i64) -> SessionsView {
        SessionsView {
            sessions: self.sessions.insert(
                token,
                Session { user_id, expires_at: (now + self.ttl) as i128 },
            ),
            ttl: self.ttl,
        }
    }

    /// The user that `token` stands for at the second `now`, if any.
    pub open spec fn user_of(self, token: u128, now: i64) -> Option<i32> {
        if self.alive(token, now) {
            Some(self.sessions[token].user_id)
        } else {
            None
        }
    }

    /// The store after `token` was resolved at the second `now`: a session
    /// that is alive lives on for the whole time again, one that has run
    /// out is dropped.
    pub open spec fn resolved(self, token: u128, now: i64) -> SessionsView {
        if self.alive(token, now) {
            self.created(token, self.sessions[token].user_id, now)
        } else {
            self.revoked(token)
        }
    }

    /// The store after `token` was revoked.
    pub open spec fn revoked(self, token: u128) -> SessionsView {
        SessionsView { sessions: self.sessions.remove(token), ttl: self.ttl }
    }

    /// What a session store can hold.
    pub open spec fn wf(self) -> bool {
        0 <= self.ttl <= u64::MAX
    }
}

impl View for SessionStore {
    type V = SessionsView;

    open(crate) spec fn view(&self) -> SessionsView {
        SessionsView { sessions: self.sessions@, ttl: self.ttl as int }
    }
}

/// A session that was just created resolves to its user, as long as its
/// time has not run out.
pub proof fn lemma_resolve_after_create(
    v: SessionsView,
    token: u128,
    user_id: i32,
    now: i64,
    later: i64,
)
    requires
        v.wf(),
        now <= later < now + v.ttl,
    ensures
        v.created(token, user_id, now).user_of(token, later) == Some(user_id),
{
}

/// A session that was revoked resolves to nobody.
pub proof fn lemma_resolve_after_revoke(v: SessionsView, token: u128, now: i64)
    ensures
        v.revoked(token).user_of(token, now) is None,
{
}

/// Resolving a session renews it: it resolves to the same user until its
/// whole time has run out again.
pub proof fn lemma_resolve_renews(v: SessionsView, token: u128, now: i64, later: i64)
    requires
        v.wf(),
        v.alive(token, now),
        now <= later < now + v.ttl,
    ensures
        v.resolved(token, now).user_of(token, later) == v.user_of(token, now),
{
}

impl SessionStore {
    /// A store without sessions, in which a session lives `ttl` seconds
    /// after its last use.
    pub fn new(ttl: u64) -> (store: SessionStore)
        ensures
            store@.wf(),
            store@.ttl == ttl,
            store@.sessions == Map::<u128, Session>::empty(),
    {
        SessionStore { sessions: HashMap::new(), ttl }
    }
}

/// A new token: 16 bytes drawn from `rng`, read by `token_from_bytes`. Any
/// number can come: the bytes are the generator's, so no clause says more.
pub fn draw_token(rng: &mut ChaCha8Rng) -> (token: u128) {
    let bytes = draw_token_bytes(rng);
    token_from_bytes(&bytes)
}

/// Gives `token` to `user_id` at the second `now`, in place of whatever the
/// token stood for.
pub fn store_session(store: &mut SessionStore, token: u128, user_id: i32, now: i64)
    ensures
        final(store)@ == old(store)@.created(token, user_id, now),
{
    let expires_at: i128 = now as i128 + store.ttl as i128;
    store.sessions.insert(token, Session { user_id, expires_at });
}

/// Creates a session for `user_id` at the second `now`, under a token of 16
/// bytes drawn from `rng`, and returns the token.
pub fn new_session(store: &mut SessionStore, rng: &mut ChaCha8Rng, user_id: i32, now: i64) -> (token:
    u128)
    ensures
        final(store)@ == old(store)@.created(token, user_id, now),
{
    let token = draw_token(rng);
    store_session(store, token, user_id, now);
    token
}

/// The user that `session_id` stands for at the second `now`, if the
/// session is alive; the session then lives on for the whole time again.
pub fn get_session_user_id(store: &mut SessionStore, session_id: u128, now: i64) -> (user_id:
    Option<i32>)
    ensures
        user_id == old(store)@.user_of(session_id, now),
        final(store)@ == old(store)@.resolved(session_id, now),
{
    let found = match store.sessions.get(&session_id) {
        Some(session) => {
            if (now as i128) < session.expires_at {
                Some(session.user_id)
            } else {
                None
            }
        },
        None => None,
    };
    match found {
        Some(user_id) => {
            store_session(store, session_id, user_id, now);
        },
        None => {
            store.sessions.remove(&session_id);
        },
    }
    found
}

/// Revokes the session `session_id`, whether it exists or not.
pub fn delete_session(store: &mut SessionStore, session_id: u128)
    ensures
        final(store)@ == old(store)@.revoked(session_id),
{
    store.sessions.remove(&session_id);
}

} // verus!
