//! What the entry points share: the state they work on, the status of a
//! reply, and the body of an error.

pub mod auth;
pub mod cloud;

use vstd::prelude::*;
use vstd::string::StringExecFns;
use rand_chacha::ChaCha8Rng;
use crate::models::blobs::BlobStore;
use crate::models::sessions_model::SessionStore;
use crate::models::store::TreeStore;
use crate::models::users_model::UserStore;

verus! {

/// The status of a reply.
#[derive(Debug, Clone, Copy, PartialEq, Eq, Structural)]
pub enum StatusCode {
    Success,
    Created,
    NoContent,
    BadRequest,
    Unauthorized,
    Conflict,
    PayloadTooLarge,
    InternalServerError,
}

impl StatusCode {
    /// The number of the status.
    pub open spec fn number(self) -> u16 {
        match self {
            StatusCode::Success => 200,
            StatusCode::Created => 201,
            StatusCode::NoContent => 204,
            StatusCode::BadRequest => 400,
            StatusCode::Unauthorized => 401,
            StatusCode::Conflict => 409,
            StatusCode::PayloadTooLarge => 413,
            StatusCode::InternalServerError => 500,
        }
    }

    /// The number of the status.
    pub fn as_u16(&self) -> (n: u16)
        ensures
            n == self.number(),
    {
        match self {
            StatusCode::Success => 200,
            StatusCode::Created => 201,
            StatusCode::NoContent => 204,
            StatusCode::BadRequest => 400,
            StatusCode::Unauthorized => 401,
            StatusCode::Conflict => 409,
            StatusCode::PayloadTooLarge => 413,
            StatusCode::InternalServerError => 500,
        }
    }
}

/// What is sent back when something goes wrong.
#[derive(Debug)]
pub struct ErrorResponse {
    pub message: String,
}

impl ErrorResponse {
    /// An error body with this message.
    pub fn json(message: &str) -> (body: ErrorResponse)
        ensures
            body.message@ == message@,
    {
        ErrorResponse { message: String::from_str(message) }
    }

    /// A status with an error body.
    pub fn response(code: StatusCode, message: &str) -> (r: (StatusCode, ErrorResponse))
        ensures
            r.0 == code,
            r.1.message@ == message@,
    {
        (code, ErrorResponse::json(message))
    }

    /// The reply to a failure of which the client is told nothing more.
    pub fn internal_err() -> (r: (StatusCode, ErrorResponse))
        ensures
            r.0 == StatusCode::InternalServerError,
            r.1.message@ == "Something went wrong."@,
    {
        ErrorResponse::response(StatusCode::InternalServerError, "Something went wrong.")
    }
}

/// The limits that the service is run with.
#[derive(Debug, Clone, Copy)]
pub struct Limits {
    /// The largest upload, in millions of bytes.
    pub max_upload_mb: usize,
    /// The most that a user may store, in millions of bytes.
    pub max_storage_mb: i64,
}

/// All that the entry points work on.
pub struct AppState {
    pub users: UserStore,
    pub tree: TreeStore,
    pub blobs: BlobStore,
    pub sessions: SessionStore,
    pub rng: ChaCha8Rng,
    pub limits: Limits,
}

impl AppState {
    /// What holds of the state between two calls.
    pub open spec fn wf(&self) -> bool {
        self.users@.wf() && self.tree@.wf() && self.sessions@.wf()
    }

    /// An empty service, in which a session lives `session_ttl` seconds
    /// after its last use.
    pub fn new(rng: ChaCha8Rng, session_ttl: u64, limits: Limits) -> (state: AppState)
        ensures
            state.wf(),
            state.users@.users.len() == 0,
            state.tree@.folders.len() == 0,
            state.tree@.files.len() == 0,
            state.blobs@ == Map::<i32, Seq<u8>>::empty(),
            state.sessions@.sessions == Map::<u128, crate::models::sessions_model::Session>::empty(),
            state.sessions@.ttl == session_ttl,
            state.limits == limits,
    {
        AppState {
            users: UserStore::new(),
            tree: TreeStore::new(),
            blobs: BlobStore::new(),
            sessions: SessionStore::new(session_ttl),
            rng,
            limits,
        }
    }
}

} // verus!
