//! Signing up, logging in and out, and finding the user of a request.

use vstd::prelude::*;
use vstd::string::StringExecFns;
use crate::errors::{LoginError, SignupError};
use crate::models::folders_model::{
    first_root, roots_creatable, second_root, with_roots, RootKind,
};
use crate::models::users_model::{
    insert_flaw, login_outcome, password_verdict, signup_flaw, valid_email, UsersView,
};
use crate::models::sessions_model::SessionsView;
use crate::models::user::UserView;
use crate::models::{folders_model, sessions_model, users_model};
use crate::routes::api::{AppState, ErrorResponse, StatusCode};
use crate::text::{
    decimal, decimal_text, first_of, lowercased, parse_u128, parsed_u128, push_decimal, same_text,
    trimmed,
};

verus! {

/// The name of the cookie that holds the session.
pub const SESSION_COOKIE_NAME: &'static str = "session_id";

/// The seconds for which a client is asked to keep the cookie.
pub const SESSION_COOKIE_AGE: u32 = 9999999;

/// What a user signs up with.
#[derive(Debug)]
pub struct SignupData {
    pub username: String,
    pub email: String,
    pub password: String,
}

/// What a user logs in with.
#[derive(Debug)]
pub struct LoginData {
    pub email: String,
    pub password: String,
}

/// What a user is told of the own account.
#[derive(Debug)]
pub struct MeResponse {
    pub username: String,
    pub email: String,
    pub personal_folder_id: i32,
    pub trash_folder_id: i32,
    pub max_upload_mb: usize,
    pub max_storage_mb: i64,
}

/// A reply without content: a status, the cookie to set and, where
/// something went wrong, why.
#[derive(Debug)]
pub struct Response {
    pub status: StatusCode,
    pub set_cookie: Option<String>,
    pub error: Option<ErrorResponse>,
}

impl Response {
    /// The cookie that the reply sets, as text.
    pub open spec fn cookie_text(&self) -> Option<Seq<char>> {
        match self.set_cookie {
            Some(c) => Some(c@),
            None => None,
        }
    }

    /// The message of the error that the reply holds.
    pub open spec fn error_text(&self) -> Option<Seq<char>> {
        match self.error {
            Some(e) => Some(e.message@),
            None => None,
        }
    }

    /// Whether the reply tells of an error with this status and message,
    /// and sets no cookie.
    pub open spec fn refuses(&self, status: StatusCode, message: Seq<char>) -> bool {
        self.status == status && self.error_text() == Some(message) && self.set_cookie is None
    }

    /// Whether the reply sets this cookie under this status, and tells of
    /// no error.
    pub open spec fn grants(&self, status: StatusCode, cookie: Seq<char>) -> bool {
        self.status == status && self.cookie_text() == Some(cookie) && self.error is None
    }

    fn refusal(r: (StatusCode, ErrorResponse)) -> (reply: Response)
        ensures
            reply.refuses(r.0, r.1.message@),
    {
        Response { status: r.0, set_cookie: None, error: Some(r.1) }
    }
}

/// The session and the user of a request.
pub type AuthState = (u128, i32);

/// The name and the value of the cookie that a text holds: of the text up to
/// its first semicolon, what stands before the first equals sign and what
/// stands behind it, each trimmed of white space. Nothing where there is no
/// equals sign, and nothing where the name is empty.
pub open spec fn parsed_cookie(text: Seq<char>) -> Option<(Seq<char>, Seq<char>)> {
    let pair = text.take(first_of(text, ';'));
    let at = first_of(pair, '=');
    let name = trimmed(pair.take(at));
    if at == pair.len() || name.len() == 0 {
        None
    } else {
        Some((name, trimmed(pair.skip(at + 1))))
    }
}

/// The texts of a name and a value.
pub open spec fn pair_text(pair: Option<(String, String)>) -> Option<(Seq<char>, Seq<char>)> {
    match pair {
        Some(p) => Some((p.0@, p.1@)),
        None => None,
    }
}

/// Parses a text as a cookie with `str::parse`, which for a `Cookie` of the
/// cookie crate calls `Cookie::parse`, and hands out the name and the value
/// that it found. Taken on trust: that `Cookie::parse` finds them as
/// `parsed_cookie` says, in the first of the parts between semicolons, and
/// fails only where that part has no equals sign or no name; what follows
/// the first semicolon changes neither.
#[verifier::external_body]
fn parse_cookie(text: &str) -> (pair: Option<(String, String)>)
    ensures
        pair_text(pair) == parsed_cookie(text@),
{
    match text.parse::<cookie::Cookie>() {
        Ok(cookie) => Some((cookie.name().to_owned(), cookie.value().to_owned())),
        Err(_) => None,
    }
}

/// The session that parsed cookies name: the value, read as a number, of
/// the first that is called `session_id`. Where that value is no number,
/// there is no session, whatever the cookies after it hold.
pub open spec fn first_session_id(cookies: Seq<Option<(Seq<char>, Seq<char>)>>) -> Option<u128>
    decreases cookies.len(),
{
    if cookies.len() == 0 {
        None
    } else {
        match cookies[0] {
            Some((name, value)) if name == SESSION_COOKIE_NAME@ => parsed_u128(value),
            _ => first_session_id(cookies.drop_first()),
        }
    }
}

/// The names and values of a vector of parsed cookies, as texts.
pub open spec fn pair_texts(v: Seq<Option<(String, String)>>) -> Seq<
    Option<(Seq<char>, Seq<char>)>,
> {
    Seq::new(v.len(), |i: int| pair_text(v[i]))
}

/// The session that parsed cookies name.
pub fn session_id_of(cookies: &Vec<Option<(String, String)>>) -> (id: Option<u128>)
    ensures
        id == first_session_id(pair_texts(cookies@)),
{
    let ghost all = pair_texts(cookies@);
    let mut i: usize = 0;
    assert(all.skip(0) == all);
    while i < cookies.len()
        invariant
            0 <= i <= cookies.len(),
            all == pair_texts(cookies@),
            first_session_id(all) == first_session_id(all.skip(i as int)),
        decreases cookies.len() - i,
    {
        proof {
            assert(all.skip(i as int).drop_first() == all.skip(i + 1));
            assert(all.skip(i as int)[0] == pair_text(cookies@[i as int]));
        }
        match &cookies[i] {
            Some(pair) => {
                if same_text(pair.0.as_str(), SESSION_COOKIE_NAME) {
                    return parse_u128(pair.1.as_str());
                }
            },
            None => {},
        }
        i = i + 1;
    }
    None
}

/// The texts of a vector of headers.
pub open spec fn header_texts(v: Seq<String>) -> Seq<Seq<char>> {
    Seq::new(v.len(), |i: int| v[i]@)
}

/// The session that the `Cookie` headers of a request name.
pub open spec fn cookie_session_id(headers: Seq<Seq<char>>) -> Option<u128> {
    first_session_id(headers.map_values(|h: Seq<char>| parsed_cookie(h)))
}

/// The session that the `Cookie` headers of a request name.
pub fn session_id_from_cookies(headers: &Vec<String>) -> (id: Option<u128>)
    ensures
        id == cookie_session_id(header_texts(headers@)),
{
    let mut cookies: Vec<Option<(String, String)>> = Vec::new();
    let mut i: usize = 0;
    while i < headers.len()
        invariant
            0 <= i <= headers.len(),
            cookies.len() == i,
            forall|k: int|
                0 <= k < i ==> pair_text(#[trigger] cookies@[k]) == parsed_cookie(headers@[k]@),
        decreases headers.len() - i,
    {
        cookies.push(parse_cookie(headers[i].as_str()));
        i = i + 1;
    }
    assert(pair_texts(cookies@) == header_texts(headers@).map_values(
        |h: Seq<char>| parsed_cookie(h),
    ));
    session_id_of(&cookies)
}

/// Finds the session and the user of a request from its `Cookie` headers,
/// and renews the session. Without a session that is alive the request is
/// unauthorized.
pub fn auth_middleware(state: &mut AppState, cookie_headers: &Vec<String>, now: i64) -> (r: Result<
    AuthState,
    StatusCode,
>)
    requires
        old(state).wf(),
    ensures
        final(state).wf(),
        final(state).users == old(state).users,
        final(state).tree == old(state).tree,
        final(state).blobs == old(state).blobs,
        final(state).rng == old(state).rng,
        final(state).limits == old(state).limits,
        match cookie_session_id(header_texts(cookie_headers@)) {
            None => r == Err::<AuthState, StatusCode>(StatusCode::Unauthorized) && final(state).sessions == old(state).sessions,
            Some(session_id) => {
                &&& final(state).sessions@ == old(state).sessions@.resolved(session_id, now)
                &&& r == match old(state).sessions@.user_of(session_id, now) {
                    Some(user_id) => Ok::<AuthState, StatusCode>((session_id, user_id)),
                    None => Err(StatusCode::Unauthorized),
                }
            },
        },
{
    let session_id = match session_id_from_cookies(cookie_headers) {
        Some(session_id) => session_id,
        None => {
            return Err(StatusCode::Unauthorized);
        },
    };
    match sessions_model::get_session_user_id(&mut state.sessions, session_id, now) {
        Some(user_id) => Ok((session_id, user_id)),
        None => Err(StatusCode::Unauthorized),
    }
}

/// The cookie that holds `value` as the session for `age` seconds.
pub open spec fn session_cookie(value: Seq<char>, age: u32) -> Seq<char> {
    SESSION_COOKIE_NAME@ + "="@ + value + "; Max-Age="@ + decimal(age as nat)
        + "; SameSite=Strict"@
}

/// A reply that sets the session cookie to `value` for `age` seconds.
pub fn session_cookie_response(status: StatusCode, value: &str, age: u32) -> (reply: Response)
    ensures
        reply.grants(status, session_cookie(value@, age)),
{
    let mut cookie = String::from_str(SESSION_COOKIE_NAME);
    cookie.append("=");
    cookie.append(value);
    cookie.append("; Max-Age=");
    push_decimal(&mut cookie, age as u128);
    cookie.append("; SameSite=Strict");
    Response { status, set_cookie: Some(cookie), error: None }
}

/// The reply to a signup that ended in the session `session_id`.
pub fn signup_response(session_id: u128) -> (reply: Response)
    ensures
        reply.grants(StatusCode::Created, session_cookie(decimal(session_id as nat), SESSION_COOKIE_AGE)),
{
    let value = decimal_text(session_id);
    session_cookie_response(StatusCode::Created, value.as_str(), SESSION_COOKIE_AGE)
}

/// The reply to a login that ended in the session `session_id`.
pub fn login_response(session_id: u128) -> (reply: Response)
    ensures
        reply.grants(StatusCode::NoContent, session_cookie(decimal(session_id as nat), SESSION_COOKIE_AGE)),
{
    let value = decimal_text(session_id);
    session_cookie_response(StatusCode::NoContent, value.as_str(), SESSION_COOKIE_AGE)
}

/// The reply to a logout: the cookie is emptied and runs out at once.
pub fn logout_response() -> (reply: Response)
    ensures
        reply.grants(StatusCode::NoContent, session_cookie("_"@, 0)),
{
    session_cookie_response(StatusCode::NoContent, "_", 0)
}

/// The status and the message with which a signup is refused.
pub open spec fn signup_refusal(e: SignupError) -> (StatusCode, Seq<char>) {
    match e {
        SignupError::UsernameExists => (StatusCode::Conflict, "Username already taken."@),
        SignupError::EmailExists => (
            StatusCode::Conflict,
            "An account with this email already exists."@,
        ),
        SignupError::InvalidUsername => (
            StatusCode::BadRequest,
            "The username must be from 8 to 20 characters long and\n                should only contain letters, numbers, '-' and '_'."@,
        ),
        SignupError::InvalidEmail => (StatusCode::BadRequest, "Invalid email."@),
        SignupError::ShortPassword => (
            StatusCode::BadRequest,
            "The password must be at least 8 characters long."@,
        ),
        SignupError::InternalError => (
            StatusCode::InternalServerError,
            "Something went wrong, please try again later."@,
        ),
    }
}

/// The reply with which a signup is refused.
pub fn signup_error_response(e: SignupError) -> (reply: Response)
    ensures
        reply.refuses(signup_refusal(e).0, signup_refusal(e).1),
{
    Response::refusal(
        match e {
            SignupError::UsernameExists => ErrorResponse::response(
                StatusCode::Conflict,
                "Username already taken.",
            ),
            SignupError::EmailExists => ErrorResponse::response(
                StatusCode::Conflict,
                "An account with this email already exists.",
            ),
            SignupError::InvalidUsername => ErrorResponse::response(
                StatusCode::BadRequest,
                "The username must be from 8 to 20 characters long and\n                should only contain letters, numbers, '-' and '_'.",
            ),
            SignupError::InvalidEmail => ErrorResponse::response(
                StatusCode::BadRequest,
                "Invalid email.",
            ),
            SignupError::ShortPassword => ErrorResponse::response(
                StatusCode::BadRequest,
                "The password must be at least 8 characters long.",
            ),
            SignupError::InternalError => ErrorResponse::response(
                StatusCode::InternalServerError,
                "Something went wrong, please try again later.",
            ),
        },
    )
}

/// The status and the message with which a login is refused.
pub open spec fn login_refusal(e: LoginError) -> (StatusCode, Seq<char>) {
    match e {
        LoginError::EmailDoesNotExists => (StatusCode::Unauthorized, "Email does not exist."@),
        LoginError::WrongPassword => (StatusCode::Unauthorized, "Wrong password."@),
        LoginError::InternalError => (
            StatusCode::InternalServerError,
            "Something went wrong, please try again later."@,
        ),
    }
}

/// The reply with which a login is refused.
pub fn login_error_response(e: LoginError) -> (reply: Response)
    ensures
        reply.refuses(login_refusal(e).0, login_refusal(e).1),
{
    Response::refusal(
        match e {
            LoginError::EmailDoesNotExists => ErrorResponse::response(
                StatusCode::Unauthorized,
                "Email does not exist.",
            ),
            LoginError::WrongPassword => ErrorResponse::response(
                StatusCode::Unauthorized,
                "Wrong password.",
            ),
            LoginError::InternalError => ErrorResponse::response(
                StatusCode::InternalServerError,
                "Something went wrong, please try again later.",
            ),
        },
    )
}

/// What a user is told whose roots could not be created.
pub open spec fn no_roots_message() -> Seq<char> {
    "Failed to initialize root folders. Please, create a new account."@
}

/// Whether `after` holds one user more than `before`: the user `id` with
/// this name and email address, and a hash that matches the password.
pub open spec fn user_added(
    before: UsersView,
    after: UsersView,
    id: i32,
    username: Seq<char>,
    email: Seq<char>,
    password: Seq<char>,
) -> bool {
    exists|hash: Seq<char>|
        #[trigger] password_verdict(password, hash) == Some(true) && after == before.with_user(
            UserView { id, username, email, password: hash },
        )
}

/// Whether `after` holds one session more than `before`, that of
/// `user_id`, and `reply` hands its token out in the session cookie.
pub open spec fn session_granted(
    before: SessionsView,
    after: SessionsView,
    user_id: i32,
    now: i64,
    reply: Response,
    status: StatusCode,
) -> bool {
    exists|token: u128|
        reply.grants(status, session_cookie(decimal(token as nat), SESSION_COOKIE_AGE)) && after
            == #[trigger] before.created(token, user_id, now)
}

/// Signs a user up, creates the user's two roots and opens a session.
///
/// A flaw in what was entered is answered with its refusal and changes
/// nothing. Otherwise one of three things happens. The account cannot be
/// written, because the name or the email address is taken, no id is left
/// or the hashing failed: the refusal says so and nothing changes. The
/// account is written but the roots cannot be created, because the tree
/// store holds folders of that user already or has not two ids left: the
/// reply says so, no root is written and no session is opened. Or all goes well: the reply has the status
/// `Created` and sets the session cookie.
pub fn signup(state: &mut AppState, user: &SignupData, now: i64) -> (reply: Response)
    requires
        old(state).wf(),
    ensures
        final(state).wf(),
        final(state).blobs == old(state).blobs,
        final(state).limits == old(state).limits,
        match signup_flaw(user.username@, valid_email(lowercased(user.email@)), user.password@) {
            Some(e) => {
                &&& reply.refuses(signup_refusal(e).0, signup_refusal(e).1)
                &&& final(state).users@ == old(state).users@
                &&& final(state).tree@ == old(state).tree@
                &&& final(state).sessions@ == old(state).sessions@
            },
            None => {
                let id = old(state).users@.next_id as i32;
                let email = lowercased(user.email@);
                let added = user_added(
                    old(state).users@,
                    final(state).users@,
                    id,
                    user.username@,
                    email,
                    user.password@,
                );
                if reply.status == StatusCode::Created {
                    &&& insert_flaw(old(state).users@, user.username@, email) is None
                    &&& added
                    &&& roots_creatable(old(state).tree@, id)
                    &&& final(state).tree@ == with_roots(old(state).tree@, id, now)
                    &&& crate::models::tree::roots_of(final(state).tree@.folders, id) == seq![
                        first_root(old(state).tree@, id, now),
                        second_root(old(state).tree@, id, now),
                    ]
                    &&& session_granted(
                        old(state).sessions@,
                        final(state).sessions@,
                        id,
                        now,
                        reply,
                        StatusCode::Created,
                    )
                } else if reply.error_text() == Some(no_roots_message()) {
                    &&& reply.refuses(StatusCode::InternalServerError, no_roots_message())
                    &&& insert_flaw(old(state).users@, user.username@, email) is None
                    &&& added
                    &&& !roots_creatable(old(state).tree@, id)
                    &&& final(state).tree@ == old(state).tree@
                    &&& final(state).sessions@ == old(state).sessions@
                } else {
                    &&& final(state).users@ == old(state).users@
                    &&& final(state).tree@ == old(state).tree@
                    &&& final(state).sessions@ == old(state).sessions@
                    &&& exists|e: SignupError|
                        (e == SignupError::InternalError || Some(e) == insert_flaw(
                            old(state).users@,
                            user.username@,
                            email,
                        )) && #[trigger] reply.refuses(signup_refusal(e).0, signup_refusal(e).1)
                }
            },
        },
{
    let res = users_model::new_user(
        &mut state.users,
        user.username.as_str(),
        user.email.as_str(),
        user.password.as_str(),
    );
    match res {
        Ok(user_id) => {
            if folders_model::init_root_folders(&mut state.tree, user_id, now).is_err() {
                let reply = Response::refusal(
                    ErrorResponse::response(
                        StatusCode::InternalServerError,
                        "Failed to initialize root folders. Please, create a new account.",
                    ),
                );
                return reply;
            }
            let session_id = sessions_model::new_session(
                &mut state.sessions,
                &mut state.rng,
                user_id,
                now,
            );
            let reply = signup_response(session_id);
            proof {
                assert(reply.grants(
                    StatusCode::Created,
                    session_cookie(decimal(session_id as nat), SESSION_COOKIE_AGE),
                ));
                assert(reply.error_text() is None);
            }
            reply
        },
        Err(err) => {
            let reply = signup_error_response(err);
            proof {
                lemma_refusals_differ(err);
                assert(reply.refuses(signup_refusal(err).0, signup_refusal(err).1));
            }
            reply
        },
    }
}

/// No refusal of a signup has the status `Created`, nor the message that
/// tells of missing roots.
pub proof fn lemma_refusals_differ(e: SignupError)
    ensures
        signup_refusal(e).0 != StatusCode::Created,
        signup_refusal(e).1 != no_roots_message(),
{
    reveal_strlit("Failed to initialize root folders. Please, create a new account.");
    reveal_strlit("Username already taken.");
    reveal_strlit("An account with this email already exists.");
    reveal_strlit(
        "The username must be from 8 to 20 characters long and\n                should only contain letters, numbers, '-' and '_'.",
    );
    reveal_strlit("Invalid email.");
    reveal_strlit("The password must be at least 8 characters long.");
    reveal_strlit("Something went wrong, please try again later.");
    let m = no_roots_message();
    assert(m.len() == 64);
    assert(signup_refusal(e).1.len() != 64);
}

/// Logs a user in and opens a session. A login that succeeds is answered
/// with the status `NoContent` and the session cookie; one that does not,
/// with its refusal, and then nothing changes.
pub fn login(state: &mut AppState, user: &LoginData, now: i64) -> (reply: Response)
    requires
        old(state).wf(),
    ensures
        final(state).wf(),
        final(state).users == old(state).users,
        final(state).tree == old(state).tree,
        final(state).blobs == old(state).blobs,
        final(state).limits == old(state).limits,
        ({
            let found = old(state).users@.by_email(lowercased(user.email@));
            let verdict = match found {
                Some(u) => password_verdict(user.password@, u.password),
                None => None,
            };
            match login_outcome(found, verdict) {
                Ok(id) => session_granted(
                    old(state).sessions@,
                    final(state).sessions@,
                    id,
                    now,
                    reply,
                    StatusCode::NoContent,
                ),
                Err(e) => reply.refuses(login_refusal(e).0, login_refusal(e).1) && final(state).sessions@ == old(state).sessions@,
            }
        }),
{
    let res = users_model::verify_user(&state.users, user.email.as_str(), user.password.as_str());
    match res {
        Ok(user_id) => {
            let session_id = sessions_model::new_session(
                &mut state.sessions,
                &mut state.rng,
                user_id,
                now,
            );
            let reply = login_response(session_id);
            proof {
                assert(reply.grants(
                    StatusCode::NoContent,
                    session_cookie(decimal(session_id as nat), SESSION_COOKIE_AGE),
                ));
            }
            reply
        },
        Err(err) => login_error_response(err),
    }
}

/// Logs a user out: the session of the request is revoked and the cookie
/// emptied.
pub fn logout(state: &mut AppState, auth: AuthState) -> (reply: Response)
    requires
        old(state).wf(),
    ensures
        final(state).wf(),
        final(state).users == old(state).users,
        final(state).tree == old(state).tree,
        final(state).blobs == old(state).blobs,
        final(state).limits == old(state).limits,
        final(state).sessions@ == old(state).sessions@.revoked(auth.0),
        reply.grants(StatusCode::NoContent, session_cookie("_"@, 0)),
{
    sessions_model::delete_session(&mut state.sessions, auth.0);
    logout_response()
}

/// Tells a user of the own account: name, email address, the two roots in
/// the order of their creation, and the limits. Without the user's row or
/// with fewer than two roots there is nothing to tell.
pub fn me(state: &AppState, user_id: i32) -> (r: Result<(StatusCode, MeResponse), StatusCode>)
    requires
        state.wf(),
    ensures
        ({
            let roots = crate::models::tree::roots_of(state.tree@.folders, user_id);
            match state.users@.by_id(user_id) {
                Some(u) if roots.len() >= 2 => {
                    &&& r is Ok
                    &&& r->Ok_0.0 == StatusCode::Success
                    &&& r->Ok_0.1.username@ == u.username
                    &&& r->Ok_0.1.email@ == u.email
                    &&& r->Ok_0.1.personal_folder_id == roots[0].id
                    &&& r->Ok_0.1.trash_folder_id == roots[1].id
                    &&& r->Ok_0.1.max_upload_mb == state.limits.max_upload_mb
                    &&& r->Ok_0.1.max_storage_mb == state.limits.max_storage_mb
                },
                _ => r == Err::<(StatusCode, MeResponse), StatusCode>(
                    StatusCode::InternalServerError,
                ),
            }
        }),
{
    let user = users_model::get_user_by_id(&state.users, user_id);
    let personal = folders_model::get_root_folder(&state.tree, user_id, RootKind::Personal);
    let trash = folders_model::get_root_folder(&state.tree, user_id, RootKind::Trash);
    match (user, personal, trash) {
        (Some(u), Some(personal), Some(trash)) => Ok(
            (
                StatusCode::Success,
                MeResponse {
                    username: u.get_username().clone(),
                    email: u.get_email().clone(),
                    personal_folder_id: personal.get_id(),
                    trash_folder_id: trash.get_id(),
                    max_upload_mb: state.limits.max_upload_mb,
                    max_storage_mb: state.limits.max_storage_mb,
                },
            ),
        ),
        _ => Err(StatusCode::InternalServerError),
    }
}

} // verus!
