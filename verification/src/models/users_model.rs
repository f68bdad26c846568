//! The accounts: signing up, logging in, and deleting a user with all that
//! the user owns.

use vstd::prelude::*;
use vstd::string::StringExecFns;
use bcrypt::BcryptError;
use email_address::EmailAddress;
use crate::errors::{InternalError, LoginError, SignupError};
use crate::models::blobs::BlobStore;
use crate::models::file::FileView;
use crate::models::files_model::{contents_deleted, delete_user_files};
use crate::models::folders_model::delete_user_folders;
use crate::models::preserve::lemma_filter_positions;
use crate::models::store::{file_ids, lemma_filter_step, TreeStore};
use crate::models::user::{user_rows, User, UserView};
use crate::text::{chars_of, lowercased, to_lowercase};

verus! {

/// The error of bcrypt, of which nothing is looked at.
#[verifier::external_type_specification]
#[verifier::external_body]
pub struct ExBcryptError(BcryptError);

/// What `bcrypt::verify` makes of a password and a hash: whether they match,
/// or nothing where it fails on the hash. How bcrypt decides is not written
/// down here.
pub uninterp spec fn password_verdict(password: Seq<char>, hash: Seq<char>) -> Option<bool>;

/// Whether `EmailAddress::is_valid` of email_address accepts the address.
/// Its grammar is not written down here.
pub uninterp spec fn valid_email(address: Seq<char>) -> bool;

/// Hashes the password with `bcrypt::hash` at the default cost, under a
/// salt that bcrypt draws itself, so that two calls give two hashes. Taken
/// on trust of a hash that comes back: that `bcrypt::verify` finds the same
/// password to match it. Nothing is claimed of when the call fails.
#[verifier::external_body]
fn hash_password(password: &str) -> (r: Result<String, BcryptError>)
    ensures
        r is Ok ==> password_verdict(password@, r->Ok_0@) == Some(true),
{
    bcrypt::hash(password, bcrypt::DEFAULT_COST)
}

/// Checks the password against the hash with `bcrypt::verify`. Taken on
/// trust: that the outcome is `password_verdict` of the two texts, that is,
/// that it depends on nothing but them.
#[verifier::external_body]
fn check_password(password: &str, hash: &str) -> (r: Result<bool, BcryptError>)
    ensures
        match r {
            Ok(matches) => password_verdict(password@, hash@) == Some(matches),
            Err(_) => password_verdict(password@, hash@) is None,
        },
{
    bcrypt::verify(password, hash)
}

/// Asks `EmailAddress::is_valid` of email_address whether the text is an
/// email address. Taken on trust: that the answer is `valid_email` of the
/// text, that is, that it depends on nothing but the text.
#[verifier::external_body]
fn is_valid_email(address: &str) -> (valid: bool)
    ensures
        valid == valid_email(address@),
{
    EmailAddress::is_valid(address)
}

/// Whether a user name may hold `c`: a letter of the Latin alphabet, a
/// digit, a hyphen or an underscore.
pub open spec fn username_char(c: char) -> bool {
    ||| 'a' <= c <= 'z'
    ||| 'A' <= c <= 'Z'
    ||| '0' <= c <= '9'
    ||| c == '-'
    ||| c == '_'
}

/// Whether `username` may name a user: 4 to 20 characters, each a letter, a
/// digit, a hyphen or an underscore.
pub open spec fn valid_username(username: Seq<char>) -> bool {
    &&& 4 <= username.len() <= 20
    &&& forall|i: int| 0 <= i < username.len() ==> username_char(#[trigger] username[i])
}

/// Whether `username` may name a user.
pub fn validate_username(username: &str) -> (valid: bool)
    ensures
        valid == valid_username(username@),
{
    let chars = chars_of(username);
    if chars.len() < 4 || chars.len() > 20 {
        return false;
    }
    let mut i: usize = 0;
    while i < chars.len()
        invariant
            0 <= i <= chars.len(),
            chars@ == username@,
            forall|k: int| 0 <= k < i ==> username_char(#[trigger] chars@[k]),
        decreases chars.len() - i,
    {
        let c = chars[i];
        let ok = ('a' <= c && c <= 'z') || ('A' <= c && c <= 'Z') || ('0' <= c && c <= '9') || c
            == '-' || c == '_';
        if !ok {
            return false;
        }
        i = i + 1;
    }
    true
}

/// Whether `password` is long enough: at least 8 bytes in UTF-8.
pub open spec fn valid_password(password: Seq<char>) -> bool {
    vstd::utf8::encode_utf8(password).len() >= 8
}

/// Whether `password` is long enough.
pub fn validate_password(password: &str) -> (valid: bool)
    ensures
        valid == valid_password(password@),
{
    password.as_bytes().len() >= 8
}

/// The accounts.
#[derive(Debug)]
pub struct UserStore {
    pub(crate) users: Vec<User>,
    pub(crate) next_id: i32,
}

/// The state of a user store.
pub ghost struct UsersView {
    pub users: Seq<UserView>,
    pub next_id: int,
}

impl View for UserStore {
    type V = UsersView;

    open(crate) spec fn view(&self) -> UsersView {
        UsersView { users: user_rows(self.users@), next_id: self.next_id as int }
    }
}

impl UsersView {
    /// Whether a user has this name.
    pub open spec fn username_taken(self, username: Seq<char>) -> bool {
        exists|i: int| 0 <= i < self.users.len() && (#[trigger] self.users[i]).username == username
    }

    /// Whether a user has this email address.
    pub open spec fn email_taken(self, email: Seq<char>) -> bool {
        exists|i: int| 0 <= i < self.users.len() && (#[trigger] self.users[i]).email == email
    }

    /// The invariant of the user store: no two users share an id, a name or
    /// an email address.
    pub open spec fn wf(self) -> bool {
        &&& 1 <= self.next_id <= i32::MAX
        &&& forall|i: int| 0 <= i < self.users.len() ==> (#[trigger] self.users[i]).id < self.next_id
        &&& forall|i: int, j: int|
            0 <= i < self.users.len() && 0 <= j < self.users.len() && ((#[trigger] self.users[i]).id
                == (#[trigger] self.users[j]).id || self.users[i].username
                == self.users[j].username || self.users[i].email == self.users[j].email) ==> i
                == j
    }

    /// The user with this id, if there is one.
    pub open spec fn by_id(self, id: i32) -> Option<UserView> {
        if exists|i: int| 0 <= i < self.users.len() && (#[trigger] self.users[i]).id == id {
            Some(
                self.users[choose|i: int|
                    0 <= i < self.users.len() && (#[trigger] self.users[i]).id == id],
            )
        } else {
            None
        }
    }

    /// The user with this email address, if there is one.
    pub open spec fn by_email(self, email: Seq<char>) -> Option<UserView> {
        if self.email_taken(email) {
            Some(
                self.users[choose|i: int|
                    0 <= i < self.users.len() && (#[trigger] self.users[i]).email == email],
            )
        } else {
            None
        }
    }

    /// The store after a user row was written.
    pub open spec fn with_user(self, row: UserView) -> UsersView {
        UsersView { users: self.users.push(row), next_id: self.next_id + 1 }
    }

    /// The store without the user `id`.
    pub open spec fn without_user(self, id: i32) -> UsersView {
        UsersView { users: self.users.filter(|u: UserView| u.id != id), next_id: self.next_id }
    }
}

/// What stands in the way of a signup, as far as the three texts and the
/// word of the email check tell: a bad user name first, then a bad email
/// address, then a short password.
pub open spec fn signup_flaw(username: Seq<char>, email_ok: bool, password: Seq<char>) -> Option<
    SignupError,
> {
    if !valid_username(username) {
        Some(SignupError::InvalidUsername)
    } else if !email_ok {
        Some(SignupError::InvalidEmail)
    } else if !valid_password(password) {
        Some(SignupError::ShortPassword)
    } else {
        None
    }
}

/// Checks what a new user entered, given whether the email address, in
/// lower case, is one.
pub fn check_signup(username: &str, email_ok: bool, password: &str) -> (r: Result<
    (),
    SignupError,
>)
    ensures
        match signup_flaw(username@, email_ok, password@) {
            Some(e) => r == Err::<(), SignupError>(e),
            None => r is Ok,
        },
{
    if !validate_username(username) {
        return Err(SignupError::InvalidUsername);
    }
    if !email_ok {
        return Err(SignupError::InvalidEmail);
    }
    if !validate_password(password) {
        return Err(SignupError::ShortPassword);
    }
    Ok(())
}

/// What stands in the way of writing a user row: a name that is taken
/// first, then an email address that is taken, then a store that has run
/// out of ids.
pub open spec fn insert_flaw(v: UsersView, username: Seq<char>, email: Seq<char>) -> Option<
    SignupError,
> {
    if v.username_taken(username) {
        Some(SignupError::UsernameExists)
    } else if v.email_taken(email) {
        Some(SignupError::EmailExists)
    } else if v.next_id >= i32::MAX {
        Some(SignupError::InternalError)
    } else {
        None
    }
}

/// Writes the row of a new user and returns the user's id.
pub fn insert_user(store: &mut UserStore, username: &str, email: &str, hashed: String) -> (r:
    Result<i32, SignupError>)
    requires
        old(store)@.wf(),
    ensures
        final(store)@.wf(),
        match insert_flaw(old(store)@, username@, email@) {
            Some(e) => r == Err::<i32, SignupError>(e) && final(store)@ == old(store)@,
            None => r == Ok::<i32, SignupError>(old(store)@.next_id as i32) && final(store)@ == old(
                store,
            )@.with_user(
                UserView {
                    id: old(store)@.next_id as i32,
                    username: username@,
                    email: email@,
                    password: hashed@,
                },
            ),
        },
{
    let name = String::from_str(username);
    let mail = String::from_str(email);
    let mut name_taken = false;
    let mut mail_taken = false;
    let mut i: usize = 0;
    while i < store.users.len()
        invariant
            0 <= i <= store.users.len(),
            name@ == username@,
            mail@ == email@,
            name_taken == exists|k: int|
                0 <= k < i && (#[trigger] store@.users[k]).username == username@,
            mail_taken == exists|k: int|
                0 <= k < i && (#[trigger] store@.users[k]).email == email@,
        decreases store.users.len() - i,
    {
        assert(store@.users[i as int] == store.users@[i as int]@);
        if store.users[i].username == name {
            name_taken = true;
        }
        if store.users[i].email == mail {
            mail_taken = true;
        }
        i = i + 1;
    }
    if name_taken {
        return Err(SignupError::UsernameExists);
    }
    if mail_taken {
        return Err(SignupError::EmailExists);
    }
    if store.next_id >= i32::MAX {
        return Err(SignupError::InternalError);
    }
    let id = store.next_id;
    let user = User { id, username: name, email: mail, password: hashed };
    proof {
        assert(user_rows(store.users@.push(user)) == user_rows(store.users@).push(user@));
        let after = store@.with_user(user@);
        assert forall|i: int, j: int|
            0 <= i < after.users.len() && 0 <= j < after.users.len() && ((
            #[trigger] after.users[i]).id == (#[trigger] after.users[j]).id
                || after.users[i].username == after.users[j].username || after.users[i].email
                == after.users[j].email) implies i == j by {
            if i < store@.users.len() {
                assert(after.users[i] == store@.users[i]);
            }
            if j < store@.users.len() {
                assert(after.users[j] == store@.users[j]);
            }
        }
        assert forall|i: int| 0 <= i < after.users.len() implies (#[trigger] after.users[i]).id
            < after.next_id by {
            if i < store@.users.len() {
                assert(after.users[i] == store@.users[i]);
            }
        }
    }
    store.users.push(user);
    store.next_id = id + 1;
    Ok(id)
}

/// What a signup makes of the outcome of the hashing: the hash, or
/// `InternalError` where there is none.
pub fn hash_outcome(hashed: Result<String, BcryptError>) -> (r: Result<String, SignupError>)
    ensures
        match hashed {
            Ok(hash) => r == Ok::<String, SignupError>(hash),
            Err(_) => r == Err::<String, SignupError>(SignupError::InternalError),
        },
{
    match hashed {
        Ok(hash) => Ok(hash),
        Err(_) => Err(SignupError::InternalError),
    }
}

/// Checks what a new user entered and hashes the password. What comes back
/// is the email address in lower case and the hash, or the first flaw, or
/// `InternalError` where the hashing failed.
pub fn prepare_signup(username: &str, email: &str, password: &str) -> (r: Result<
    (String, String),
    SignupError,
>)
    ensures
        match signup_flaw(username@, valid_email(lowercased(email@)), password@) {
            Some(e) => r == Err::<(String, String), SignupError>(e),
            None => match r {
                Ok(pair) => pair.0@ == lowercased(email@) && password_verdict(password@, pair.1@)
                    == Some(true),
                Err(e) => e == SignupError::InternalError,
            },
        },
{
    let lower = to_lowercase(email);
    let email_ok = is_valid_email(lower.as_str());
    match check_signup(username, email_ok, password) {
        Ok(_) => {},
        Err(e) => {
            return Err(e);
        },
    }
    match hash_outcome(hash_password(password)) {
        Ok(hashed) => Ok((lower, hashed)),
        Err(e) => Err(e),
    }
}

/// The error that a store reports which refused a user row because of the
/// constraint `constraint`: a name or an email address that is taken, or a
/// failure that it does not name.
pub open spec fn constraint_error(constraint: Option<Seq<char>>) -> SignupError {
    if constraint == Some("users_username_key"@) {
        SignupError::UsernameExists
    } else if constraint == Some("users_email_key"@) {
        SignupError::EmailExists
    } else {
        SignupError::InternalError
    }
}

/// The error for a user row that a store refused because of `constraint`.
pub fn signup_error_for_constraint(constraint: Option<&str>) -> (e: SignupError)
    ensures
        e == constraint_error(
            match constraint {
                Some(c) => Some(c@),
                None => None,
            },
        ),
{
    match constraint {
        Some(c) => {
            if crate::text::same_text(c, "users_username_key") {
                SignupError::UsernameExists
            } else if crate::text::same_text(c, "users_email_key") {
                SignupError::EmailExists
            } else {
                SignupError::InternalError
            }
        },
        None => SignupError::InternalError,
    }
}

/// Signs a user up: checks the name, the email address in lower case and
/// the password, hashes the password and writes the row. The errors come
/// in this order: `InvalidUsername`, `InvalidEmail`, `ShortPassword`,
/// `InternalError` where the hashing fails, `UsernameExists`, `EmailExists`,
/// `InternalError` where no id is left. On an error nothing changes.
pub fn new_user(store: &mut UserStore, username: &str, email: &str, password: &str) -> (r: Result<
    i32,
    SignupError,
>)
    requires
        old(store)@.wf(),
    ensures
        final(store)@.wf(),
        match signup_flaw(username@, valid_email(lowercased(email@)), password@) {
            Some(e) => r == Err::<i32, SignupError>(e) && final(store)@ == old(store)@,
            None => match r {
                Ok(id) => insert_flaw(old(store)@, username@, lowercased(email@)) is None && id
                    == old(store)@.next_id && exists|hash: Seq<char>|
                    password_verdict(password@, hash) == Some(true) && #[trigger] final(store)@
                        == old(store)@.with_user(
                        UserView {
                            id: id,
                            username: username@,
                            email: lowercased(email@),
                            password: hash,
                        },
                    ),
                Err(e) => final(store)@ == old(store)@ && (e == SignupError::InternalError
                    || Some(e) == insert_flaw(old(store)@, username@, lowercased(email@))),
            },
        },
{
    let (lower, hashed) = match prepare_signup(username, email, password) {
        Ok(pair) => pair,
        Err(e) => {
            return Err(e);
        },
    };
    let ghost hash = hashed@;
    let r = insert_user(store, username, lower.as_str(), hashed);
    proof {
        if r is Ok {
            assert(store@ == old(store)@.with_user(
                UserView {
                    id: r->Ok_0,
                    username: username@,
                    email: lowercased(email@),
                    password: hash,
                },
            ));
        }
    }
    r
}

/// The user `user_id`, if there is one.
pub fn get_user_by_id(store: &UserStore, user_id: i32) -> (user: Option<User>)
    requires
        store@.wf(),
    ensures
        match store@.by_id(user_id) {
            Some(row) => user is Some && user->0@ == row,
            None => user is None,
        },
{
    let mut i: usize = 0;
    while i < store.users.len()
        invariant
            0 <= i <= store.users.len(),
            store@.wf(),
            forall|k: int| 0 <= k < i ==> (#[trigger] store@.users[k]).id != user_id,
        decreases store.users.len() - i,
    {
        if store.users[i].id == user_id {
            proof {
                assert(store@.users[i as int].id == user_id);
                let c = choose|c: int|
                    0 <= c < store@.users.len() && (#[trigger] store@.users[c]).id == user_id;
                assert(store@.users[c].id == store@.users[i as int].id);
            }
            return Some(store.users[i].duplicate());
        }
        i = i + 1;
    }
    None
}

/// The user whose email address, in lower case, is `email`.
pub fn find_user_by_email(store: &UserStore, email: &str) -> (user: Option<User>)
    requires
        store@.wf(),
    ensures
        match store@.by_email(email@) {
            Some(row) => user is Some && user->0@ == row,
            None => user is None,
        },
{
    let wanted = String::from_str(email);
    let mut i: usize = 0;
    while i < store.users.len()
        invariant
            0 <= i <= store.users.len(),
            store@.wf(),
            wanted@ == email@,
            forall|k: int| 0 <= k < i ==> (#[trigger] store@.users[k]).email != email@,
        decreases store.users.len() - i,
    {
        if store.users[i].email == wanted {
            proof {
                assert(store@.users[i as int].email == email@);
                let c = choose|c: int|
                    0 <= c < store@.users.len() && (#[trigger] store@.users[c]).email == email@;
                assert(store@.users[c].email == store@.users[i as int].email);
            }
            return Some(store.users[i].duplicate());
        }
        i = i + 1;
    }
    None
}

/// The user with this email address, whatever the case of its letters.
pub fn get_user_by_email(store: &UserStore, email: &str) -> (user: Option<User>)
    requires
        store@.wf(),
    ensures
        match store@.by_email(lowercased(email@)) {
            Some(row) => user is Some && user->0@ == row,
            None => user is None,
        },
{
    let email = to_lowercase(email);
    find_user_by_email(store, email.as_str())
}

/// What a login comes to, given the user found for the email address and
/// what the check of the password against the user's hash said.
pub open spec fn login_outcome(user: Option<UserView>, verdict: Option<bool>) -> Result<
    i32,
    LoginError,
> {
    match user {
        None => Err(LoginError::EmailDoesNotExists),
        Some(u) => match verdict {
            None => Err(LoginError::InternalError),
            Some(false) => Err(LoginError::WrongPassword),
            Some(true) => Ok(u.id),
        },
    }
}

/// A user who has just signed up can log in with the same email address
/// and password.
pub proof fn lemma_login_after_signup(v: UsersView, row: UserView, password: Seq<char>)
    requires
        v.wf(),
        insert_flaw(v, row.username, row.email) is None,
        password_verdict(password, row.password) == Some(true),
    ensures
        login_outcome(
            v.with_user(row).by_email(row.email),
            password_verdict(password, row.password),
        ) == Ok::<i32, LoginError>(row.id),
{
    let after = v.with_user(row);
    assert(after.users[v.users.len() as int] == row);
    let i = choose|i: int|
        0 <= i < after.users.len() && (#[trigger] after.users[i]).email == row.email;
    if i < v.users.len() {
        assert(v.users[i] == after.users[i]);
    }
}

/// Decides a login from the word of the password check.
pub fn decide_login(user_id: i32, verdict: Option<bool>) -> (r: Result<i32, LoginError>)
    ensures
        r == (match verdict {
            None => Err::<i32, LoginError>(LoginError::InternalError),
            Some(false) => Err(LoginError::WrongPassword),
            Some(true) => Ok(user_id),
        }),
{
    match verdict {
        None => Err(LoginError::InternalError),
        Some(false) => Err(LoginError::WrongPassword),
        Some(true) => Ok(user_id),
    }
}

/// What the check of a password against a hash says: whether they match,
/// or nothing where the hash cannot be read.
pub fn login_verdict(password: &str, hash: &str) -> (verdict: Option<bool>)
    ensures
        verdict == password_verdict(password@, hash@),
{
    match check_password(password, hash) {
        Ok(matches) => Some(matches),
        Err(_) => None,
    }
}

/// Logs a user in: finds the user by the email address and checks the
/// password against the stored hash.
pub fn verify_user(store: &UserStore, email: &str, password: &str) -> (r: Result<i32, LoginError>)
    requires
        store@.wf(),
    ensures
        r == login_outcome(
            store@.by_email(lowercased(email@)),
            match store@.by_email(lowercased(email@)) {
                Some(u) => password_verdict(password@, u.password),
                None => None,
            },
        ),
{
    let user = match get_user_by_email(store, email) {
        Some(user) => user,
        None => {
            return Err(LoginError::EmailDoesNotExists);
        },
    };
    let verdict = login_verdict(password, user.password.as_str());
    decide_login(user.id, verdict)
}

/// Deletes a user with all that the user owns: the rows of the files, their
/// contents, the folders, and the user's row. Where a content is missing
/// the run stops there with an error: the file rows are gone, the rest is
/// not.
pub fn delete_user(
    users: &mut UserStore,
    tree: &mut TreeStore,
    blobs: &mut BlobStore,
    user_id: i32,
) -> (r: Result<(), InternalError>)
    requires
        old(users)@.wf(),
        old(tree)@.wf(),
    ensures
        final(users)@.wf(),
        final(tree)@.wf(),
        contents_deleted(
            old(blobs)@,
            file_ids(old(tree)@.files.filter(|f: FileView| f.fk_owner == user_id)),
            final(blobs)@,
            r,
        ),
        final(tree)@ == if r is Ok {
            old(tree)@.without_files_of(user_id).without_folders_of(user_id)
        } else {
            old(tree)@.without_files_of(user_id)
        },
        final(users)@ == if r is Ok {
            old(users)@.without_user(user_id)
        } else {
            old(users)@
        },
        r is Ok ==> crate::models::tree::roots_of(final(tree)@.folders, user_id) == Seq::<
            crate::models::folder::FolderView,
        >::empty(),
        forall|of: i32|
            of != user_id ==> #[trigger] crate::models::tree::roots_of(final(tree)@.folders, of)
                == crate::models::tree::roots_of(old(tree)@.folders, of),
{
    delete_user_files(tree, blobs, user_id)?;
    proof {
        let kept = |f: FileView| f.fk_owner != user_id;
        let at = lemma_filter_positions(old(tree)@.files, kept);
        assert forall|j: int| 0 <= j < tree@.files.len() implies (#[trigger] tree@.files[j]).fk_owner
            != user_id by {
            assert(tree@.files[j] == old(tree)@.files[at[j]]);
            assert(kept(old(tree)@.files[at[j]]));
        }
    }
    let folders_gone = delete_user_folders(tree, user_id);
    assert(folders_gone is Ok);
    let ghost kept_user = |u: UserView| u.id != user_id;
    let mut taken: Vec<User> = Vec::new();
    core::mem::swap(&mut users.users, &mut taken);
    let ghost rows = user_rows(taken@);
    assert(rows.take(0).filter(kept_user) == Seq::<UserView>::empty());
    assert(user_rows(users.users@) == Seq::<UserView>::empty());
    for u in iter: taken
        invariant
            rows == user_rows(iter.seq()),
            iter.seq() == old(users).users@,
            users.next_id == old(users).next_id,
            kept_user == |u: UserView| u.id != user_id,
            user_rows(users.users@) == rows.take(iter.index() as int).filter(kept_user),
    {
        let ghost i = iter.index() as int;
        proof {
            lemma_filter_step(rows, i, kept_user);
            assert(rows[i] == u@);
        }
        if u.id != user_id {
            assert(user_rows(users.users@.push(u)) == user_rows(users.users@).push(u@));
            users.users.push(u);
        }
    }
    proof {
        assert(rows.take(rows.len() as int) == rows);
        let after = users@;
        let at = lemma_filter_positions(old(users)@.users, kept_user);
        assert forall|i: int, j: int|
            0 <= i < after.users.len() && 0 <= j < after.users.len() && ((
            #[trigger] after.users[i]).id == (#[trigger] after.users[j]).id
                || after.users[i].username == after.users[j].username || after.users[i].email
                == after.users[j].email) implies i == j by {
            assert(after.users[i] == old(users)@.users[at[i]]);
            assert(after.users[j] == old(users)@.users[at[j]]);
            if i < j {
                assert(at[i] < at[j]);
            }
            if j < i {
                assert(at[j] < at[i]);
            }
        }
        assert forall|i: int| 0 <= i < after.users.len() implies (#[trigger] after.users[i]).id
            < after.next_id by {
            assert(after.users[i] == old(users)@.users[at[i]]);
        }
    }
    Ok(())
}

impl UserStore {
    /// A store without users.
    pub fn new() -> (store: UserStore)
        ensures
            store@.wf(),
            store@.users.len() == 0,
            store@.next_id == 1,
    {
        UserStore { users: Vec::new(), next_id: 1 }
    }
}

} // verus!
