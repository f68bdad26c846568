use cloud_drive::errors::{LoginError, SignupError};
use cloud_drive::models::blobs::BlobStore;
use cloud_drive::models::files_model::{delete_file_content, get_files, new_file};
use cloud_drive::models::folders_model::{get_root_folders, init_root_folders, new_folder};
use cloud_drive::models::store::TreeStore;
use cloud_drive::models::users_model::{
    hash_outcome, check_signup, decide_login, delete_user, find_user_by_email, get_user_by_email,
    get_user_by_id, insert_user, login_verdict, new_user, prepare_signup,
    signup_error_for_constraint, validate_password, validate_username, verify_user, UserStore,
};

#[test]
fn user_names_have_four_to_twenty_plain_characters() {
    assert!(validate_username("abcd"));
    assert!(validate_username("A-b_9"));
    assert!(validate_username(&"z".repeat(20)));
    assert!(validate_username("----"));
    assert!(!validate_username("abc"));
    assert!(!validate_username(""));
    assert!(!validate_username(&"z".repeat(21)));
    assert!(!validate_username("abc d"));
    assert!(!validate_username("abcdé"));
    assert!(!validate_username("aé"));
    assert!(!validate_username("ab.cd"));
    assert!(!validate_username("abcd@"));
    assert!(!validate_username("abc[`{"));
    assert!(!validate_username("ab/:cd"));
}

#[test]
fn passwords_have_at_least_eight_bytes() {
    assert!(validate_password("12345678"));
    assert!(validate_password("a much longer password"));
    assert!(!validate_password("1234567"));
    assert!(!validate_password(""));
    assert!(validate_password("éééé"));
    assert!(!validate_password("ééé"));
}

#[test]
fn the_first_flaw_of_a_signup_is_reported() {
    assert_eq!(check_signup("abc", false, "short"), Err(SignupError::InvalidUsername));
    assert_eq!(check_signup("abcd", false, "short"), Err(SignupError::InvalidEmail));
    assert_eq!(check_signup("abcd", true, "short"), Err(SignupError::ShortPassword));
    assert_eq!(check_signup("abcd", true, "long enough"), Ok(()));
}

#[test]
fn a_signup_is_prepared_with_a_lower_case_address_and_a_hash() {
    let (email, hash) = prepare_signup("alice", "Alice@Example.ORG", "password").unwrap();
    assert_eq!(email, "alice@example.org");
    assert_ne!(hash, "password");
    assert!(hash.starts_with("$2b$12$"));
    assert_eq!(hash.len(), 60);
    assert_eq!(login_verdict("password", &hash), Some(true));
    assert_eq!(login_verdict("Password", &hash), Some(false));
    assert_eq!(prepare_signup("al", "a@b.c", "password"), Err(SignupError::InvalidUsername));
    assert_eq!(prepare_signup("alice", "a b@c", "password"), Err(SignupError::InvalidEmail));
    assert_eq!(prepare_signup("alice", "", "password"), Err(SignupError::InvalidEmail));
    assert_eq!(prepare_signup("alice", "a@b.c", "passwor"), Err(SignupError::ShortPassword));
}

#[test]
fn a_password_is_checked_against_a_hash() {
    let hash = "$2a$04$UuTkLRZZ6QofpDOlMz32MuuxEHA43WOemOYHPz6.SjsVsyO1tDU96";
    assert_eq!(login_verdict("password", hash), Some(true));
    assert_eq!(login_verdict("passwort", hash), Some(false));
    assert_eq!(login_verdict("password", "password"), None);
    assert_eq!(login_verdict("password", ""), None);
    assert_eq!(decide_login(4, Some(true)), Ok(4));
    assert_eq!(decide_login(4, Some(false)), Err(LoginError::WrongPassword));
    assert_eq!(decide_login(4, None), Err(LoginError::InternalError));
}

#[test]
fn a_refused_row_tells_which_constraint_it_broke() {
    assert_eq!(
        signup_error_for_constraint(Some("users_username_key")),
        SignupError::UsernameExists
    );
    assert_eq!(signup_error_for_constraint(Some("users_email_key")), SignupError::EmailExists);
    assert_eq!(signup_error_for_constraint(Some("users_pkey")), SignupError::InternalError);
    assert_eq!(signup_error_for_constraint(Some("")), SignupError::InternalError);
    assert_eq!(signup_error_for_constraint(None), SignupError::InternalError);
}

#[test]
fn rows_of_users_share_neither_name_nor_address() {
    let mut users = UserStore::new();
    assert_eq!(insert_user(&mut users, "alice", "a@x.org", "h1".to_string()), Ok(1));
    assert_eq!(insert_user(&mut users, "bob", "b@x.org", "h2".to_string()), Ok(2));
    assert_eq!(
        insert_user(&mut users, "alice", "c@x.org", "h3".to_string()),
        Err(SignupError::UsernameExists)
    );
    assert_eq!(
        insert_user(&mut users, "carol", "b@x.org", "h3".to_string()),
        Err(SignupError::EmailExists)
    );
    assert_eq!(
        insert_user(&mut users, "bob", "a@x.org", "h3".to_string()),
        Err(SignupError::UsernameExists)
    );
    assert_eq!(insert_user(&mut users, "Alice", "A@x.org", "h3".to_string()), Ok(3));
    let bob = get_user_by_id(&users, 2).unwrap();
    assert_eq!(bob.get_id(), 2);
    assert_eq!(bob.get_username(), "bob");
    assert_eq!(bob.get_email(), "b@x.org");
    assert_eq!(bob.get_password(), "h2");
    assert!(get_user_by_id(&users, 4).is_none());
    assert_eq!(find_user_by_email(&users, "A@x.org").unwrap().get_id(), 3);
    assert_eq!(get_user_by_email(&users, "A@X.ORG").unwrap().get_id(), 1);
    assert!(find_user_by_email(&users, "z@x.org").is_none());
}

#[test]
fn a_user_signs_up_and_logs_in() {
    let mut users = UserStore::new();
    let id = new_user(&mut users, "alice", "Alice@Example.org", "hunter22").unwrap();
    assert_eq!(id, 1);
    let row = get_user_by_id(&users, 1).unwrap();
    assert_eq!(row.get_email(), "alice@example.org");
    assert_ne!(row.get_password(), "hunter22");
    assert_eq!(verify_user(&users, "alice@example.org", "hunter22"), Ok(1));
    assert_eq!(verify_user(&users, "ALICE@EXAMPLE.ORG", "hunter22"), Ok(1));
    assert_eq!(verify_user(&users, "alice@example.org", "hunter23"), Err(LoginError::WrongPassword));
    assert_eq!(
        verify_user(&users, "bob@example.org", "hunter22"),
        Err(LoginError::EmailDoesNotExists)
    );
}

#[test]
fn a_signup_is_refused_for_each_of_its_flaws() {
    let mut users = UserStore::new();
    new_user(&mut users, "alice", "alice@example.org", "hunter22").unwrap();
    assert_eq!(
        new_user(&mut users, "al", "x@example.org", "hunter22"),
        Err(SignupError::InvalidUsername)
    );
    assert_eq!(
        new_user(&mut users, "bobby", "not an address", "hunter22"),
        Err(SignupError::InvalidEmail)
    );
    assert_eq!(
        new_user(&mut users, "bobby", "bob@example.org", "hunter2"),
        Err(SignupError::ShortPassword)
    );
    assert_eq!(
        new_user(&mut users, "alice", "bob@example.org", "hunter22"),
        Err(SignupError::UsernameExists)
    );
    assert_eq!(
        new_user(&mut users, "bobby", "ALICE@example.org", "hunter22"),
        Err(SignupError::EmailExists)
    );
    assert_eq!(new_user(&mut users, "bobby", "bob@example.org", "hunter22"), Ok(2));
    assert!(get_user_by_id(&users, 3).is_none());
}

#[test]
fn a_hash_that_cannot_be_read_fails_the_login() {
    let mut users = UserStore::new();
    insert_user(&mut users, "alice", "a@x.org", "no hash".to_string()).unwrap();
    assert_eq!(verify_user(&users, "a@x.org", "no hash"), Err(LoginError::InternalError));
}

fn populated() -> (UserStore, TreeStore, BlobStore) {
    let mut users = UserStore::new();
    let mut tree = TreeStore::new();
    let mut blobs = BlobStore::new();
    for (name, mail) in [("alice", "a@x.org"), ("bobby", "b@x.org")] {
        let id = insert_user(&mut users, name, mail, "h".to_string()).unwrap();
        init_root_folders(&mut tree, id, 0).unwrap();
    }
    new_folder(&mut tree, "docs", 1, 1, 0).unwrap();
    new_file(&mut tree, &mut blobs, "a", b"1", 5, 1, 0).unwrap();
    new_file(&mut tree, &mut blobs, "b", b"2", 3, 2, 0).unwrap();
    new_file(&mut tree, &mut blobs, "c", b"3", 2, 1, 0).unwrap();
    (users, tree, blobs)
}

#[test]
fn deleting_a_user_takes_all_that_the_user_owns() {
    let (mut users, mut tree, mut blobs) = populated();
    delete_user(&mut users, &mut tree, &mut blobs, 1).unwrap();
    assert!(get_user_by_id(&users, 1).is_none());
    assert_eq!(get_user_by_id(&users, 2).unwrap().get_username(), "bobby");
    assert!(get_root_folders(&tree, 1).is_empty());
    assert!(!tree.owns_folder(5, 1));
    assert_eq!(get_root_folders(&tree, 2).len(), 2);
    assert_eq!(get_files(&tree, 3, 2).len(), 1);
    assert!(!blobs.holds(1) && blobs.holds(2) && !blobs.holds(3));
    delete_user(&mut users, &mut tree, &mut blobs, 1).unwrap();
    delete_user(&mut users, &mut tree, &mut blobs, 9).unwrap();
    assert_eq!(get_root_folders(&tree, 2).len(), 2);
}

#[test]
fn a_missing_content_stops_the_delete_of_a_user() {
    let (mut users, mut tree, mut blobs) = populated();
    delete_file_content(&mut blobs, 1).unwrap();
    let e = delete_user(&mut users, &mut tree, &mut blobs, 1).unwrap_err();
    assert_eq!(e.0, "Failed to delete content for file '1'");
    assert!(get_user_by_id(&users, 1).is_some());
    assert_eq!(get_root_folders(&tree, 1).len(), 2);
    assert!(get_files(&tree, 5, 1).is_empty() && get_files(&tree, 2, 1).is_empty());
    assert!(blobs.holds(3));
}

#[test]
fn a_failed_hashing_fails_the_signup() {
    assert_eq!(hash_outcome(Ok("hash".to_string())), Ok("hash".to_string()));
    assert_eq!(
        hash_outcome(Err(bcrypt::BcryptError::CostNotAllowed(99))),
        Err(SignupError::InternalError)
    );
}
