use cloud_drive::errors::{FileError, InternalError, LoginError, SignupError};

#[test]
fn signup_errors_say_what_went_wrong() {
    assert_eq!(SignupError::UsernameExists.message(), "Username already exists");
    assert_eq!(SignupError::EmailExists.message(), "Email already exists");
    assert_eq!(SignupError::InvalidUsername.message(), "Invalid username");
    assert_eq!(SignupError::InvalidEmail.message(), "Invalid email");
    assert_eq!(SignupError::ShortPassword.message(), "Password too short");
    assert_eq!(SignupError::InternalError.message(), "Internal error");
}

#[test]
fn login_errors_say_what_went_wrong() {
    assert_eq!(LoginError::EmailDoesNotExists.message(), "Email does not exist");
    assert_eq!(LoginError::WrongPassword.message(), "Wrong password");
    assert_eq!(LoginError::InternalError.message(), "Internal error");
}

#[test]
fn file_errors_say_what_went_wrong() {
    assert_eq!(FileError::NameError.message(), "Invalid file name");
    assert_eq!(FileError::InternalError.message(), "Internal error");
}

#[test]
fn internal_errors_carry_their_description() {
    let e = InternalError::new("Session error");
    assert_eq!(e.0, "Session error");
    assert_eq!(e.message(), "Internal error: Session error");
    let e = InternalError::about("file '", -3, "' is gone");
    assert_eq!(e.0, "file '-3' is gone");
    assert_eq!(InternalError(String::new()).message(), "Internal error: ");
}
