//! Error types of the storage core.

use vstd::prelude::*;
use vstd::string::StringExecFns;

verus! {

/// Why a signup was refused.
#[derive(Debug, Clone, Copy, PartialEq, Eq, Structural)]
pub enum SignupError {
    UsernameExists,
    EmailExists,
    InvalidUsername,
    InvalidEmail,
    ShortPassword,
    InternalError,
}

impl SignupError {
    /// The text shown for this error.
    pub open spec fn message_text(self) -> Seq<char> {
        match self {
            SignupError::UsernameExists => "Username already exists"@,
            SignupError::EmailExists => "Email already exists"@,
            SignupError::InvalidUsername => "Invalid username"@,
            SignupError::InvalidEmail => "Invalid email"@,
            SignupError::ShortPassword => "Password too short"@,
            SignupError::InternalError => "Internal error"@,
        }
    }

    /// Renders the error as text.
    pub fn message(&self) -> (text: String)
        ensures
            text@ == self.message_text(),
    {
        match self {
            SignupError::UsernameExists => String::from_str("Username already exists"),
            SignupError::EmailExists => String::from_str("Email already exists"),
            SignupError::InvalidUsername => String::from_str("Invalid username"),
            SignupError::InvalidEmail => String::from_str("Invalid email"),
            SignupError::ShortPassword => String::from_str("Password too short"),
            SignupError::InternalError => String::from_str("Internal error"),
        }
    }
}

/// Why a login was refused.
#[derive(Debug, Clone, Copy, PartialEq, Eq, Structural)]
pub enum LoginError {
    EmailDoesNotExists,
    WrongPassword,
    InternalError,
}

impl LoginError {
    /// The text shown for this error.
    pub open spec fn message_text(self) -> Seq<char> {
        match self {
            LoginError::EmailDoesNotExists => "Email does not exist"@,
            LoginError::WrongPassword => "Wrong password"@,
            LoginError::InternalError => "Internal error"@,
        }
    }

    /// Renders the error as text.
    pub fn message(&self) -> (text: String)
        ensures
            text@ == self.message_text(),
    {
        match self {
            LoginError::EmailDoesNotExists => String::from_str("Email does not exist"),
            LoginError::WrongPassword => String::from_str("Wrong password"),
            LoginError::InternalError => String::from_str("Internal error"),
        }
    }
}

/// Why an operation on a file or folder was refused.
#[derive(Debug, Clone, Copy, PartialEq, Eq, Structural)]
pub enum FileError {
    NameError,
    InternalError,
}

impl FileError {
    /// The text shown for this error.
    pub open spec fn message_text(self) -> Seq<char> {
        match self {
            FileError::NameError => "Invalid file name"@,
            FileError::InternalError => "Internal error"@,
        }
    }

    /// Renders the error as text.
    pub fn message(&self) -> (text: String)
        ensures
            text@ == self.message_text(),
    {
        match self {
            FileError::NameError => String::from_str("Invalid file name"),
            FileError::InternalError => String::from_str("Internal error"),
        }
    }
}

/// A failure of one of the stores, with a description.
#[derive(Debug)]
pub struct InternalError(pub String);

impl InternalError {
    /// An error with the given description.
    pub fn new(description: &str) -> (e: InternalError)
        ensures
            e.0@ == description@,
    {
        InternalError(String::from_str(description))
    }

    /// An error whose description is `before`, then `id` in decimal, then
    /// `after`.
    pub fn about(before: &str, id: i32, after: &str) -> (e: InternalError)
        ensures
            e.0@ == before@ + crate::text::signed_decimal(id as int) + after@,
    {
        let mut text = String::from_str(before);
        crate::text::push_signed_decimal(&mut text, id);
        text.append(after);
        InternalError(text)
    }

    /// Renders the error as text.
    pub fn message(&self) -> (text: String)
        ensures
            text@ == "Internal error: "@ + self.0@,
    {
        let mut text = String::from_str("Internal error: ");
        text.append(self.0.as_str());
        text
    }
}

} // verus!
