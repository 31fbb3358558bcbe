//! The typed failures that the core reports, and what the transport makes of
//! each.

use vstd::prelude::*;
use vstd::string::*;

verus! {

/// Every failure the core can report.
#[derive(Debug, Clone, Copy, PartialEq, Eq, Structural)]
pub enum CoreError {
    /// A registration asked for a name that is already taken.
    UserExists,
    /// Name and password together match no registered user.
    AuthFailed,
    /// No cookie, an unreadable cookie, or a token that no live session holds.
    SessionMissing,
    /// A user or file name that is not a safe path component.
    InvalidFilename,
    /// The named file does not exist.
    FileMissing,
    /// The file system failed.
    StorageUnavailable,
    /// The journal does not describe a registry.
    StorageCorrupt,
    /// An invariant of the core was found broken.
    InternalError,
}

/// What the transport does with a failure.
#[derive(Debug, Clone, Copy, PartialEq, Eq, Structural)]
pub enum Disposition {
    /// Show the registration page again, with the message.
    RenderSignup,
    /// Show the login page again, with the message.
    RenderLogin,
    /// Send the client to the login page.
    RedirectToLogin,
    /// Answer with this status.
    Status(u16),
    /// Do not start at all.
    Abort,
}

impl CoreError {
    /// What the transport does with this failure.
    pub fn disposition(&self) -> (d: Disposition)
        ensures
            d == match *self {
                CoreError::UserExists => Disposition::RenderSignup,
                CoreError::AuthFailed => Disposition::RenderLogin,
                CoreError::SessionMissing => Disposition::RedirectToLogin,
                CoreError::InvalidFilename => Disposition::Status(400),
                CoreError::FileMissing => Disposition::Status(404),
                CoreError::StorageUnavailable => Disposition::Status(500),
                CoreError::StorageCorrupt => Disposition::Abort,
                CoreError::InternalError => Disposition::Status(500),
            },
    {
        match self {
            CoreError::UserExists => Disposition::RenderSignup,
            CoreError::AuthFailed => Disposition::RenderLogin,
            CoreError::SessionMissing => Disposition::RedirectToLogin,
            CoreError::InvalidFilename => Disposition::Status(400),
            CoreError::FileMissing => Disposition::Status(404),
            CoreError::StorageUnavailable => Disposition::Status(500),
            CoreError::StorageCorrupt => Disposition::Abort,
            CoreError::InternalError => Disposition::Status(500),
        }
    }

    /// The sentence a page shows for this failure. A failed login gets one
    /// sentence, whether the name or the password was wrong.
    pub fn message(&self) -> (text: String)
        ensures
            text@ == match *self {
                CoreError::UserExists => "A user of that name already exists."@,
                CoreError::AuthFailed => "User name or password provided doesn't correspond to any existing users."@,
                CoreError::SessionMissing => "Session ID in cookie doesn't match any live on the server."@,
                CoreError::InvalidFilename => "That is not a usable file name."@,
                CoreError::FileMissing => "There is no such file."@,
                CoreError::StorageUnavailable => "The storage is unavailable."@,
                CoreError::StorageCorrupt => "The user journal cannot be read."@,
                CoreError::InternalError => "Something went wrong."@,
            },
    {
        match self {
            CoreError::UserExists => String::from_str("A user of that name already exists."),
            CoreError::AuthFailed => String::from_str(
                "User name or password provided doesn't correspond to any existing users.",
            ),
            CoreError::SessionMissing => String::from_str(
                "Session ID in cookie doesn't match any live on the server.",
            ),
            CoreError::InvalidFilename => String::from_str("That is not a usable file name."),
            CoreError::FileMissing => String::from_str("There is no such file."),
            CoreError::StorageUnavailable => String::from_str("The storage is unavailable."),
            CoreError::StorageCorrupt => String::from_str("The user journal cannot be read."),
            CoreError::InternalError => String::from_str("Something went wrong."),
        }
    }
}

} // verus!
