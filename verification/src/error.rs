use vstd::prelude::*;

verus! {

/// Errors of the permission manager.
///
/// The variants fall into four categories: storage failures (`Storage`,
/// transient), caller mistakes (`Config`, `User`, `InvalidDuration`,
/// `CommandNotAllowed`, `GroupRequirementNotMet`, `UserNotFound`),
/// failures of the external identity lookup (`SystemCommand`, transient),
/// and file-synchronization failures (`Io`).
#[derive(Debug)]
pub enum PermissionError {
    /// The ledger's storage engine failed; retrying may succeed.
    Storage(String),
    /// A file operation failed at the given path.
    Io { path: String },
    /// The configuration is invalid.
    Config(String),
    /// A user-related request could not be served.
    User(String),
    /// An external identity-lookup command failed to run.
    SystemCommand { cmd: String },
    /// The caller lacks the privilege for the attempted operation.
    PermissionDenied(String),
    /// The requested duration is not positive or exceeds the policy's
    /// maximum, which is carried in minutes.
    InvalidDuration { max_minutes: i64 },
    /// The command is not a key of the policy configuration.
    CommandNotAllowed(String),
    /// The user is not a member of a group the policy requires.
    GroupRequirementNotMet { user: String, group: String },
    /// The user does not exist on the system.
    UserNotFound(String),
    /// The grant under use has expired.
    AccessExpired,
}

impl PermissionError {
    /// Creates a new I/O error for the given path.
    pub fn io_error(path: String) -> (e: Self)
        ensures
            e matches PermissionError::Io { path: p } && p@ == path@,
    {
        PermissionError::Io { path }
    }

    /// Creates a new error for a failed external command.
    pub fn system_command(cmd: String) -> (e: Self)
        ensures
            e matches PermissionError::SystemCommand { cmd: c } && c@ == cmd@,
    {
        PermissionError::SystemCommand { cmd }
    }

    /// True iff the error reports insufficient privilege.
    pub fn is_permission_denied(&self) -> (r: bool)
        ensures
            r == (self is PermissionDenied),
    {
        match self {
            PermissionError::PermissionDenied(_) => true,
            _ => false,
        }
    }

    /// True iff the error is about the user named in the request.
    pub fn is_user_error(&self) -> (r: bool)
        ensures
            r == (self is User || self is UserNotFound || self is GroupRequirementNotMet),
    {
        match self {
            PermissionError::User(_) => true,
            PermissionError::UserNotFound(_) => true,
            PermissionError::GroupRequirementNotMet { .. } => true,
            _ => false,
        }
    }

    /// True iff retrying the failed operation may succeed.
    pub fn is_transient(&self) -> (r: bool)
        ensures
            r == (self is Storage || self is SystemCommand),
    {
        match self {
            PermissionError::Storage(_) => true,
            PermissionError::SystemCommand { .. } => true,
            _ => false,
        }
    }
}

} // verus!
