//! The error type of every command, with stable codes and documented exit
//! statuses.
//!
//! Every failure is shown as one envelope with `ok: false`, a stable
//! machine-readable `code`, a documented `exit` status and a paste-ready
//! `suggested_fix`, so that an agent can correct itself.

use vstd::prelude::*;

verus! {

broadcast use vstd::string::group_string_axioms;

/// Exit status for a usage error.
pub const EXIT_USAGE: i32 = 2;
/// Exit status for unusable input (sysexits `EX_DATAERR`).
pub const EXIT_BAD_INPUT: i32 = 65;
/// Exit status for a missing record (sysexits `EX_NOINPUT`).
pub const EXIT_NOT_FOUND: i32 = 66;
/// Exit status for an internal failure (sysexits `EX_SOFTWARE`).
pub const EXIT_INTERNAL: i32 = 70;
/// Exit status for an I/O failure (sysexits `EX_IOERR`).
pub const EXIT_IO: i32 = 74;
/// Exit status for a lock timeout; the command may be retried.
pub const EXIT_LOCK_TIMEOUT: i32 = 75;
/// Exit status for a permission failure (sysexits `EX_NOPERM`).
pub const EXIT_PERM_DENIED: i32 = 77;
/// Exit status for invalid configuration (sysexits `EX_CONFIG`).
pub const EXIT_CONFIG: i32 = 78;

/// The canonical error type for every command. `Io` holds the I/O error's
/// message and `LockTimeout` the journal's path as shown.
pub enum Error {
    Usage(String),
    BadInput(String),
    NotFound(String),
    Internal(String),
    Io(String),
    LockTimeout(String),
    PermDenied(String),
    Config(String),
}

/// The documented exit status of each kind of error.
pub open spec fn exit_status(e: Error) -> i32 {
    match e {
        Error::Usage(_) => EXIT_USAGE,
        Error::BadInput(_) => EXIT_BAD_INPUT,
        Error::NotFound(_) => EXIT_NOT_FOUND,
        Error::Internal(_) => EXIT_INTERNAL,
        Error::Io(_) => EXIT_IO,
        Error::LockTimeout(_) => EXIT_LOCK_TIMEOUT,
        Error::PermDenied(_) => EXIT_PERM_DENIED,
        Error::Config(_) => EXIT_CONFIG,
    }
}

/// The stable machine-readable code of each kind of error.
pub open spec fn error_code(e: Error) -> Seq<char> {
    match e {
        Error::Usage(_) => "E_USAGE"@,
        Error::BadInput(_) => "E_BAD_INPUT"@,
        Error::NotFound(_) => "E_NOT_FOUND"@,
        Error::Internal(_) => "E_INTERNAL"@,
        Error::Io(_) => "E_IO"@,
        Error::LockTimeout(_) => "E_LOCK_TIMEOUT"@,
        Error::PermDenied(_) => "E_PERM_DENIED"@,
        Error::Config(_) => "E_CONFIG"@,
    }
}

/// The human-readable message of each kind of error.
pub open spec fn error_message(e: Error) -> Seq<char> {
    match e {
        Error::NotFound(id) => "record "@ + id@ + " not found"@,
        Error::LockTimeout(path) => "timed out acquiring lock on "@ + path@
            + " (another writer holds it)"@,
        Error::Usage(m) => m@,
        Error::BadInput(m) => m@,
        Error::Internal(m) => m@,
        Error::Io(m) => m@,
        Error::PermDenied(m) => m@,
        Error::Config(m) => m@,
    }
}

/// The recovery advice of each kind of error.
pub open spec fn error_fix(e: Error) -> Seq<char> {
    match e {
        Error::Usage(_) => "Check `papercuts --help` for the correct arguments and flags."@,
        Error::BadInput(_) => "The provided input was not usable. Fix the argument and retry."@,
        Error::NotFound(id) => "No record matched '"@ + id@
            + "'. Use `papercuts list` to see current open IDs, then retry with a full or unique-prefix ID."@,
        Error::Internal(_) => "Unexpected internal failure. Report the output to the maintainers."@,
        Error::Io(_) => "The file could not be read or written. Check permissions, disk space, and that the path is not on a read-only volume."@,
        Error::LockTimeout(path) => "Another process is writing to "@ + path@
            + ". Retry the command in a moment (this error is retryable)."@,
        Error::PermDenied(_) => "Permission was denied. Check file and directory permissions."@,
        Error::Config(_) => "Configuration is invalid. Fix the referenced setting or unset it and retry."@,
    }
}

/// `a`, then `b`, then `c`, as one string.
pub fn concat3(a: &str, b: &str, c: &str) -> (res: String)
    ensures
        res@ == a@ + b@ + c@,
{
    let mut res = a.to_string();
    res.append(b);
    res.append(c);
    res
}

impl Error {
    /// Stable machine-readable code for this error.
    pub fn code(&self) -> (res: &'static str)
        ensures
            res@ == error_code(*self),
    {
        match self {
            Error::Usage(_) => "E_USAGE",
            Error::BadInput(_) => "E_BAD_INPUT",
            Error::NotFound(_) => "E_NOT_FOUND",
            Error::Internal(_) => "E_INTERNAL",
            Error::Io(_) => "E_IO",
            Error::LockTimeout(_) => "E_LOCK_TIMEOUT",
            Error::PermDenied(_) => "E_PERM_DENIED",
            Error::Config(_) => "E_CONFIG",
        }
    }

    /// Documented exit status for this error.
    pub fn exit(&self) -> (res: i32)
        ensures
            res == exit_status(*self),
    {
        match self {
            Error::Usage(_) => EXIT_USAGE,
            Error::BadInput(_) => EXIT_BAD_INPUT,
            Error::NotFound(_) => EXIT_NOT_FOUND,
            Error::Internal(_) => EXIT_INTERNAL,
            Error::Io(_) => EXIT_IO,
            Error::LockTimeout(_) => EXIT_LOCK_TIMEOUT,
            Error::PermDenied(_) => EXIT_PERM_DENIED,
            Error::Config(_) => EXIT_CONFIG,
        }
    }

    /// The message shown for this error.
    pub fn message(&self) -> (res: String)
        ensures
            res@ == error_message(*self),
    {
        match self {
            Error::NotFound(id) => concat3("record ", id.as_str(), " not found"),
            Error::LockTimeout(path) => concat3(
                "timed out acquiring lock on ",
                path.as_str(),
                " (another writer holds it)",
            ),
            Error::Usage(m) => m.clone(),
            Error::BadInput(m) => m.clone(),
            Error::Internal(m) => m.clone(),
            Error::Io(m) => m.clone(),
            Error::PermDenied(m) => m.clone(),
            Error::Config(m) => m.clone(),
        }
    }

    /// Human guidance an agent can act on to recover, without help.
    pub fn suggested_fix(&self) -> (res: String)
        ensures
            res@ == error_fix(*self),
    {
        match self {
            Error::Usage(_) => "Check `papercuts --help` for the correct arguments and flags.".to_string(),
            Error::BadInput(_) => "The provided input was not usable. Fix the argument and retry.".to_string(),
            Error::NotFound(id) => concat3(
                "No record matched '",
                id.as_str(),
                "'. Use `papercuts list` to see current open IDs, then retry with a full or unique-prefix ID.",
            ),
            Error::Internal(_) => "Unexpected internal failure. Report the output to the maintainers.".to_string(),
            Error::Io(_) => "The file could not be read or written. Check permissions, disk space, and that the path is not on a read-only volume.".to_string(),
            Error::LockTimeout(path) => concat3(
                "Another process is writing to ",
                path.as_str(),
                ". Retry the command in a moment (this error is retryable).",
            ),
            Error::PermDenied(_) => "Permission was denied. Check file and directory permissions.".to_string(),
            Error::Config(_) => "Configuration is invalid. Fix the referenced setting or unset it and retry.".to_string(),
        }
    }
}

/// The body of an error envelope.
pub struct ErrorBody {
    pub code: String,
    pub exit: i32,
    pub message: String,
    pub suggested_fix: String,
}

/// An error as shown on stderr: `ok` is false, and the body names the error.
pub struct ErrorEnvelope {
    pub ok: bool,
    pub error: ErrorBody,
}

impl ErrorEnvelope {
    /// The envelope for an error.
    pub fn of(e: &Error) -> (res: ErrorEnvelope)
        ensures
            !res.ok,
            res.error.code@ == error_code(*e),
            res.error.exit == exit_status(*e),
            res.error.message@ == error_message(*e),
            res.error.suggested_fix@ == error_fix(*e),
    {
        ErrorEnvelope {
            ok: false,
            error: ErrorBody {
                code: e.code().to_string(),
                exit: e.exit(),
                message: e.message(),
                suggested_fix: e.suggested_fix(),
            },
        }
    }
}

/// A usage error with the given message.
pub fn usage(s: String) -> (res: Error)
    ensures
        res == Error::Usage(s),
{
    Error::Usage(s)
}

/// A bad-input error with the given message.
pub fn bad_input(s: String) -> (res: Error)
    ensures
        res == Error::BadInput(s),
{
    Error::BadInput(s)
}

/// An internal error with the given message.
pub fn internal(s: String) -> (res: Error)
    ensures
        res == Error::Internal(s),
{
    Error::Internal(s)
}

/// A not-found error for the given id.
pub fn not_found(s: String) -> (res: Error)
    ensures
        res == Error::NotFound(s),
{
    Error::NotFound(s)
}

/// A configuration error with the given message.
pub fn config(s: String) -> (res: Error)
    ensures
        res == Error::Config(s),
{
    Error::Config(s)
}

} // verus!
