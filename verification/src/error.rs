//! The canonical error type and its exit-code mapping.

use vstd::prelude::*;

use crate::text::{decimal, decimal_text, push_str};

verus! {

/// Canonical error type used across the library.
///
/// Each variant carries enough context for callers to make decisions and to
/// be mapped to CLI exit codes.
#[derive(Debug, Clone)]
pub enum Error {
    /// A URL could not be parsed or did not use an accepted scheme.
    InvalidUrl(String),
    /// A filesystem path was rejected by the path validator.
    InvalidPath(String),
    /// A file name was rejected (empty, control chars, reserved name, etc.).
    InvalidFileName(String),
    /// A network-level failure (DNS, TCP, TLS handshake, timeout, ...).
    Network(String),
    /// An HTTP error response was received.
    Http {
        /// HTTP status code.
        status: u16,
        /// URL the error originated from.
        url: String,
    },
    /// A redirect chain was too long or invalid.
    TooManyRedirects {
        /// Configured redirect cap.
        limit: usize,
    },
    /// The server sent an unexpected or malformed response.
    InvalidResponse(String),
    /// The server does not support range requests where one was required.
    RangeRequestsUnsupported,
    /// A filesystem error occurred.
    Filesystem(String),
    /// The target file already exists and overwriting was not allowed.
    AlreadyExists(String),
    /// There was not enough free disk space for the download.
    InsufficientDiskSpace {
        /// Required bytes.
        needed: u64,
        /// Available bytes.
        available: u64,
    },
    /// The download was cancelled by the user or the orchestrator.
    Cancelled,
    /// The download was interrupted and could not be resumed in this run.
    Interrupted,
    /// An internal invariant was violated, or a request made no sense in the
    /// current state.
    Internal(String),
}

/// Errors that must not be retried.
pub open spec fn fatal_spec(e: Error) -> bool {
    match e {
        Error::InvalidUrl(_) | Error::InvalidPath(_) | Error::InvalidFileName(_) | Error::Http {
            ..
        } | Error::TooManyRedirects { .. } | Error::InvalidResponse(_) | Error::AlreadyExists(_)
        | Error::InsufficientDiskSpace { .. } | Error::Cancelled | Error::Internal(_) => true,
        Error::Network(_) | Error::RangeRequestsUnsupported | Error::Filesystem(_)
        | Error::Interrupted => false,
    }
}

/// The human-readable description of an error.
pub open spec fn error_text(e: Error) -> Seq<char> {
    match e {
        Error::InvalidUrl(s) => "invalid URL: "@ + s@,
        Error::InvalidPath(s) => "invalid path: "@ + s@,
        Error::InvalidFileName(s) => "invalid file name: "@ + s@,
        Error::Network(s) => "network error: "@ + s@,
        Error::Http { status, url } => "HTTP error: status "@ + decimal(status as nat) + " for "@
            + url@,
        Error::TooManyRedirects { limit } => "too many redirects (limit: "@ + decimal(limit as nat)
            + ")"@,
        Error::InvalidResponse(s) => "invalid HTTP response: "@ + s@,
        Error::RangeRequestsUnsupported => "range requests not supported by server"@,
        Error::Filesystem(s) => "filesystem error: "@ + s@,
        Error::AlreadyExists(s) => "file already exists at "@ + s@,
        Error::InsufficientDiskSpace { needed, available } => "insufficient disk space: need "@
            + decimal(needed as nat) + " bytes, have "@ + decimal(available as nat),
        Error::Cancelled => "download cancelled"@,
        Error::Interrupted => "download interrupted"@,
        Error::Internal(s) => "internal error: "@ + s@,
    }
}

impl Error {
    /// Returns `true` if the error is fatal and should not be retried.
    pub fn is_fatal(&self) -> (r: bool)
        ensures
            r == fatal_spec(*self),
    {
        match self {
            Error::InvalidUrl(_) | Error::InvalidPath(_) | Error::InvalidFileName(_) | Error::Http {
                ..
            } | Error::TooManyRedirects { .. } | Error::InvalidResponse(_)
            | Error::AlreadyExists(_) | Error::InsufficientDiskSpace { .. } | Error::Cancelled
            | Error::Internal(_) => true,
            _ => false,
        }
    }

    /// The human-readable description of the error.
    pub fn message(&self) -> (r: String)
        ensures
            r@ == error_text(*self),
    {
        let mut m = String::new();
        match self {
            Error::InvalidUrl(s) => {
                push_str(&mut m, "invalid URL: ");
                push_str(&mut m, s.as_str());
            },
            Error::InvalidPath(s) => {
                push_str(&mut m, "invalid path: ");
                push_str(&mut m, s.as_str());
            },
            Error::InvalidFileName(s) => {
                push_str(&mut m, "invalid file name: ");
                push_str(&mut m, s.as_str());
            },
            Error::Network(s) => {
                push_str(&mut m, "network error: ");
                push_str(&mut m, s.as_str());
            },
            Error::Http { status, url } => {
                push_str(&mut m, "HTTP error: status ");
                let d = decimal_text(*status as u64);
                push_str(&mut m, d.as_str());
                push_str(&mut m, " for ");
                push_str(&mut m, url.as_str());
            },
            Error::TooManyRedirects { limit } => {
                push_str(&mut m, "too many redirects (limit: ");
                let d = decimal_text(*limit as u64);
                push_str(&mut m, d.as_str());
                push_str(&mut m, ")");
            },
            Error::InvalidResponse(s) => {
                push_str(&mut m, "invalid HTTP response: ");
                push_str(&mut m, s.as_str());
            },
            Error::RangeRequestsUnsupported => {
                push_str(&mut m, "range requests not supported by server");
            },
            Error::Filesystem(s) => {
                push_str(&mut m, "filesystem error: ");
                push_str(&mut m, s.as_str());
            },
            Error::AlreadyExists(s) => {
                push_str(&mut m, "file already exists at ");
                push_str(&mut m, s.as_str());
            },
            Error::InsufficientDiskSpace { needed, available } => {
                push_str(&mut m, "insufficient disk space: need ");
                let d = decimal_text(*needed);
                push_str(&mut m, d.as_str());
                push_str(&mut m, " bytes, have ");
                let d2 = decimal_text(*available);
                push_str(&mut m, d2.as_str());
            },
            Error::Cancelled => {
                push_str(&mut m, "download cancelled");
            },
            Error::Interrupted => {
                push_str(&mut m, "download interrupted");
            },
            Error::Internal(s) => {
                push_str(&mut m, "internal error: ");
                push_str(&mut m, s.as_str());
            },
        }
        m
    }
}

/// Process exit codes of the command line tool, stable and documented.
#[derive(Debug, Clone, Copy, PartialEq, Eq, Structural)]
pub enum ExitCode {
    /// Successful execution (0).
    Success,
    /// Invalid argument: bad URL, bad path, bad flag (2).
    InvalidArgument,
    /// Network error: DNS, connect, TLS, timeout (3).
    Network,
    /// HTTP error: 4xx, 5xx (4).
    Http,
    /// Filesystem error: permissions, disk full, ... (5).
    Filesystem,
    /// User-initiated cancellation (6).
    Cancelled,
    /// Internal or unexpected error (7).
    Internal,
}

/// The documented numeric value of each exit code.
pub open spec fn exit_number(c: ExitCode) -> u8 {
    match c {
        ExitCode::Success => 0,
        ExitCode::InvalidArgument => 2,
        ExitCode::Network => 3,
        ExitCode::Http => 4,
        ExitCode::Filesystem => 5,
        ExitCode::Cancelled => 6,
        ExitCode::Internal => 7,
    }
}

/// The exit code each error is reported with.
pub open spec fn exit_for(e: Error) -> ExitCode {
    match e {
        Error::InvalidUrl(_) | Error::InvalidPath(_) | Error::InvalidFileName(_)
        | Error::InvalidResponse(_) | Error::TooManyRedirects { .. } => ExitCode::InvalidArgument,
        Error::Network(_) => ExitCode::Network,
        Error::Http { .. } | Error::RangeRequestsUnsupported => ExitCode::Http,
        Error::Filesystem(_) | Error::InsufficientDiskSpace { .. } | Error::AlreadyExists(_) =>
            ExitCode::Filesystem,
        Error::Cancelled | Error::Interrupted => ExitCode::Cancelled,
        Error::Internal(_) => ExitCode::Internal,
    }
}

impl ExitCode {
    /// Maps a domain error into the appropriate exit code.
    pub fn from_error(err: &Error) -> (r: ExitCode)
        ensures
            r == exit_for(*err),
    {
        match err {
            Error::InvalidUrl(_) | Error::InvalidPath(_) | Error::InvalidFileName(_)
            | Error::InvalidResponse(_) | Error::TooManyRedirects { .. } =>
                ExitCode::InvalidArgument,
            Error::Network(_) => ExitCode::Network,
            Error::Http { .. } | Error::RangeRequestsUnsupported => ExitCode::Http,
            Error::Filesystem(_) | Error::InsufficientDiskSpace { .. } | Error::AlreadyExists(_) =>
                ExitCode::Filesystem,
            Error::Cancelled | Error::Interrupted => ExitCode::Cancelled,
            Error::Internal(_) => ExitCode::Internal,
        }
    }

    /// The numeric process exit status.
    pub fn code(self) -> (r: u8)
        ensures
            r == exit_number(self),
    {
        match self {
            ExitCode::Success => 0,
            ExitCode::InvalidArgument => 2,
            ExitCode::Network => 3,
            ExitCode::Http => 4,
            ExitCode::Filesystem => 5,
            ExitCode::Cancelled => 6,
            ExitCode::Internal => 7,
        }
    }
}

/// Only success exits with status 0, and distinct exit codes have distinct
/// statuses.
pub proof fn law_exit_numbers_distinct(a: ExitCode, b: ExitCode, e: Error)
    ensures
        exit_number(a) == exit_number(b) ==> a == b,
        exit_number(exit_for(e)) != 0,
{
}

} // verus!
