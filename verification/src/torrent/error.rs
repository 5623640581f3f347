//! Errors of the torrent backend and their mapping to the canonical error.

use vstd::prelude::*;

use crate::text::{contains_text, has_infix, push_str};

verus! {

/// Canonical error type for the torrent backend.
#[derive(Debug, Clone)]
pub enum Error {
    /// The input could not be parsed as a magnet URI or torrent file.
    InvalidInput(String),
    /// A file path inside the torrent was rejected by the path validator.
    InvalidPath(String),
    /// The torrent metadata contains duplicate or colliding paths.
    DuplicatePath(String),
    /// The torrent contains a path that would escape the output root.
    PathEscapesRoot(String),
    /// The destination already exists and overwrite was not allowed.
    AlreadyExists(String),
    /// The download was cancelled by the user or the orchestrator.
    Cancelled,
    /// A network-level failure.
    Network(String),
    /// A filesystem error occurred.
    Filesystem(String),
    /// The backend received an unexpected internal state.
    Internal(String),
}

/// The human-readable text of a torrent error.
pub open spec fn torrent_error_text(e: Error) -> Seq<char> {
    match e {
        Error::InvalidInput(m) => "invalid torrent input: "@ + m@,
        Error::InvalidPath(m) => "invalid torrent path: "@ + m@,
        Error::DuplicatePath(m) => "duplicate torrent path: "@ + m@,
        Error::PathEscapesRoot(m) => "path escapes output root: "@ + m@,
        Error::AlreadyExists(m) => "destination already exists: "@ + m@,
        Error::Cancelled => "torrent cancelled"@,
        Error::Network(m) => "torrent network error: "@ + m@,
        Error::Filesystem(m) => "torrent filesystem error: "@ + m@,
        Error::Internal(m) => "torrent internal error: "@ + m@,
    }
}

/// `prefix` followed by `m`, as a new string.
fn prefixed(prefix: &str, m: &String) -> (r: String)
    ensures
        r@ == prefix@ + m@,
{
    let mut s = String::new();
    push_str(&mut s, prefix);
    push_str(&mut s, m.as_str());
    s
}

impl Error {
    /// The human-readable text of the error.
    pub fn message(&self) -> (r: String)
        ensures
            r@ == torrent_error_text(*self),
    {
        match self {
            Error::InvalidInput(m) => prefixed("invalid torrent input: ", m),
            Error::InvalidPath(m) => prefixed("invalid torrent path: ", m),
            Error::DuplicatePath(m) => prefixed("duplicate torrent path: ", m),
            Error::PathEscapesRoot(m) => prefixed("path escapes output root: ", m),
            Error::AlreadyExists(m) => prefixed("destination already exists: ", m),
            Error::Cancelled => {
                let mut s = String::new();
                push_str(&mut s, "torrent cancelled");
                s
            },
            Error::Network(m) => prefixed("torrent network error: ", m),
            Error::Filesystem(m) => prefixed("torrent filesystem error: ", m),
            Error::Internal(m) => prefixed("torrent internal error: ", m),
        }
    }
}

/// The text speaks of a rejected, escaping or duplicate path.
pub open spec fn speaks_of_path(t: Seq<char>) -> bool {
    has_infix(t, "invalid torrent path"@) || has_infix(t, "path escapes"@) || has_infix(
        t,
        "duplicate torrent path"@,
    )
}

/// The text speaks of something that exists or is active already.
pub open spec fn speaks_of_existing(t: Seq<char>) -> bool {
    has_infix(t, "already exists"@) || has_infix(t, "already active"@)
}

/// The text speaks of the filesystem or the output root.
pub open spec fn speaks_of_filesystem(t: Seq<char>) -> bool {
    has_infix(t, "filesystem"@) || has_infix(t, "output root"@)
}

/// The text speaks of cancellation.
pub open spec fn speaks_of_cancel(t: Seq<char>) -> bool {
    has_infix(t, "cancelled"@)
}

/// Reports a torrent failure, given by its text, as a canonical error: the
/// first of these that the text speaks of decides: a rejected, escaping or
/// duplicate torrent path (`Internal`: the torrent's own metadata is
/// unusable, whatever the user asked for), something existing already (`AlreadyExists`), the
/// filesystem (`Filesystem`), cancellation (`Cancelled`); anything else is
/// `InvalidUrl`. The text is carried along.
pub fn map_error(text: &str) -> (r: crate::error::Error)
    ensures
        speaks_of_path(text@) ==> (r matches crate::error::Error::Internal(m) && m@ == text@),
        !speaks_of_path(text@) && speaks_of_existing(text@) ==> (r matches crate::error::Error::AlreadyExists(m) && m@ == text@),
        !speaks_of_path(text@) && !speaks_of_existing(text@) && speaks_of_filesystem(text@)
            ==> (r matches crate::error::Error::Filesystem(m) && m@ == text@),
        !speaks_of_path(text@) && !speaks_of_existing(text@) && !speaks_of_filesystem(text@)
            && speaks_of_cancel(text@) ==> r is Cancelled,
        !speaks_of_path(text@) && !speaks_of_existing(text@) && !speaks_of_filesystem(text@)
            && !speaks_of_cancel(text@) ==> (r matches crate::error::Error::InvalidUrl(m) && m@
            == text@),
{
    let v = crate::text::chars_of(text);
    let owned = crate::text::string_of(&v);
    if contains_text(&v, "invalid torrent path") || contains_text(&v, "path escapes")
        || contains_text(&v, "duplicate torrent path") {
        crate::error::Error::Internal(owned)
    } else if contains_text(&v, "already exists") || contains_text(&v, "already active") {
        crate::error::Error::AlreadyExists(owned)
    } else if contains_text(&v, "filesystem") || contains_text(&v, "output root") {
        crate::error::Error::Filesystem(owned)
    } else if contains_text(&v, "cancelled") {
        crate::error::Error::Cancelled
    } else {
        crate::error::Error::InvalidUrl(owned)
    }
}

} // verus!
