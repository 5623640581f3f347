//! The download record the manager tracks and persists.

use vstd::prelude::*;

use crate::backend::{BackendKind, DownloadId};
use crate::state::DownloadState;

verus! {

/// A single managed download, as held in memory and persisted.
///
/// Times are milliseconds since the Unix epoch.
pub struct Download {
    /// Stable identifier.
    pub id: DownloadId,
    /// Source URL (its serialization).
    pub url: String,
    /// Final on-disk destination.
    pub destination: String,
    /// Which backend executes the transfer.
    pub backend: BackendKind,
    /// Current lifecycle state.
    pub state: DownloadState,
    /// Whether an existing destination may be overwritten.
    pub overwrite: bool,
    /// Total expected bytes, if known.
    pub total_bytes: Option<u64>,
    /// Bytes transferred so far.
    pub downloaded_bytes: u64,
    /// When the download was created.
    pub created_at: u64,
    /// When the download was last modified.
    pub updated_at: u64,
    /// When the transfer started, if it has.
    pub started_at: Option<u64>,
    /// When the transfer finished successfully, if it has.
    pub completed_at: Option<u64>,
    /// Last error description, if any.
    pub error: Option<String>,
    /// Opaque, protocol-specific metadata (JSON text).
    pub backend_meta: String,
}

/// The value of a download record, with texts taken by their views.
pub struct DownloadView {
    pub id: DownloadId,
    pub url: Seq<char>,
    pub destination: Seq<char>,
    pub backend: BackendKind,
    pub state: DownloadState,
    pub overwrite: bool,
    pub total_bytes: Option<u64>,
    pub downloaded_bytes: u64,
    pub created_at: u64,
    pub updated_at: u64,
    pub started_at: Option<u64>,
    pub completed_at: Option<u64>,
    pub error: Option<Seq<char>>,
    pub backend_meta: Seq<char>,
}

/// An optional text taken by its view.
pub open spec fn opt_text(o: Option<String>) -> Option<Seq<char>> {
    match o {
        Some(s) => Some(s@),
        None => None,
    }
}

impl View for Download {
    type V = DownloadView;

    open spec fn view(&self) -> DownloadView {
        DownloadView {
            id: self.id,
            url: self.url@,
            destination: self.destination@,
            backend: self.backend,
            state: self.state,
            overwrite: self.overwrite,
            total_bytes: self.total_bytes,
            downloaded_bytes: self.downloaded_bytes,
            created_at: self.created_at,
            updated_at: self.updated_at,
            started_at: self.started_at,
            completed_at: self.completed_at,
            error: opt_text(self.error),
            backend_meta: self.backend_meta@,
        }
    }
}

/// Copies an optional text.
pub fn copy_opt_text(o: &Option<String>) -> (r: Option<String>)
    ensures
        r == *o,
{
    match o {
        Some(s) => Some(s.clone()),
        None => None,
    }
}

impl Clone for Download {
    fn clone(&self) -> (r: Download)
        ensures
            r == *self,
    {
        Download {
            id: self.id,
            url: self.url.clone(),
            destination: self.destination.clone(),
            backend: self.backend,
            state: self.state,
            overwrite: self.overwrite,
            total_bytes: self.total_bytes,
            downloaded_bytes: self.downloaded_bytes,
            created_at: self.created_at,
            updated_at: self.updated_at,
            started_at: self.started_at,
            completed_at: self.completed_at,
            error: copy_opt_text(&self.error),
            backend_meta: self.backend_meta.clone(),
        }
    }
}

} // verus!
