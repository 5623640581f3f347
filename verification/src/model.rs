//! Shared domain models: requests, resource metadata, progress and events.

use vstd::prelude::*;

use crate::backend::DownloadId;
use crate::state::DownloadState;
use crate::url::Url;
use vstd::std_specs::cmp::PartialEqSpecImpl;

verus! {

/// HTTP methods supported by the client.
#[derive(Debug, Clone, Copy, PartialEq, Eq, Structural)]
pub enum HttpMethod {
    /// HTTP GET.
    Get,
    /// HTTP HEAD.
    Head,
}

impl HttpMethod {
    /// Returns the canonical method name (uppercase).
    pub fn as_str(self) -> (r: &'static str)
        ensures
            r@ == (match self {
                HttpMethod::Get => "GET"@,
                HttpMethod::Head => "HEAD"@,
            }),
    {
        match self {
            HttpMethod::Get => "GET",
            HttpMethod::Head => "HEAD",
        }
    }
}

/// A user request to download a single resource.
pub struct DownloadRequest {
    /// The URL to download from. Must be `http` or `https`.
    pub url: Url,
    /// The final output path on disk.
    pub output: String,
    /// Whether to overwrite an existing file at `output`.
    pub overwrite: bool,
    /// Cap on the number of redirect hops; must be positive.
    pub max_redirects: usize,
}

/// Metadata of a remote resource, read from response headers.
pub struct ResourceInfo {
    /// Final URL after redirects.
    pub final_url: Url,
    /// `Content-Length` if announced by the server.
    pub content_length: Option<u64>,
    /// `Content-Type` if announced by the server.
    pub content_type: Option<String>,
    /// `ETag` if announced by the server.
    pub etag: Option<String>,
    /// `Last-Modified` if announced by the server.
    pub last_modified: Option<String>,
    /// `Accept-Ranges: bytes` capability flag.
    pub accepts_ranges: bool,
    /// A file name suggested by the server (via `Content-Disposition`).
    pub suggested_filename: Option<String>,
}

/// Result of a `HEAD` request used to inspect a resource.
pub struct InspectInfo {
    /// HTTP status code.
    pub status: u16,
    /// Resource metadata.
    pub resource: ResourceInfo,
}

/// A progress update emitted during a download.
#[derive(Debug, Clone, Copy, PartialEq, Eq, Structural)]
pub struct DownloadProgress {
    /// Number of bytes transferred so far.
    pub downloaded_bytes: u64,
    /// Total bytes expected, if known.
    pub total_bytes: Option<u64>,
    /// Wall-clock time of the snapshot, in milliseconds since the Unix epoch.
    pub at: u64,
}

/// Receiver of streaming progress updates.
pub trait ProgressSink {
    /// Called with each progress snapshot. Implementations should be cheap.
    fn on_progress(&self, progress: DownloadProgress);
}

/// What a backend reports when a transfer ends successfully.
pub struct BackendOutcome {
    /// Bytes transferred.
    pub downloaded_bytes: u64,
    /// Total expected bytes, if known.
    pub total_bytes: Option<u64>,
    /// Updated protocol-specific metadata to persist (JSON text).
    pub backend_meta: String,
}

/// A lifecycle event for a single download.
#[derive(Debug, Clone)]
pub enum Event {
    /// A download was accepted into the queue.
    Queued(DownloadId),
    /// The manager asked a backend to begin the transfer.
    Started(DownloadId),
    /// Bytes were transferred.
    Progress {
        /// The download the progress belongs to.
        id: DownloadId,
        /// Bytes transferred so far.
        downloaded_bytes: u64,
        /// Total expected bytes, if known.
        total_bytes: Option<u64>,
    },
    /// The running transfer was paused by the user.
    Paused(DownloadId),
    /// A paused download was resumed (re-queued).
    Resumed(DownloadId),
    /// The transfer finished and the file is on disk.
    Completed(DownloadId),
    /// The transfer ended in an error.
    Failed {
        /// The download that failed.
        id: DownloadId,
        /// Human-readable error description.
        error: String,
    },
    /// The user cancelled the transfer.
    Cancelled(DownloadId),
    /// The download moved from one lifecycle state to another.
    StateChanged {
        /// The download whose state changed.
        id: DownloadId,
        /// The previous state.
        from: DownloadState,
        /// The new state.
        to: DownloadState,
    },
}

/// An event with its texts taken by view.
pub enum EventView {
    Queued(DownloadId),
    Started(DownloadId),
    Progress { id: DownloadId, downloaded_bytes: u64, total_bytes: Option<u64> },
    Paused(DownloadId),
    Resumed(DownloadId),
    Completed(DownloadId),
    Failed { id: DownloadId, error: Seq<char> },
    Cancelled(DownloadId),
    StateChanged { id: DownloadId, from: DownloadState, to: DownloadState },
}

/// The view of an event.
pub open spec fn event_view(e: Event) -> EventView {
    match e {
        Event::Queued(id) => EventView::Queued(id),
        Event::Started(id) => EventView::Started(id),
        Event::Progress { id, downloaded_bytes, total_bytes } => EventView::Progress {
            id,
            downloaded_bytes,
            total_bytes,
        },
        Event::Paused(id) => EventView::Paused(id),
        Event::Resumed(id) => EventView::Resumed(id),
        Event::Completed(id) => EventView::Completed(id),
        Event::Failed { id, error } => EventView::Failed { id, error: error@ },
        Event::Cancelled(id) => EventView::Cancelled(id),
        Event::StateChanged { id, from, to } => EventView::StateChanged { id, from, to },
    }
}

impl PartialEq for Event {
    fn eq(&self, other: &Event) -> (r: bool) {
        match (self, other) {
            (Event::Queued(a), Event::Queued(b)) => a == b,
            (Event::Started(a), Event::Started(b)) => a == b,
            (
                Event::Progress { id: a, downloaded_bytes: x, total_bytes: t },
                Event::Progress { id: b, downloaded_bytes: y, total_bytes: u },
            ) => a == b && x == y && t == u,
            (Event::Paused(a), Event::Paused(b)) => a == b,
            (Event::Resumed(a), Event::Resumed(b)) => a == b,
            (Event::Completed(a), Event::Completed(b)) => a == b,
            (Event::Failed { id: a, error: e }, Event::Failed { id: b, error: f }) => a == b
                && crate::text::str_equal(e.as_str(), f.as_str()),
            (Event::Cancelled(a), Event::Cancelled(b)) => a == b,
            (
                Event::StateChanged { id: a, from: f1, to: t1 },
                Event::StateChanged { id: b, from: f2, to: t2 },
            ) => a == b && f1 == f2 && t1 == t2,
            _ => false,
        }
    }
}

impl PartialEqSpecImpl for Event {
    open spec fn obeys_eq_spec() -> bool {
        true
    }

    open spec fn eq_spec(&self, other: &Event) -> bool {
        event_view(*self) == event_view(*other)
    }
}

} // verus!
