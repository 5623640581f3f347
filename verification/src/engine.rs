//! Download orchestration decisions: request validation, default naming,
//! the transfer's byte accounting and the completeness check.

use vstd::prelude::*;

use crate::components::{components, Component};
use crate::error::Error;
use crate::model::{DownloadProgress, DownloadRequest};
use crate::path::{
    filename_violation, is_trimmed, law_sanitized_name_is_safe, output_path_violation,
    output_fault_matches, sanitize_filename, sanitized, validate_output_path,
    is_unsafe_name_char,
};
use crate::text::{decimal, decimal_text, lemma_split_no_sep, push_str, split_on};
use crate::url::{last_segment, Url};

verus! {

/// Options that control a single download.
#[derive(Debug, Clone, Copy, PartialEq, Eq, Structural)]
pub struct DownloadOptions {
    /// Whether to overwrite an existing file at the target path.
    pub overwrite: bool,
}

/// Top-level engine configuration.
pub struct EngineConfig {
    /// HTTP client configuration.
    pub http: crate::http::HttpClientConfig,
}

impl Default for EngineConfig {
    fn default() -> (r: EngineConfig)
        ensures
            r.http.user_agent@ == crate::http::default_user_agent(),
            r.http.connect_timeout == 15000,
            r.http.request_timeout == 0,
            r.http.redirect_policy == (crate::http::RedirectPolicy::Limited { max: 10 }),
            r.http.accept_encoding,
    {
        EngineConfig { http: crate::http::HttpClientConfig::default() }
    }
}

/// The redirect cap of a download the manager hands to the HTTP engine.
pub const DEFAULT_MAX_REDIRECTS: usize = 10;

/// The request the HTTP engine makes for a task handed to it.
pub fn request_for_task(url: Url, destination: String, overwrite: bool) -> (r: DownloadRequest)
    ensures
        r.url@ == url@,
        r.output == destination,
        r.overwrite == overwrite,
        r.max_redirects == DEFAULT_MAX_REDIRECTS,
{
    DownloadRequest { url, output: destination, overwrite, max_redirects: DEFAULT_MAX_REDIRECTS }
}

/// The outcome the HTTP engine reports for a finished transfer: every byte
/// counted, the total known, and no metadata (JSON `null`).
pub fn outcome_for_transfer(total_bytes: u64) -> (r: crate::model::BackendOutcome)
    ensures
        r.downloaded_bytes == total_bytes,
        r.total_bytes == Some(total_bytes),
        r.backend_meta@ == "null"@,
{
    let mut meta = String::new();
    push_str(&mut meta, "null");
    crate::model::BackendOutcome { downloaded_bytes: total_bytes, total_bytes: Some(total_bytes), backend_meta: meta }
}

/// The message of an incomplete transfer.
pub open spec fn incomplete_message(expected: u64, received: u64) -> Seq<char> {
    "incomplete transfer: server announced "@ + decimal(expected as nat) + " bytes, received "@
        + decimal(received as nat)
}

/// Confirms that the bytes received match the size the server announced.
///
/// A server that closes early, or that advertises a `Content-Length` it does
/// not honour, must not yield a file that looks complete. `None` means the
/// size was never announced, which is not an error; a mismatch is reported
/// as [`Error::InvalidResponse`].
pub fn verify_length(expected: Option<u64>, received: u64) -> (r: Result<(), Error>)
    ensures
        expected is None ==> r is Ok,
        expected == Some(received) ==> r is Ok,
        expected is Some && expected.unwrap() != received ==> (r matches Err(
            Error::InvalidResponse(m),
        ) && m@ == incomplete_message(expected.unwrap(), received)),
{
    match expected {
        None => Ok(()),
        Some(e) => {
            if e == received {
                Ok(())
            } else {
                let mut m = String::new();
                push_str(&mut m, "incomplete transfer: server announced ");
                let a = decimal_text(e);
                push_str(&mut m, a.as_str());
                push_str(&mut m, " bytes, received ");
                let b = decimal_text(received);
                push_str(&mut m, b.as_str());
                Err(Error::InvalidResponse(m))
            }
        },
    }
}

/// `true` for the schemes the HTTP engine serves.
pub open spec fn is_http_scheme(s: Seq<char>) -> bool {
    s == "http"@ || s == "https"@
}

/// Checks a URL's scheme; anything but `http`/`https` is refused with
/// [`Error::InvalidUrl`].
pub fn validate_scheme(url: &Url) -> (r: Result<(), Error>)
    ensures
        is_http_scheme(url@.scheme) ==> r is Ok,
        !is_http_scheme(url@.scheme) ==> (r matches Err(Error::InvalidUrl(m)) && m@
            == "unsupported scheme: "@ + url@.scheme),
{
    let s = url.scheme();
    if crate::text::str_equal(s, "http") || crate::text::str_equal(s, "https") {
        Ok(())
    } else {
        let mut m = String::new();
        push_str(&mut m, "unsupported scheme: ");
        push_str(&mut m, s);
        Err(Error::InvalidUrl(m))
    }
}

/// Validates a download request: an `http`/`https` URL, a usable
/// destination (see [`validate_output_path`]) and a positive redirect cap,
/// checked in that order.
pub fn validate_request(req: &DownloadRequest) -> (r: Result<(), Error>)
    ensures
        !is_http_scheme(req.url@.scheme) ==> (r matches Err(Error::InvalidUrl(m)) && m@
            == "unsupported scheme: "@ + req.url@.scheme),
        is_http_scheme(req.url@.scheme) && output_path_violation(req.output@) is Some ==> (
        r matches Err(e) && output_fault_matches(output_path_violation(req.output@).unwrap(), e)),
        is_http_scheme(req.url@.scheme) && output_path_violation(req.output@) is None
            && req.max_redirects == 0 ==> (r matches Err(Error::InvalidUrl(m)) && m@
            == "max_redirects must be > 0"@),
        is_http_scheme(req.url@.scheme) && output_path_violation(req.output@) is None
            && req.max_redirects > 0 ==> r is Ok,
{
    validate_scheme(&req.url)?;
    validate_output_path(req.output.as_str())?;
    if req.max_redirects == 0 {
        let mut m = String::new();
        push_str(&mut m, "max_redirects must be > 0");
        return Err(Error::InvalidUrl(m));
    }
    Ok(())
}

/// The default output name for a URL: its last path segment, sanitized.
pub open spec fn default_name(u: crate::url::UrlView) -> Seq<char> {
    match last_segment(u.path) {
        Some(seg) => sanitized(seg),
        None => sanitized("download.bin"@),
    }
}

/// Derives a default output path from a URL, for when the caller did not
/// supply an explicit destination: the last path segment, passed through
/// [`sanitize_filename`]. Query strings and fragments never reach it.
pub fn default_output_for(url: &Url) -> (r: String)
    ensures
        r@ == default_name(url@),
{
    match url.last_path_segment() {
        Some(seg) => sanitize_filename(seg.as_str()),
        None => sanitize_filename("download.bin"),
    }
}

/// A derived output name is always a single, relative, normal path
/// component, whatever the URL.
pub proof fn law_default_output_is_one_component(u: crate::url::UrlView)
    ensures
        components(default_name(u)) == seq![Component::Normal(default_name(u))],
{
    let s = match last_segment(u.path) {
        Some(seg) => seg,
        None => "download.bin"@,
    };
    let r = sanitized(s);
    law_sanitized_name_is_safe(s);
    assert(!r.contains('/')) by {
        if r.contains('/') {
            let j = choose|j: int| 0 <= j < r.len() && r[j] == '/';
            assert(!is_unsafe_name_char(r[j]));
        }
    }
    lemma_split_no_sep(r, '/');
    assert(!is_trimmed(r[0]));
    assert(r[0] != '.');
    assert(r != seq!['.']) by {
        if r == seq!['.'] {
            assert(r[0] == '.');
        }
    }
    assert(r != seq!['.', '.']) by {
        if r == seq!['.', '.'] {
            assert(r[0] == '.');
        }
    }
    let ps = split_on(r, '/');
    assert(ps == seq![r]);
    assert(ps.drop_last() =~= Seq::<Seq<char>>::empty());
    assert(ps.last() == r);
    assert(crate::components::pieces_components(ps.drop_last()) =~= Seq::<Component>::empty());
    assert(crate::components::piece_components(r) =~= seq![Component::Normal(r)]);
    assert(crate::components::pieces_components(ps) =~= seq![Component::Normal(r)]);
    assert(!crate::components::is_rooted(r));
    assert(ps[0] != seq!['.']);
}

/// Byte accounting of one running transfer.
#[derive(Debug, Clone, Copy, PartialEq, Eq, Structural)]
pub struct Transfer {
    /// Bytes written so far.
    pub downloaded: u64,
    /// Total the server announced, if any.
    pub total: Option<u64>,
    /// When progress was last reported, in milliseconds.
    pub last_emit: u64,
}

/// Minimum interval between two progress reports, in milliseconds.
pub const PROGRESS_INTERVAL_MS: u64 = 250;

/// `a + b`, or the largest `u64` where that overflows.
pub open spec fn sat_add(a: u64, b: u64) -> u64 {
    if a + b > u64::MAX {
        u64::MAX
    } else {
        (a + b) as u64
    }
}

/// A transfer after a chunk of `len` bytes arrives at `now`, and the
/// progress report then due, if any: an empty chunk changes nothing; a
/// report is due when at least [`PROGRESS_INTERVAL_MS`] passed since the
/// last one.
pub open spec fn after_chunk(t: Transfer, len: u64, now: u64) -> (Transfer, Option<
    DownloadProgress,
>) {
    if len == 0 {
        (t, None)
    } else {
        let d = sat_add(t.downloaded, len);
        if now >= t.last_emit + PROGRESS_INTERVAL_MS {
            (
                Transfer { downloaded: d, total: t.total, last_emit: now },
                Some(DownloadProgress { downloaded_bytes: d, total_bytes: t.total, at: now }),
            )
        } else {
            (Transfer { downloaded: d, ..t }, None)
        }
    }
}

/// Progress never goes backwards: after any chunk the byte count is at
/// least what it was, every report carries the current count and the
/// announced total, and reports are at least an interval apart.
pub proof fn law_progress_is_monotonic(t: Transfer, len: u64, now: u64)
    ensures
        after_chunk(t, len, now).0.downloaded >= t.downloaded,
        after_chunk(t, len, now).0.total == t.total,
        after_chunk(t, len, now).0.last_emit >= t.last_emit,
        after_chunk(t, len, now).1 matches Some(p) ==> p.downloaded_bytes == after_chunk(
            t,
            len,
            now,
        ).0.downloaded && p.total_bytes == t.total && p.at >= t.last_emit + PROGRESS_INTERVAL_MS,
{
}

impl Transfer {
    /// A transfer that has written nothing yet, started at `now`.
    pub fn new(total: Option<u64>, now: u64) -> (r: Transfer)
        ensures
            r.downloaded == 0,
            r.total == total,
            r.last_emit == now,
    {
        Transfer { downloaded: 0, total, last_emit: now }
    }

    /// Accounts for a chunk of `len` bytes arriving at `now`. An empty chunk
    /// is skipped. A progress report is due when at least 250 ms passed
    /// since the last one.
    pub fn on_chunk(&mut self, len: u64, now: u64) -> (r: Option<DownloadProgress>)
        ensures
            (*final(self), r) == after_chunk(*old(self), len, now),
    {
        if len == 0 {
            return None;
        }
        self.downloaded = self.downloaded.saturating_add(len);
        if now >= self.last_emit && now - self.last_emit >= PROGRESS_INTERVAL_MS {
            self.last_emit = now;
            Some(
                DownloadProgress {
                    downloaded_bytes: self.downloaded,
                    total_bytes: self.total,
                    at: now,
                },
            )
        } else {
            None
        }
    }

    /// The check at the end of the stream, and the final progress report:
    /// once the byte count matches the announced size (or none was
    /// announced), the report closes at the bytes actually received.
    pub fn complete(&self, now: u64) -> (r: Result<DownloadProgress, Error>)
        ensures
            (self.total is None || self.total == Some(self.downloaded)) ==> r == Ok::<
                DownloadProgress,
                Error,
            >(
                DownloadProgress {
                    downloaded_bytes: self.downloaded,
                    total_bytes: Some(self.downloaded),
                    at: now,
                },
            ),
            self.total is Some && self.total.unwrap() != self.downloaded ==> (r matches Err(
                Error::InvalidResponse(m),
            ) && m@ == incomplete_message(self.total.unwrap(), self.downloaded)),
    {
        verify_length(self.total, self.downloaded)?;
        let total = match self.total {
            Some(t) => Some(t),
            None => Some(self.downloaded),
        };
        Ok(DownloadProgress { downloaded_bytes: self.downloaded, total_bytes: total, at: now })
    }
}

/// Checks a request before any network activity: the request itself, then
/// that the destination does not exist unless overwriting is allowed
/// ([`Error::AlreadyExists`] with the destination).
pub fn check_before_download(req: &DownloadRequest, opts: &DownloadOptions, output_exists: bool) -> (r: Result<(), Error>)
    ensures
        validate_request_ok(req) ==> (output_exists && !opts.overwrite ==> (r matches Err(
            Error::AlreadyExists(m),
        ) && m@ == req.output@)),
        validate_request_ok(req) && (!output_exists || opts.overwrite) ==> r is Ok,
        !validate_request_ok(req) ==> r is Err,
{
    validate_request(req)?;
    if output_exists && !opts.overwrite {
        return Err(Error::AlreadyExists(req.output.clone()));
    }
    Ok(())
}

/// `true` when [`validate_request`] accepts the request.
pub open spec fn validate_request_ok(req: &DownloadRequest) -> bool {
    is_http_scheme(req.url@.scheme) && output_path_violation(req.output@) is None
        && req.max_redirects > 0
}

} // verus!
