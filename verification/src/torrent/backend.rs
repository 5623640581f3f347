//! The decisions of the torrent backend: where a torrent's files go, what
//! metadata it records, what rate the session is limited to, and what each
//! poll of a running torrent leads to.

use vstd::prelude::*;

use crate::path::{join_path, joined};
use crate::text::{push_str, str_equal};
use crate::torrent::input::ParsedInput;
use crate::torrent::meta::{BackendMeta, TorrentSource};
use crate::url::Url;

verus! {

/// The per-torrent output folder under the session root.
pub open spec fn output_folder(root: Seq<char>, info_hash: Seq<char>) -> Seq<char> {
    joined(root, "odm-"@ + info_hash)
}

/// Builds the per-torrent output folder under the session root.
pub fn output_folder_for(root: &str, info_hash: &str) -> (r: String)
    ensures
        r@ == output_folder(root@, info_hash@),
{
    let mut name = String::new();
    push_str(&mut name, "odm-");
    push_str(&mut name, info_hash);
    join_path(root, name.as_str())
}

/// Where the stored copy of a torrent file lives under the session root.
pub open spec fn torrent_copy(root: Seq<char>, info_hash: Seq<char>) -> Seq<char> {
    joined(joined(root, ".odm-torrents"@), info_hash + ".torrent"@)
}

/// The path of the stored copy of a torrent file under the session root.
pub fn torrent_copy_path(root: &str, info_hash: &str) -> (r: String)
    ensures
        r@ == torrent_copy(root@, info_hash@),
{
    let dir = join_path(root, ".odm-torrents");
    let mut name = String::new();
    push_str(&mut name, info_hash);
    push_str(&mut name, ".torrent");
    join_path(dir.as_str(), name.as_str())
}

/// The content of the ownership marker of a torrent's folder.
pub open spec fn marker_content(info_hash: Seq<char>) -> Seq<char> {
    "odm-torrent-v1:"@ + info_hash + "\n"@
}

/// The content written to the ownership marker of a torrent's folder.
pub fn ownership_marker(info_hash: &str) -> (r: String)
    ensures
        r@ == marker_content(info_hash@),
{
    let mut m = String::new();
    push_str(&mut m, "odm-torrent-v1:");
    push_str(&mut m, info_hash);
    push_str(&mut m, "\n");
    m
}

/// `true` when a marker's content shows the folder belongs to the torrent.
pub fn marker_matches(contents: &str, info_hash: &str) -> (r: bool)
    ensures
        r == (contents@ == marker_content(info_hash@)),
{
    let expected = ownership_marker(info_hash);
    str_equal(contents, expected.as_str())
}

/// Where the bytes of an input came from: a magnet, a local file (the bytes
/// of a `file:` URL), or a torrent URL.
pub open spec fn source_of(input: ParsedInput, scheme: Seq<char>) -> TorrentSource {
    match input {
        ParsedInput::Magnet { .. } => TorrentSource::Magnet,
        ParsedInput::TorrentBytes { .. } => if scheme == "file"@ {
            TorrentSource::TorrentFile
        } else {
            TorrentSource::TorrentUrl
        },
        ParsedInput::TorrentUrl { .. } => TorrentSource::TorrentUrl,
    }
}

/// Where the bytes of an input came from.
pub fn source_of_input(input: &ParsedInput, url: &Url) -> (r: TorrentSource)
    ensures
        r == source_of(*input, url@.scheme),
{
    match input {
        ParsedInput::Magnet { .. } => TorrentSource::Magnet,
        ParsedInput::TorrentBytes { .. } => {
            if str_equal(url.scheme(), "file") {
                TorrentSource::TorrentFile
            } else {
                TorrentSource::TorrentUrl
            }
        },
        ParsedInput::TorrentUrl { .. } => TorrentSource::TorrentUrl,
    }
}

/// The metadata recorded for a torrent: a magnet keeps no file, a local
/// file keeps the path of its stored copy, a torrent URL keeps none.
pub fn meta_for(source: TorrentSource, info_hash: String, stored_copy: Option<String>) -> (r:
    BackendMeta)
    requires
        source == TorrentSource::TorrentFile ==> stored_copy is Some,
    ensures
        r.v == crate::torrent::meta::META_VERSION,
        r.info_hash@ == info_hash@,
        r.source == source,
        source == TorrentSource::TorrentFile ==> r.torrent_file == stored_copy,
        source != TorrentSource::TorrentFile ==> r.torrent_file is None,
{
    match source {
        TorrentSource::Magnet => BackendMeta::for_magnet(info_hash),
        TorrentSource::TorrentFile => BackendMeta::for_torrent_file(info_hash, stored_copy.unwrap()),
        TorrentSource::TorrentUrl => BackendMeta::for_torrent(info_hash, None),
    }
}

/// The download limit set on the session for a global byte rate: the rate
/// cut to 32 bits, where 0 means no limit.
pub open spec fn session_limit(global_bps: u64) -> Option<u32> {
    if (global_bps as u32) == 0 {
        None
    } else {
        Some(global_bps as u32)
    }
}

/// The download limit the session is given for a global byte rate.
pub fn session_download_limit(global_bps: u64) -> (r: Option<u32>)
    ensures
        r == session_limit(global_bps),
{
    let b = global_bps as u32;
    if b == 0 {
        None
    } else {
        Some(b)
    }
}

/// What one look at a running torrent shows.
pub struct TorrentPoll {
    /// All pieces are present.
    pub finished: bool,
    /// The torrent is live (past initialization).
    pub live: bool,
    /// Bytes present so far.
    pub progress_bytes: u64,
    /// Bytes the torrent holds in all.
    pub total_bytes: u64,
}

/// What a poll leads to.
pub enum PollAction {
    /// The torrent is complete: report the outcome.
    Finish {
        /// Bytes transferred in this run.
        downloaded_bytes: u64,
        /// Bytes in all.
        total_bytes: u64,
    },
    /// Report progress.
    Report {
        /// Bytes transferred in this run.
        downloaded_bytes: u64,
        /// Bytes in all.
        total_bytes: u64,
    },
    /// Nothing to report yet.
    Wait,
}

/// `a - b`, or 0 when `b` is larger.
pub open spec fn sat_sub(a: u64, b: u64) -> u64 {
    if a >= b {
        (a - b) as u64
    } else {
        0
    }
}

/// Decides what one poll leads to, given the bytes present when the torrent
/// was added and whether it was seen live before: a finished torrent ends
/// the run with the bytes gained in it; progress is reported once the
/// torrent has been seen live (so an initial hash check does not count as
/// network progress). Also gives whether it has now been seen live.
pub fn poll_step(stats: &TorrentPoll, initial_progress: u64, reported_live: bool) -> (r: (
    PollAction,
    bool,
))
    ensures
        stats.finished ==> (r.0 == PollAction::Finish {
            downloaded_bytes: sat_sub(stats.total_bytes, initial_progress),
            total_bytes: stats.total_bytes,
        }),
        r.1 == (reported_live || stats.live),
        !stats.finished && r.1 ==> (r.0 == PollAction::Report {
            downloaded_bytes: sat_sub(stats.progress_bytes, initial_progress),
            total_bytes: stats.total_bytes,
        }),
        !stats.finished && !r.1 ==> r.0 is Wait,
{
    let live = reported_live || stats.live;
    if stats.finished {
        let d = stats.total_bytes.saturating_sub(initial_progress);
        return (PollAction::Finish { downloaded_bytes: d, total_bytes: stats.total_bytes }, live);
    }
    if live {
        let d = stats.progress_bytes.saturating_sub(initial_progress);
        (PollAction::Report { downloaded_bytes: d, total_bytes: stats.total_bytes }, live)
    } else {
        (PollAction::Wait, live)
    }
}

} // verus!
