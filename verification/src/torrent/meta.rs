//! Minimal durable metadata for a torrent download: no piece bitfields, no
//! progress, no file lists.

use vstd::prelude::*;

use crate::url::Url;

verus! {

/// Where the torrent bytes originated.
#[derive(Debug, Clone, Copy, PartialEq, Eq, Structural)]
pub enum TorrentSource {
    /// A magnet URI.
    Magnet,
    /// An HTTP/HTTPS/FTP torrent URL.
    TorrentUrl,
    /// A local `.torrent` file.
    TorrentFile,
}

/// Persistent metadata for a single torrent download.
pub struct BackendMeta {
    /// Schema version.
    pub v: u32,
    /// 40-hex info hash (lowercase).
    pub info_hash: String,
    /// Where the torrent bytes came from.
    pub source: TorrentSource,
    /// Path to a stored copy of the torrent file, or `None`.
    pub torrent_file: Option<String>,
}

/// The schema version written by this library.
pub const META_VERSION: u32 = 1;

impl BackendMeta {
    /// Creates new metadata for a magnet URI.
    pub fn for_magnet(info_hash: String) -> (r: BackendMeta)
        ensures
            r.v == META_VERSION,
            r.info_hash@ == info_hash@,
            r.source == TorrentSource::Magnet,
            r.torrent_file is None,
    {
        BackendMeta { v: META_VERSION, info_hash, source: TorrentSource::Magnet, torrent_file: None }
    }

    /// Creates new metadata for a `.torrent` URL.
    pub fn for_torrent(info_hash: String, stored_path: Option<String>) -> (r: BackendMeta)
        ensures
            r.v == META_VERSION,
            r.info_hash@ == info_hash@,
            r.source == TorrentSource::TorrentUrl,
            r.torrent_file == stored_path,
    {
        BackendMeta {
            v: META_VERSION,
            info_hash,
            source: TorrentSource::TorrentUrl,
            torrent_file: stored_path,
        }
    }

    /// Creates new metadata for a local `.torrent` file.
    pub fn for_torrent_file(info_hash: String, stored_path: String) -> (r: BackendMeta)
        ensures
            r.v == META_VERSION,
            r.info_hash@ == info_hash@,
            r.source == TorrentSource::TorrentFile,
            r.torrent_file == Some(stored_path),
    {
        BackendMeta {
            v: META_VERSION,
            info_hash,
            source: TorrentSource::TorrentFile,
            torrent_file: Some(stored_path),
        }
    }
}

/// Determines the source type from a URL: magnet URIs are magnets,
/// everything else is a torrent URL.
pub fn classify_input(url: &Url) -> (r: TorrentSource)
    ensures
        r == (if url@.scheme == "magnet"@ {
            TorrentSource::Magnet
        } else {
            TorrentSource::TorrentUrl
        }),
{
    if crate::text::str_equal(url.scheme(), "magnet") {
        TorrentSource::Magnet
    } else {
        TorrentSource::TorrentUrl
    }
}

} // verus!
