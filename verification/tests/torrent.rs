use odm::torrent::cleanup::removal_plan;
use odm::error::Error as CoreError;
use odm::torrent::backend::{
    marker_matches, meta_for, output_folder_for, ownership_marker, poll_step,
    session_download_limit, source_of_input, torrent_copy_path, PollAction, TorrentPoll,
};
use odm::torrent::error::{map_error, Error};
use odm::torrent::input::{extract_info_hash_from_magnet, input_from, resolve_input, InputSource, ParsedInput};
use odm::torrent::layout::{validate_no_duplicates, validate_root_confinement, validate_torrent_paths, vet_torrent_files};
use odm::torrent::links::link_check_plan;
use odm::torrent::meta::{classify_input, BackendMeta, TorrentSource};
use odm::torrent::path::{escapes_root, validate_torrent_path, TorrentPathError};
use odm::url::Url;

fn texts(v: &[&str]) -> Vec<String> {
    v.iter().map(|s| s.to_string()).collect()
}

#[test]
fn magnet_info_hash_extraction() {
    let uri = "magnet:?xt=urn:btih:CAB507494D02EBB1178B38F2E9D7BE299C86B862&dn=test";
    assert_eq!(
        extract_info_hash_from_magnet(uri),
        Some("cab507494d02ebb1178b38f2e9d7be299c86b862".into())
    );
}

#[test]
fn magnet_without_info_hash_is_none() {
    assert_eq!(extract_info_hash_from_magnet("magnet:?dn=test"), None);
    assert_eq!(extract_info_hash_from_magnet("magnet:?xt=urn:sha1:abc"), None);
    assert_eq!(extract_info_hash_from_magnet("not a uri"), None);
    assert_eq!(
        extract_info_hash_from_magnet("magnet:?dn=x&xt=urn:btih:AB&xt=urn:btih:CD"),
        Some("ab".into())
    );
}

#[test]
fn rejects_dotdot() {
    assert!(validate_torrent_path("../outside.txt").is_err());
}

#[test]
fn rejects_absolute() {
    assert!(validate_torrent_path("/etc/passwd").is_err());
}

#[test]
fn rejects_windows_reserved() {
    assert!(validate_torrent_path("CON.txt").is_err());
}

#[test]
fn accepts_simple_relative() {
    assert!(validate_torrent_path("dir/file.txt").is_ok());
}

#[test]
fn torrent_path_reasons() {
    assert_eq!(validate_torrent_path(""), Err(TorrentPathError::ParentTraversal));
    assert_eq!(validate_torrent_path("a\0b"), Err(TorrentPathError::NulByte));
    assert_eq!(validate_torrent_path("\\x"), Err(TorrentPathError::Absolute));
    assert_eq!(validate_torrent_path("C:x"), Err(TorrentPathError::Absolute));
    assert_eq!(validate_torrent_path("a/..")  , Err(TorrentPathError::ParentTraversal));
    assert_eq!(validate_torrent_path("a\\b"), Err(TorrentPathError::EmbeddedSeparator));
    assert_eq!(validate_torrent_path("./."), Err(TorrentPathError::ParentTraversal));
    assert_eq!(validate_torrent_path("d/CON"), Err(TorrentPathError::ReservedName));
    assert_eq!(TorrentPathError::ReservedName.message(), "reserved Windows name");
}

#[test]
fn valid_paths_never_escape_the_root() {
    for p in ["a", "dir/file.txt", "./x/y", "a//b"] {
        assert!(validate_torrent_path(p).is_ok());
        for root in ["", "/", "out", "out/", "/srv/odm-1", "./r"] {
            assert!(!escapes_root(root, p), "{root:?} + {p:?}");
        }
    }
    assert!(escapes_root("out", "/etc/passwd"));
    assert!(escapes_root("out", "../x"));
}

#[test]
fn escaping_is_judged_after_normalization() {
    assert!(escapes_root("/out", "../x"));
    assert!(escapes_root("/out", "a/../../x"));
    assert!(escapes_root("/out", "/etc/passwd"));
    assert!(!escapes_root("/out", "a/b"));
    assert!(!escapes_root("/out", "a/../b"));
    assert!(!escapes_root("/out/./x/..", "./b"));
    assert!(!escapes_root("/", ".."));
}

#[test]
fn first_invalid_path_is_reported() {
    assert!(validate_torrent_paths(&texts(&["a", "b/c"])).is_ok());
    match validate_torrent_paths(&texts(&["a", "../b", "/c"])) {
        Err(Error::InvalidPath(m)) => assert_eq!(m, "../b: parent traversal not allowed"),
        other => panic!("unexpected: {other:?}"),
    }
}

#[test]
fn duplicates_and_collisions_are_rejected() {
    assert!(validate_no_duplicates(&texts(&["a/b", "a/c", "d"])).is_ok());
    match validate_no_duplicates(&texts(&["a/b", "A/B"])) {
        Err(Error::DuplicatePath(m)) => assert_eq!(m, "A/B"),
        other => panic!("unexpected: {other:?}"),
    }
    match validate_no_duplicates(&texts(&["x/.odm-owned"])) {
        Err(Error::DuplicatePath(m)) => assert_eq!(m, "reserved ODM ownership marker"),
        other => panic!("unexpected: {other:?}"),
    }
    match validate_no_duplicates(&texts(&["a", "a/b"])) {
        Err(Error::DuplicatePath(m)) => assert_eq!(m, "a/b"),
        other => panic!("unexpected: {other:?}"),
    }
    match validate_no_duplicates(&texts(&["A/b/c", "a/B"])) {
        Err(Error::DuplicatePath(m)) => assert_eq!(m, "A/b/c"),
        other => panic!("unexpected: {other:?}"),
    }
}

#[test]
fn confinement_names_the_escaping_path() {
    assert!(validate_root_confinement("out", &texts(&["a", "b"])).is_ok());
    match validate_root_confinement("out", &texts(&["a", "/b"])) {
        Err(Error::PathEscapesRoot(m)) => assert_eq!(m, "/b"),
        other => panic!("unexpected: {other:?}"),
    }
}

#[test]
fn vetting_reports_unsafe_file_lists_as_internal_errors() {
    assert!(vet_torrent_files("out", &texts(&["a", "b/c"])).is_ok());
    match vet_torrent_files("out", &texts(&["../x"])) {
        Err(CoreError::Internal(m)) => {
            assert_eq!(m, "invalid torrent path: ../x: parent traversal not allowed")
        }
        other => panic!("unexpected: {other:?}"),
    }
    match vet_torrent_files("out", &texts(&["a", "A"])) {
        Err(CoreError::Internal(m)) => assert_eq!(m, "duplicate torrent path: A"),
        other => panic!("unexpected: {other:?}"),
    }
    for list in [&["../escape.bin"][..], &["/absolute.bin"], &["CON.txt"], &["A.bin", "a.bin"]] {
        assert!(matches!(vet_torrent_files("out", &texts(list)), Err(CoreError::Internal(_))));
    }
}

#[test]
fn torrent_errors_map_to_canonical_errors() {
    let e = Error::AlreadyExists("x".into());
    assert_eq!(e.message(), "destination already exists: x");
    assert!(matches!(map_error(&e.message()), CoreError::AlreadyExists(_)));
    assert!(matches!(map_error(&Error::Filesystem("y".into()).message()), CoreError::Filesystem(_)));
    assert!(matches!(map_error(&Error::Cancelled.message()), CoreError::Cancelled));
    assert!(matches!(map_error(&Error::PathEscapesRoot("z".into()).message()), CoreError::Internal(_)));
    match map_error(&Error::Internal("boom".into()).message()) {
        CoreError::InvalidUrl(m) => assert_eq!(m, "torrent internal error: boom"),
        other => panic!("unexpected: {other:?}"),
    }
}

#[test]
fn metadata_constructors() {
    let m = BackendMeta::for_magnet("h".into());
    assert_eq!((m.v, m.source, m.torrent_file.is_none()), (1, TorrentSource::Magnet, true));
    let t = BackendMeta::for_torrent("h".into(), Some("p".into()));
    assert_eq!((t.source, t.torrent_file.as_deref()), (TorrentSource::TorrentUrl, Some("p")));
    let f = BackendMeta::for_torrent_file("h".into(), "q".into());
    assert_eq!((f.source, f.torrent_file.as_deref()), (TorrentSource::TorrentFile, Some("q")));
    let g = meta_for(TorrentSource::TorrentUrl, "h".into(), Some("ignored".into()));
    assert!(g.torrent_file.is_none());
}

#[test]
fn inputs_are_classified_by_scheme() {
    let magnet = Url::parse("magnet:?xt=urn:btih:AA").unwrap();
    assert_eq!(classify_input(&magnet), TorrentSource::Magnet);
    match resolve_input(&magnet) {
        Ok(InputSource::Magnet { uri }) => assert_eq!(uri, "magnet:?xt=urn:btih:AA"),
        _ => panic!("magnet expected"),
    }
    let bad = Url::parse("magnet:?dn=x").unwrap();
    match resolve_input(&bad) {
        Err(Error::Internal(m)) => assert_eq!(m, "magnet missing info_hash"),
        _ => panic!("error expected"),
    }
    let web = Url::parse("https://example.com/a.torrent").unwrap();
    assert_eq!(classify_input(&web), TorrentSource::TorrentUrl);
    assert!(matches!(resolve_input(&web), Ok(InputSource::TorrentUrl { .. })));
    let file = Url::parse("file:///tmp/a.torrent").unwrap();
    match input_from(&file, Some("/tmp/a.torrent".into())) {
        Ok(InputSource::LocalFile { path }) => assert_eq!(path, "/tmp/a.torrent"),
        _ => panic!("file expected"),
    }
    assert!(matches!(input_from(&file, None), Err(Error::Internal(_))));
    let ftp = Url::parse("ftp://example.com/a").unwrap();
    match resolve_input(&ftp) {
        Err(Error::Internal(m)) => assert_eq!(m, "unsupported URL scheme: ftp"),
        _ => panic!("error expected"),
    }
    let bytes = ParsedInput::TorrentBytes { bytes: vec![1, 2] };
    assert_eq!(source_of_input(&bytes, &file), TorrentSource::TorrentFile);
    assert_eq!(source_of_input(&bytes, &web), TorrentSource::TorrentUrl);
}

#[test]
fn folders_and_markers() {
    assert_eq!(output_folder_for("/data", "abc"), "/data/odm-abc");
    assert_eq!(torrent_copy_path("/data/", "abc"), "/data/.odm-torrents/abc.torrent");
    assert_eq!(ownership_marker("abc"), "odm-torrent-v1:abc\n");
    assert!(marker_matches("odm-torrent-v1:abc\n", "abc"));
    assert!(!marker_matches("odm-torrent-v1:abd\n", "abc"));
}

#[test]
fn session_limit_truncates_to_32_bits() {
    assert_eq!(session_download_limit(1000), Some(1000));
    assert_eq!(session_download_limit(0), None);
    assert_eq!(session_download_limit(1 << 32), None);
    assert_eq!(session_download_limit((1 << 32) + 5), Some(5));
}

#[test]
fn polling_reports_only_after_going_live() {
    let init = TorrentPoll { finished: false, live: false, progress_bytes: 500, total_bytes: 1000 };
    let (a, seen) = poll_step(&init, 400, false);
    assert!(matches!(a, PollAction::Wait));
    assert!(!seen);
    let live = TorrentPoll { finished: false, live: true, progress_bytes: 700, total_bytes: 1000 };
    let (b, seen) = poll_step(&live, 400, seen);
    assert!(seen);
    match b {
        PollAction::Report { downloaded_bytes, total_bytes } => {
            assert_eq!((downloaded_bytes, total_bytes), (300, 1000))
        }
        _ => panic!("report expected"),
    }
    let done = TorrentPoll { finished: true, live: true, progress_bytes: 1000, total_bytes: 1000 };
    match poll_step(&done, 1200, true).0 {
        PollAction::Finish { downloaded_bytes, total_bytes } => {
            assert_eq!((downloaded_bytes, total_bytes), (0, 1000))
        }
        _ => panic!("finish expected"),
    }
}

#[test]
fn disposal_removes_deepest_first() {
    let files = texts(&["a.txt", "d/e/f.bin", "d/g.bin"]);
    let (order, dirs) = removal_plan("/data/odm-h", &files);
    assert_eq!(order, vec!["/data/odm-h/d/e/f.bin", "/data/odm-h/d/g.bin", "/data/odm-h/a.txt"]);
    assert_eq!(dirs, vec!["/data/odm-h/d/e", "/data/odm-h/d", "/data", "/"]);
    let (order, dirs) = removal_plan("", &texts(&["x"]));
    assert_eq!(order, vec!["x"]);
    assert!(dirs.is_empty());
}

#[test]
fn own_folder_is_not_among_the_removed_folders() {
    let (_, dirs) = removal_plan("dl/odm-h/", &texts(&["a/b.bin", "a/c/d.bin"]));
    assert_eq!(dirs, vec!["dl/odm-h/a/c", "dl/odm-h/a", "dl", ""]);
    assert!(!dirs.iter().any(|d| d == "dl/odm-h" || d == "dl/odm-h/"));
}

#[test]
fn every_folder_on_the_way_is_checked_for_links() {
    let plan = link_check_plan("/data/t", &texts(&["a/b.bin", "./c.bin"]));
    assert_eq!(
        plan,
        vec![
            "/data/t", "/data", "/",
            "/data/t/a", "/data/t", "/data", "/",
            "/data/t/a/b.bin", "/data/t/a", "/data/t", "/data", "/",
            "/data/t/c.bin", "/data/t", "/data", "/",
        ]
    );
    let plan = link_check_plan("out", &texts(&["x"]));
    assert_eq!(plan, vec!["out", "", "out/x", "out", ""]);
}
