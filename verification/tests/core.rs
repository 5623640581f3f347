use odm::backend::{BackendKind, DownloadId};
use odm::error::{Error, ExitCode};
use odm::model::Event;
use odm::state::DownloadState;
use odm::url::Url;

const ALL_STATES: [DownloadState; 7] = [
    DownloadState::Queued,
    DownloadState::Starting,
    DownloadState::Downloading,
    DownloadState::Paused,
    DownloadState::Completed,
    DownloadState::Failed,
    DownloadState::Cancelled,
];

#[test]
fn valid_transitions_are_allowed() {
    assert!(DownloadState::Queued.transition(DownloadState::Starting).is_ok());
    assert!(DownloadState::Starting.transition(DownloadState::Downloading).is_ok());
    assert!(DownloadState::Downloading.transition(DownloadState::Paused).is_ok());
    assert!(DownloadState::Paused.transition(DownloadState::Queued).is_ok());
    assert!(DownloadState::Downloading.transition(DownloadState::Completed).is_ok());
    assert!(DownloadState::Starting.transition(DownloadState::Completed).is_ok());
    assert!(DownloadState::Starting.transition(DownloadState::Failed).is_ok());
    assert!(DownloadState::Failed.transition(DownloadState::Queued).is_ok());
    assert!(DownloadState::Queued.transition(DownloadState::Cancelled).is_ok());
    assert!(DownloadState::Paused.transition(DownloadState::Cancelled).is_ok());
}

#[test]
fn invalid_transitions_are_rejected() {
    assert!(DownloadState::Completed.transition(DownloadState::Downloading).is_err());
    assert!(DownloadState::Cancelled.transition(DownloadState::Queued).is_err());
    assert!(DownloadState::Paused.transition(DownloadState::Downloading).is_err());
    assert!(DownloadState::Queued.transition(DownloadState::Completed).is_err());
    assert!(DownloadState::Downloading.transition(DownloadState::Queued).is_err());
    assert!(DownloadState::Completed.transition(DownloadState::Failed).is_err());
}

#[test]
fn terminal_states_have_no_successors() {
    assert!(DownloadState::Completed.next_states().is_empty());
    assert!(DownloadState::Cancelled.next_states().is_empty());
}

#[test]
fn display_and_parse_round_trip() {
    for state in ALL_STATES {
        let text = state.as_str();
        assert_eq!(DownloadState::parse(text).unwrap(), state);
    }
}

#[test]
fn backend_kind_round_trips() {
    assert_eq!(BackendKind::parse("http").unwrap(), BackendKind::Http);
    assert_eq!(BackendKind::Http.as_str(), "http");
    assert!(BackendKind::parse("ftp").is_err());
}

#[test]
fn download_id_round_trips() {
    let id = DownloadId::new();
    let text = id.to_text();
    assert_eq!(DownloadId::parse(&text).unwrap(), id);
    assert!(DownloadId::parse("not-a-uuid").is_err());
}

#[test]
fn events_are_cloneable_and_comparable() {
    let a = Event::Started(DownloadId::new());
    let b = a.clone();
    assert_eq!(a, b);

    let c = Event::StateChanged {
        id: DownloadId::new(),
        from: DownloadState::Queued,
        to: DownloadState::Starting,
    };
    let d = c.clone();
    assert_eq!(c, d);
}

#[test]
fn events_of_different_downloads_differ() {
    let id = DownloadId(7);
    let failed = Event::Failed { id, error: "x".to_string() };
    assert_ne!(failed, Event::Failed { id, error: "y".to_string() });
    assert_ne!(Event::Started(id), Event::Started(DownloadId(8)));
    assert_ne!(Event::Started(id), Event::Completed(id));
}

#[test]
fn transition_table_matches_successor_lists() {
    for from in ALL_STATES {
        let next = from.next_states();
        for to in ALL_STATES {
            assert_eq!(from.is_valid_transition(to), next.contains(&to));
        }
    }
}

#[test]
fn refused_transition_names_both_states() {
    match DownloadState::Completed.transition(DownloadState::Downloading) {
        Err(Error::Internal(m)) => {
            assert_eq!(m, "invalid download state transition: completed -> downloading");
        }
        other => panic!("unexpected: {other:?}"),
    }
}

#[test]
fn state_text_forms_are_distinct() {
    for a in ALL_STATES {
        for b in ALL_STATES {
            assert_eq!(a.as_str() == b.as_str(), a == b);
        }
    }
    assert!(DownloadState::parse("bogus").is_err());
}

#[test]
fn download_id_text_is_hyphenated_lowercase() {
    let id = DownloadId(0x0123_4567_89ab_cdef_0123_4567_89ab_cdef);
    assert_eq!(id.to_text(), "01234567-89ab-cdef-0123-456789abcdef");
    let fresh = DownloadId::new();
    assert_eq!((fresh.0 >> 76) & 0xf, 4);
    assert_eq!((fresh.0 >> 62) & 0x3, 2);
}

#[test]
fn exit_codes_follow_error_kinds() {
    assert_eq!(ExitCode::from_error(&Error::InvalidUrl("x".into())).code(), 2);
    assert_eq!(ExitCode::from_error(&Error::Network("x".into())).code(), 3);
    assert_eq!(ExitCode::from_error(&Error::Http { status: 404, url: "u".into() }).code(), 4);
    assert_eq!(ExitCode::from_error(&Error::Filesystem("x".into())).code(), 5);
    assert_eq!(ExitCode::from_error(&Error::Cancelled).code(), 6);
    assert_eq!(ExitCode::from_error(&Error::Internal("x".into())).code(), 7);
    assert_eq!(ExitCode::Success.code(), 0);
}

#[test]
fn error_messages_and_fatality() {
    assert_eq!(
        Error::Http { status: 404, url: "http://a/b".into() }.message(),
        "HTTP error: status 404 for http://a/b"
    );
    assert_eq!(Error::TooManyRedirects { limit: 10 }.message(), "too many redirects (limit: 10)");
    assert!(Error::Cancelled.is_fatal());
    assert!(!Error::Network("x".into()).is_fatal());
    assert!(!Error::Interrupted.is_fatal());
}

#[test]
fn only_urls_with_path_segments_give_a_file_path() {
    let data = Url::parse("data:text/plain,hello").unwrap();
    assert_eq!(data.file_path(), None);
    let remote = Url::parse("file://example.com/etc/hosts").unwrap();
    assert_eq!(remote.file_path(), None);
    let local = Url::parse("file:///tmp/a%20b.torrent").unwrap();
    assert_eq!(local.file_path().as_deref(), Some("/tmp/a b.torrent"));
}
