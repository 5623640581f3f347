use odm::engine::{
    check_before_download, default_output_for, outcome_for_transfer, request_for_task,
    validate_request, verify_length, DownloadOptions, EngineConfig, Transfer,
};
use odm::error::Error;
use odm::model::DownloadRequest;
use odm::url::Url;

fn request(url: &str, output: &str, max_redirects: usize) -> DownloadRequest {
    DownloadRequest {
        url: Url::parse(url).unwrap(),
        output: output.to_string(),
        overwrite: false,
        max_redirects,
    }
}

#[test]
fn verify_length_accepts_unknown_size() {
    assert!(verify_length(None, 0).is_ok());
    assert!(verify_length(None, 1_048_576).is_ok());
}

#[test]
fn verify_length_accepts_exact_match() {
    assert!(verify_length(Some(0), 0).is_ok());
    assert!(verify_length(Some(1024), 1024).is_ok());
}

#[test]
fn verify_length_rejects_short_transfer() {
    let err = verify_length(Some(100), 50).expect_err("must reject");
    assert!(matches!(err, Error::InvalidResponse(_)));
}

#[test]
fn verify_length_rejects_overlong_transfer() {
    let err = verify_length(Some(100), 4096).expect_err("must reject");
    assert!(matches!(err, Error::InvalidResponse(_)));
}

#[test]
fn verify_length_treats_zero_byte_response_as_complete() {
    assert!(verify_length(Some(0), 0).is_ok());
}

#[test]
fn verify_length_message_names_both_counts() {
    match verify_length(Some(100), 50) {
        Err(Error::InvalidResponse(m)) => {
            assert_eq!(m, "incomplete transfer: server announced 100 bytes, received 50");
        }
        other => panic!("unexpected: {other:?}"),
    }
}

#[test]
fn validate_request_rejects_non_http_scheme() {
    let req = request("ftp://example.com/f", "f.bin", 10);
    assert!(matches!(validate_request(&req), Err(Error::InvalidUrl(_))));
}

#[test]
fn validate_request_rejects_zero_max_redirects() {
    let req = request("https://example.com/f", "f.bin", 0);
    assert!(matches!(validate_request(&req), Err(Error::InvalidUrl(_))));
}

#[test]
fn validate_request_accepts_plain_http_request() {
    let req = request("http://example.com/f", "out/f.bin", 1);
    assert!(validate_request(&req).is_ok());
    let bad_path = request("http://example.com/f", "a/../b", 1);
    assert!(matches!(validate_request(&bad_path), Err(Error::InvalidPath(_))));
    match validate_request(&request("ftp://example.com/f", "f.bin", 10)) {
        Err(Error::InvalidUrl(m)) => assert_eq!(m, "unsupported scheme: ftp"),
        other => panic!("unexpected: {other:?}"),
    }
}

#[test]
fn default_output_for_strips_query() {
    let url = Url::parse("https://example.com/file.zip?token=abc").unwrap();
    let out = default_output_for(&url);
    assert_eq!(out, "file.zip");
}

#[test]
fn default_output_for_empty_path() {
    let url = Url::parse("https://example.com/").unwrap();
    let out = default_output_for(&url);
    assert_eq!(out, "download.bin");
}

#[test]
fn default_output_for_is_always_relative() {
    let url = Url::parse("https://example.com/a/../../etc/passwd").unwrap();
    let out = default_output_for(&url);
    let p = std::path::Path::new(&out);
    assert_eq!(p.components().count(), 1, "got {out:?}");
    assert!(p.is_relative(), "got {out:?}");
}

#[test]
fn existing_destination_is_refused_without_overwrite() {
    let req = request("https://example.com/f", "f.bin", 10);
    match check_before_download(&req, &DownloadOptions { overwrite: false }, true) {
        Err(Error::AlreadyExists(m)) => assert_eq!(m, "f.bin"),
        other => panic!("unexpected: {other:?}"),
    }
    assert!(check_before_download(&req, &DownloadOptions { overwrite: true }, true).is_ok());
    assert!(check_before_download(&req, &DownloadOptions { overwrite: false }, false).is_ok());
}

#[test]
fn transfer_reports_progress_at_intervals_and_closes_at_received_bytes() {
    let mut t = Transfer::new(Some(300), 1_000);
    assert!(t.on_chunk(0, 2_000).is_none());
    assert!(t.on_chunk(100, 1_100).is_none());
    let p = t.on_chunk(100, 1_250).expect("due");
    assert_eq!(p.downloaded_bytes, 200);
    assert_eq!(p.total_bytes, Some(300));
    assert!(t.on_chunk(50, 1_300).is_none());
    assert!(matches!(t.complete(1_400), Err(Error::InvalidResponse(_))));
    t.on_chunk(50, 1_600);
    let done = t.complete(1_700).unwrap();
    assert_eq!(done.downloaded_bytes, 300);
    assert_eq!(done.total_bytes, Some(300));

    let mut unknown = Transfer::new(None, 0);
    unknown.on_chunk(42, 10);
    let done = unknown.complete(20).unwrap();
    assert_eq!(done.total_bytes, Some(42));
}

#[test]
fn http_task_becomes_request_and_outcome() {
    let url = Url::parse("https://example.com/f").unwrap();
    let req = request_for_task(url, "f.bin".to_string(), true);
    assert_eq!(req.max_redirects, 10);
    assert!(req.overwrite);
    assert_eq!(req.output, "f.bin");
    let out = outcome_for_transfer(77);
    assert_eq!(out.downloaded_bytes, 77);
    assert_eq!(out.total_bytes, Some(77));
    assert_eq!(out.backend_meta, "null");
}

#[test]
fn engine_config_defaults() {
    let c = EngineConfig::default();
    assert_eq!(c.http.connect_timeout, 15_000);
    assert_eq!(c.http.request_timeout, 0);
    assert!(c.http.accept_encoding);
    assert_eq!(
        c.http.user_agent,
        "OpenDownloadManager/0.1.0 (+https://github.com/opendownloadmanager)"
    );
}
