use odm::error::Error;
use odm::http::{
    extract_resource_info, hex, map_request_failure, parse_content_disposition_filename, parse_u64,
    percent_decode, HttpClientConfig, RedirectPolicy, RequestFailure, ResponseHeaders,
};
use odm::url::Url;

fn headers() -> ResponseHeaders {
    ResponseHeaders {
        content_length: None,
        content_type: None,
        etag: None,
        last_modified: None,
        accept_ranges: None,
        content_disposition: None,
    }
}

#[test]
fn default_client_configuration() {
    let c = HttpClientConfig::default();
    assert_eq!(c.redirect_policy, RedirectPolicy::Limited { max: 10 });
    assert_eq!(RedirectPolicy::default(), RedirectPolicy::Limited { max: 10 });
    assert_eq!(c.connect_timeout, 15_000);
}

#[test]
fn content_disposition_filenames() {
    assert_eq!(
        parse_content_disposition_filename("attachment; filename=\"report.pdf\""),
        Some("report.pdf".to_string())
    );
    assert_eq!(
        parse_content_disposition_filename("attachment; filename*=UTF-8''na%C3%AFve%20file.txt"),
        Some("naïve file.txt".to_string())
    );
    assert_eq!(parse_content_disposition_filename("inline"), None);
    assert_eq!(parse_content_disposition_filename("attachment; filename=\"\""), None);
    assert_eq!(
        parse_content_disposition_filename("attachment; filename*=bad; filename=b.bin"),
        Some("b.bin".to_string())
    );
}

#[test]
fn percent_decoding() {
    assert_eq!(percent_decode("a%20b%2Fc"), "a b/c");
    assert_eq!(percent_decode("100%"), "100%");
    assert_eq!(percent_decode("%zz"), "%zz");
    assert_eq!(percent_decode("%FF"), "\u{FFFD}");
    assert_eq!(hex(b'a'), Some(10));
    assert_eq!(hex(b'G'), None);
}

#[test]
fn decimal_parsing_matches_u64_from_str() {
    let p = |s: &str| parse_u64(&s.chars().collect::<Vec<_>>());
    assert_eq!(p("123"), Some(123));
    assert_eq!(p("+7"), Some(7));
    assert_eq!(p(""), None);
    assert_eq!(p("+"), None);
    assert_eq!(p("1a"), None);
    assert_eq!(p("18446744073709551615"), Some(u64::MAX));
    assert_eq!(p("18446744073709551616"), None);
    for s in ["0", "42", "+9", "x", "-1", "99999999999999999999"] {
        assert_eq!(p(s), s.parse::<u64>().ok(), "{s}");
    }
}

#[test]
fn resource_info_is_read_from_headers() {
    let mut h = headers();
    h.content_length = Some(" 1024 ".into());
    h.accept_ranges = Some("Bytes".into());
    h.etag = Some("\"abc\"".into());
    h.content_disposition = Some("attachment; filename=\"x.bin\"".into());
    let info = extract_resource_info(h, Url::parse("https://example.com/a").unwrap());
    assert_eq!(info.content_length, Some(1024));
    assert!(info.accepts_ranges);
    assert_eq!(info.etag.as_deref(), Some("\"abc\""));
    assert_eq!(info.suggested_filename.as_deref(), Some("x.bin"));
    assert_eq!(info.final_url.as_str(), "https://example.com/a");

    let mut h = headers();
    h.content_length = Some("lots".into());
    h.accept_ranges = Some("none".into());
    let info = extract_resource_info(h, Url::parse("https://example.com/a").unwrap());
    assert_eq!(info.content_length, None);
    assert!(!info.accepts_ranges);
    assert_eq!(info.suggested_filename, None);
}

#[test]
fn request_failures_map_to_errors() {
    let f = |timeout, connect, status, url: Option<&str>| RequestFailure {
        timeout,
        connect,
        status,
        url: url.map(str::to_string),
        text: "boom".to_string(),
    };
    assert!(matches!(map_request_failure(f(true, false, Some(500), None)), Error::Network(m) if m == "boom"));
    assert!(matches!(map_request_failure(f(false, true, None, None)), Error::Network(_)));
    match map_request_failure(f(false, false, Some(404), Some("http://x/y"))) {
        Error::Http { status, url } => assert_eq!((status, url.as_str()), (404, "http://x/y")),
        other => panic!("unexpected: {other:?}"),
    }
    match map_request_failure(f(false, false, Some(403), None)) {
        Error::Http { url, .. } => assert_eq!(url, "<unknown>"),
        other => panic!("unexpected: {other:?}"),
    }
    assert!(matches!(map_request_failure(f(false, false, None, None)), Error::Network(_)));
}
