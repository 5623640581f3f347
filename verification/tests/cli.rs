use odm::cli::{app_name, app_version, log_filter, plan_download, version_line, DownloadCmd};
use odm::error::Error;

fn cmd(url: &str, output: Option<&str>) -> DownloadCmd {
    DownloadCmd { url: url.to_string(), output: output.map(str::to_string), overwrite: false }
}

#[test]
fn app_identity() {
    assert_eq!(app_name(), "OpenDownloadManager");
    assert_eq!(app_version(), "0.1.0");
    assert_eq!(version_line(), "OpenDownloadManager 0.1.0 (Phase 1 CLI)");
}

#[test]
fn download_plan_derives_or_validates_the_output() {
    let r = plan_download(&cmd("https://example.com/dir/file.zip?x=1", None)).unwrap();
    assert_eq!(r.output, "file.zip");
    assert_eq!(r.max_redirects, 10);
    assert_eq!(r.url.as_str(), "https://example.com/dir/file.zip?x=1");
    let r = plan_download(&cmd("https://example.com/f", Some("/tmp/out.bin"))).unwrap();
    assert_eq!(r.output, "/tmp/out.bin");
    assert!(matches!(
        plan_download(&cmd("https://example.com/f", Some("a/../b"))),
        Err(Error::InvalidPath(_))
    ));
    match plan_download(&cmd("not a url", None)) {
        Err(Error::InvalidUrl(m)) => assert!(m.starts_with("could not parse URL: "), "{m}"),
        other => panic!("unexpected: {:?}", other.map(|r| r.output)),
    }
}

#[test]
fn log_filter_choices() {
    assert_eq!(
        log_filter(0, false, true, Some("debug".into())),
        "warn,odm_download_engine=info,odm_http_client=warn,odm_storage=warn"
    );
    assert_eq!(log_filter(1, false, true, Some("debug,x=trace".into())), "debug,x=trace");
    assert_eq!(log_filter(0, true, true, None), "warn");
    assert_eq!(log_filter(0, false, false, None), "info");
    assert_eq!(log_filter(1, false, false, None), "debug");
    assert_eq!(log_filter(5, false, false, None), "trace");
}
