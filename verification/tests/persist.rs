use odm::backend::{BackendKind, DownloadId};
use odm::persist::{
    download_from_row, loaded_value, pending_migrations, row_from_download, stored_value, DownloadRow,
};
use odm::record::Download;
use odm::state::DownloadState;

fn sample() -> Download {
    Download {
        id: DownloadId::new(),
        url: "http://a.test/x".into(),
        destination: "x.bin".into(),
        backend: BackendKind::Http,
        state: DownloadState::Queued,
        overwrite: false,
        total_bytes: Some(100),
        downloaded_bytes: 10,
        created_at: 0,
        updated_at: 0,
        started_at: None,
        completed_at: None,
        error: None,
        backend_meta: "{\"k\":\"v\"}".into(),
    }
}

#[test]
fn row_round_trips() {
    let d = sample();
    let row = row_from_download(&d);
    assert_eq!(row.id, d.id.to_text());
    assert_eq!(row.state, "queued");
    assert_eq!(row.backend, "http");
    let got = download_from_row(&row).map_err(|e| e.message).unwrap();
    assert_eq!(got.id, d.id);
    assert_eq!(got.url, d.url);
    assert_eq!(got.state, d.state);
    assert_eq!(got.total_bytes, d.total_bytes);
    assert_eq!(got.downloaded_bytes, d.downloaded_bytes);
    assert_eq!(got.backend_meta, d.backend_meta);
    assert_eq!(got.destination, d.destination);
}

#[test]
fn stored_counts_saturate_and_negative_ones_read_as_zero() {
    assert_eq!(stored_value(5), 5);
    assert_eq!(stored_value(u64::MAX), i64::MAX);
    assert_eq!(loaded_value(-3), 0);
    assert_eq!(loaded_value(7), 7);
    let mut d = sample();
    d.total_bytes = Some(u64::MAX);
    d.downloaded_bytes = u64::MAX;
    let row = row_from_download(&d);
    assert_eq!(row.total_bytes, None);
    assert_eq!(row.downloaded_bytes, i64::MAX);
}

#[test]
fn bad_rows_name_their_column() {
    let good = row_from_download(&sample());
    let mut row = DownloadRow { id: "nope".into(), ..clone_row(&good) };
    assert_eq!(download_from_row(&row).err().map(|e| e.column), Some(0));
    row = DownloadRow { url: "::".into(), ..clone_row(&good) };
    assert_eq!(download_from_row(&row).err().map(|e| e.column), Some(1));
    row = DownloadRow { backend: "ftp".into(), ..clone_row(&good) };
    let e = download_from_row(&row).err().unwrap();
    assert_eq!((e.column, e.message.as_str()), (3, "internal error: unknown backend kind: ftp"));
    row = DownloadRow { state: "gone".into(), ..clone_row(&good) };
    let e = download_from_row(&row).err().unwrap();
    assert_eq!((e.column, e.message.as_str()), (4, "internal error: unknown download state: gone"));
    row = DownloadRow { backend_meta: Some("{not json".into()), ..clone_row(&good) };
    assert_eq!(download_from_row(&row).map_err(|e| e.column).unwrap().backend_meta, "null");
    row = DownloadRow { total_bytes: Some(-5), ..clone_row(&good) };
    assert_eq!(download_from_row(&row).map_err(|e| e.column).unwrap().total_bytes, Some(0));
}

fn clone_row(r: &DownloadRow) -> DownloadRow {
    DownloadRow {
        id: r.id.clone(),
        url: r.url.clone(),
        destination: r.destination.clone(),
        backend: r.backend.clone(),
        state: r.state.clone(),
        overwrite: r.overwrite,
        total_bytes: r.total_bytes,
        downloaded_bytes: r.downloaded_bytes,
        error: r.error.clone(),
        created_at: r.created_at,
        updated_at: r.updated_at,
        started_at: r.started_at,
        completed_at: r.completed_at,
        backend_meta: r.backend_meta.clone(),
    }
}

#[test]
fn only_unapplied_migrations_are_pending() {
    assert_eq!(pending_migrations(&vec![1, 2], &vec![]), vec![0, 1]);
    assert_eq!(pending_migrations(&vec![1, 2], &vec![1]), vec![1]);
    assert_eq!(pending_migrations(&vec![1, 2, 3], &vec![2]), vec![0, 2]);
}

#[test]
fn recorded_migrations_are_not_pending_again() {
    let known = vec![1, 2];
    let first = pending_migrations(&known, &vec![]);
    let applied: Vec<i64> = first.iter().map(|&i| known[i]).collect();
    assert!(pending_migrations(&known, &applied).is_empty());
}
