use odm::backend::{BackendKind, DownloadId};
use odm::bandwidth::{BandwidthPolicy, ManagerConfig, RecoveryPolicy};
use odm::error::Error;
use odm::manager::{DownloadSpec, Effect, ManagerCore, RunPlan, RunResult};
use odm::model::{BackendOutcome, DownloadProgress, Event};
use odm::queue::{select_for_start, Queue};
use odm::record::Download;
use odm::state::DownloadState;
use odm::url::Url;

fn filled_queue(n: usize) -> (Queue, Vec<DownloadId>) {
    let mut q = Queue::new();
    let ids: Vec<_> = (0..n).map(|_| DownloadId::new()).collect();
    for id in &ids {
        q.enqueue(*id);
    }
    (q, ids)
}

fn config(limit: usize, recovery: RecoveryPolicy) -> ManagerConfig {
    ManagerConfig {
        max_concurrent_downloads: limit,
        bandwidth: BandwidthPolicy::unlimited(),
        recover_interrupted: recovery,
    }
}

fn manager_with_limit(limit: usize) -> ManagerCore {
    ManagerCore::new(config(limit, RecoveryPolicy::Failed), vec![BackendKind::Http])
}

fn add(m: &mut ManagerCore, id: DownloadId, now: u64) -> Vec<Effect> {
    let spec = DownloadSpec::new(Url::parse("http://a.test/x").unwrap(), "x.bin".to_string());
    let d = m.prepare_enqueue(&spec, id, now).unwrap();
    m.commit_enqueue(d, now)
}

fn state(m: &ManagerCore, id: DownloadId) -> DownloadState {
    m.get(id).unwrap().state
}

fn begun(effects: &[Effect]) -> Vec<DownloadId> {
    effects
        .iter()
        .filter_map(|e| match e {
            Effect::Begin(id) => Some(*id),
            _ => None,
        })
        .collect()
}

fn published(effects: &[Effect]) -> Vec<Event> {
    effects
        .iter()
        .filter_map(|e| match e {
            Effect::Publish(ev) => Some(ev.clone()),
            _ => None,
        })
        .collect()
}

fn done(bytes: u64) -> RunResult {
    RunResult::Done(BackendOutcome {
        downloaded_bytes: bytes,
        total_bytes: Some(bytes),
        backend_meta: "null".to_string(),
    })
}

#[test]
fn unlimited_policy_has_no_budget() {
    assert_eq!(BandwidthPolicy::unlimited().per_download_budget(5), None);
    assert!(BandwidthPolicy::unlimited().limiter_for(5).is_none());
}

#[test]
fn budget_is_shared_across_active_downloads() {
    let p = BandwidthPolicy::new(Some(1000));
    assert_eq!(p.per_download_budget(1), Some(1000));
    assert_eq!(p.per_download_budget(4), Some(250));
    assert_eq!(p.per_download_budget(0), Some(1000));
}

#[test]
fn tiny_budgets_are_still_throttled() {
    let p = BandwidthPolicy::new(Some(3));
    assert_eq!(p.per_download_budget(4), Some(0));
    assert_eq!(p.limiter_for(4), Some(1));
    assert_eq!(p.limiter_for(3), Some(1));
    assert_eq!(p.limiter_for(1), Some(3));
}

#[test]
fn a_zero_cap_means_unlimited() {
    let p = BandwidthPolicy::new(Some(0));
    for n in [0usize, 1, 5] {
        assert_eq!(p.per_download_budget(n), None);
        assert_eq!(p.limiter_for(n), None);
        assert_eq!(p.per_download_budget(n), BandwidthPolicy::unlimited().per_download_budget(n));
    }
}

#[test]
fn enqueue_dequeue_and_remove() {
    let mut q = Queue::new();
    let a = DownloadId::new();
    let b = DownloadId::new();
    let c = DownloadId::new();
    q.enqueue(a);
    q.enqueue(b);
    q.enqueue(c);
    assert_eq!(q.len(), 3);
    assert_eq!(q.dequeue(), Some(a));
    assert!(q.remove(&b));
    assert_eq!(q.dequeue(), Some(c));
    assert!(q.is_empty());
}

#[test]
fn remove_of_absent_id_is_false() {
    let mut q = Queue::new();
    let a = DownloadId::new();
    assert!(!q.remove(&a));
}

#[test]
fn selects_up_to_limit_in_order() {
    let (q, ids) = filled_queue(5);
    assert_eq!(select_for_start(&q, 0, 2), vec![ids[0], ids[1]]);
    assert_eq!(select_for_start(&q, 1, 3), vec![ids[0], ids[1]]);
    assert_eq!(select_for_start(&q, 0, 10).len(), 5);
}

#[test]
fn no_capacity_selects_nothing() {
    let (q, ids) = filled_queue(3);
    assert!(select_for_start(&q, 2, 2).is_empty());
    assert_eq!(select_for_start(&q, 2, 3), vec![ids[0]]);
}

#[test]
fn core_respects_concurrency_limit() {
    let mut m = manager_with_limit(2);
    let ids: Vec<_> = (1..=4u128).map(DownloadId).collect();
    let mut started = Vec::new();
    for id in &ids {
        started.extend(begun(&add(&mut m, *id, 10)));
    }
    assert_eq!(started, vec![ids[0], ids[1]]);
    assert_eq!(m.count_active(), 2);
    assert_eq!(state(&m, ids[2]), DownloadState::Queued);
    let effects = m.finish(ids[0], done(5), 20);
    assert_eq!(begun(&effects), vec![ids[2]]);
    assert_eq!(state(&m, ids[0]), DownloadState::Completed);
    assert_eq!(m.count_active(), 2);
}

#[test]
fn zero_limit_only_queues_in_order() {
    let mut m = manager_with_limit(0);
    let a = DownloadId(1);
    let b = DownloadId(2);
    let ea = add(&mut m, a, 1);
    let eb = add(&mut m, b, 2);
    assert_eq!(published(&ea), vec![Event::Queued(a)]);
    assert_eq!(published(&eb), vec![Event::Queued(b)]);
    assert!(begun(&ea).is_empty() && begun(&eb).is_empty());
    let listed: Vec<_> = m.list().iter().map(|d| d.id).collect();
    assert_eq!(listed, vec![a, b]);
}

#[test]
fn pause_then_resume_requeues_and_completes() {
    let mut m = manager_with_limit(1);
    let id = DownloadId(9);
    add(&mut m, id, 1);
    assert_eq!(state(&m, id), DownloadState::Starting);
    let e = m.pause(id).unwrap();
    assert!(matches!(e.as_slice(), [Effect::SignalCancel(x)] if *x == id));
    m.finish(id, RunResult::Failed(Error::Cancelled), 2);
    assert_eq!(state(&m, id), DownloadState::Paused);
    let e = m.resume(id, 3).unwrap();
    assert_eq!(begun(&e), vec![id]);
    m.finish(id, done(100), 4);
    let d = m.get(id).unwrap();
    assert_eq!(d.state, DownloadState::Completed);
    assert_eq!(d.downloaded_bytes, 100);
    assert_eq!(d.completed_at, Some(4));
}

#[test]
fn cancelling_an_active_download_marks_it_cancelled() {
    let mut m = manager_with_limit(1);
    let id = DownloadId(3);
    add(&mut m, id, 1);
    let e = m.cancel(id, 2).unwrap();
    assert!(e.iter().any(|x| matches!(x, Effect::SignalCancel(y) if *y == id)));
    let e = m.finish(id, RunResult::Failed(Error::Cancelled), 3);
    assert!(published(&e).contains(&Event::Cancelled(id)));
    assert_eq!(state(&m, id), DownloadState::Cancelled);
    assert!(m.resume(id, 4).is_err());
}

#[test]
fn failed_download_is_retried() {
    let mut m = manager_with_limit(1);
    let id = DownloadId(4);
    add(&mut m, id, 1);
    let e = m.finish(id, RunResult::Failed(Error::Network("reset".into())), 2);
    assert!(published(&e).contains(&Event::Failed { id, error: "network error: reset".into() }));
    let d = m.get(id).unwrap();
    assert_eq!(d.state, DownloadState::Failed);
    assert_eq!(d.error.as_deref(), Some("network error: reset"));
    let e = m.retry(id, 3).unwrap();
    assert_eq!(begun(&e), vec![id]);
    assert_eq!(state(&m, id), DownloadState::Starting);
}

#[test]
fn removing_a_queued_download_deletes_it() {
    let mut m = manager_with_limit(0);
    let id = DownloadId(5);
    add(&mut m, id, 1);
    let e = m.remove(id, 2).unwrap();
    assert!(e.iter().any(|x| matches!(x, Effect::Delete(y) if *y == id)));
    assert!(m.get(id).is_none());
    assert!(m.remove(id, 3).is_err());
}

#[test]
fn recovery_fails_interrupted_downloads() {
    let mut m = manager_with_limit(3);
    let mut rows = Vec::new();
    for (n, st) in [(1u128, DownloadState::Downloading), (2, DownloadState::Queued), (3, DownloadState::Completed)] {
        rows.push(Download {
            id: DownloadId(n),
            url: "http://a.test/x".into(),
            destination: "x.bin".into(),
            backend: BackendKind::Http,
            state: st,
            overwrite: false,
            total_bytes: None,
            downloaded_bytes: 0,
            created_at: 0,
            updated_at: 0,
            started_at: None,
            completed_at: None,
            error: None,
            backend_meta: "null".into(),
        });
    }
    let e = m.recover(rows, 50);
    assert!(begun(&e).is_empty());
    let d = m.get(DownloadId(1)).unwrap();
    assert_eq!(d.state, DownloadState::Failed);
    assert_eq!(d.error.as_deref(), Some("interrupted by manager restart"));
    assert_eq!(state(&m, DownloadId(2)), DownloadState::Queued);
    assert_eq!(state(&m, DownloadId(3)), DownloadState::Completed);
}

#[test]
fn unknown_backend_is_refused_and_progress_is_recorded() {
    let mut m = ManagerCore::new(config(1, RecoveryPolicy::Queued), vec![BackendKind::Http]);
    let mut spec = DownloadSpec::new(Url::parse("magnet:?xt=urn:btih:AA").unwrap(), "t".into());
    spec.backend = BackendKind::Torrent;
    match m.prepare_enqueue(&spec, DownloadId(1), 0) {
        Err(Error::Internal(msg)) => assert_eq!(msg, "no backend registered for torrent"),
        other => panic!("unexpected: {:?}", other.map(|d| d.id)),
    }
    let id = DownloadId(2);
    add(&mut m, id, 0);
    match m.plan_run(id, 1) {
        RunPlan::Run { record, rate } => {
            assert_eq!(record.id, id);
            assert_eq!(rate, None);
        }
        _ => panic!("run expected"),
    }
    let e = m.on_progress(id, DownloadProgress { downloaded_bytes: 10, total_bytes: Some(20), at: 5 }, 5);
    assert!(published(&e).iter().any(|ev| matches!(ev, Event::Progress { downloaded_bytes: 10, .. })));
    let d = m.get(id).unwrap();
    assert_eq!((d.downloaded_bytes, d.total_bytes), (10, Some(20)));
}

#[test]
fn refused_requests_change_nothing() {
    let mut m = manager_with_limit(0);
    let id = DownloadId(11);
    add(&mut m, id, 1);
    let before: Vec<_> = m.list().iter().map(|d| (d.id, d.state, d.updated_at)).collect();
    match m.pause(id) {
        Err(Error::Internal(msg)) => assert!(msg.starts_with("cannot pause download ")),
        other => panic!("unexpected: {:?}", other.map(|e| e.len())),
    }
    assert!(m.resume(id, 5).is_err());
    assert!(m.retry(id, 5).is_err());
    assert!(m.start(DownloadId(99), 5).is_err());
    assert!(m.cancel(DownloadId(99), 5).is_err());
    assert!(m.remove(DownloadId(99), 5).is_err());
    let after: Vec<_> = m.list().iter().map(|d| (d.id, d.state, d.updated_at)).collect();
    assert_eq!(before, after);
}

#[test]
fn recovery_keeps_settled_downloads_as_stored() {
    let mut m = ManagerCore::new(config(0, RecoveryPolicy::Queued), vec![BackendKind::Http]);
    let paused = Download {
        id: DownloadId(7),
        url: "http://a.test/p".into(),
        destination: "p.bin".into(),
        backend: BackendKind::Http,
        state: DownloadState::Paused,
        overwrite: true,
        total_bytes: Some(100),
        downloaded_bytes: 40,
        created_at: 1,
        updated_at: 2,
        started_at: Some(1),
        completed_at: None,
        error: Some("paused by user".into()),
        backend_meta: "{\"k\":1}".into(),
    };
    let mut queued = paused.clone();
    queued.id = DownloadId(8);
    queued.state = DownloadState::Queued;
    let mut running = paused.clone();
    running.id = DownloadId(9);
    running.state = DownloadState::Downloading;
    let e = m.recover(vec![paused.clone(), queued.clone(), running], 50);
    assert!(begun(&e).is_empty());
    let p = m.get(DownloadId(7)).unwrap();
    assert_eq!(
        (p.state, p.downloaded_bytes, p.updated_at, p.error.as_deref(), p.backend_meta.as_str()),
        (DownloadState::Paused, 40, 2, Some("paused by user"), "{\"k\":1}")
    );
    let q = m.get(DownloadId(8)).unwrap();
    assert_eq!((q.state, q.updated_at), (DownloadState::Queued, 2));
    let r = m.get(DownloadId(9)).unwrap();
    assert_eq!((r.state, r.updated_at, r.started_at, r.error), (DownloadState::Queued, 50, None, None));
}

#[test]
fn enqueues_fill_up_to_the_limit() {
    for limit in [0usize, 2, 7] {
        let mut m = manager_with_limit(limit);
        for n in 1..=5u128 {
            add(&mut m, DownloadId(n), 10);
            let expected = std::cmp::min(limit, n as usize);
            assert_eq!(m.count_active(), expected, "limit {limit}, after {n}");
            let queued = m.list().iter().filter(|d| d.state == DownloadState::Queued).count();
            assert_eq!(queued, n as usize - expected);
        }
    }
}
