//! The protocol-neutral download manager's decisions.
//!
//! The manager owns the download records, the queue, the scheduler and the
//! lifecycle state machine. Every operation here is a pure decision: it
//! updates the in-memory state and returns the effects the caller carries out
//! in order (persist a record, publish an event, start or signal a transfer).
//! The caller owns the database, the event channel and the running tasks.

use vstd::prelude::*;

use crate::backend::{uuid_hyphenated, BackendKind, DownloadId};
use crate::bandwidth::ManagerConfig;
use crate::error::Error;
use crate::model::{event_view, Event, EventView};
use crate::queue::{without, Queue};
use crate::record::{Download, DownloadView};
use crate::state::{allows, transition_message, DownloadState};
use crate::text::push_str;

verus! {


/// Something the caller must carry out after a manager decision.
pub enum Effect {
    /// Persist the record; a failure is reported by the operation.
    Save(Download),
    /// Persist the record; a failure is ignored.
    SaveQuietly(Download),
    /// Delete the persisted record.
    Delete(DownloadId),
    /// Publish the event on the event bus.
    Publish(Event),
    /// Start the transfer task of the download.
    Begin(DownloadId),
    /// Signal the running transfer to stop.
    SignalCancel(DownloadId),
    /// Signal the running transfer to stop and dispose of its data.
    SignalDispose(DownloadId),
    /// Ask the download's backend to dispose of the data of this (paused)
    /// download.
    DisposeData(Download),
}

/// An effect with its texts taken by view.
pub enum EffectView {
    Save(DownloadView),
    SaveQuietly(DownloadView),
    Delete(DownloadId),
    Publish(EventView),
    Begin(DownloadId),
    SignalCancel(DownloadId),
    SignalDispose(DownloadId),
    DisposeData(DownloadView),
}

/// The view of an effect.
pub open spec fn effect_view(e: Effect) -> EffectView {
    match e {
        Effect::Save(d) => EffectView::Save(d@),
        Effect::SaveQuietly(d) => EffectView::SaveQuietly(d@),
        Effect::Delete(id) => EffectView::Delete(id),
        Effect::Publish(ev) => EffectView::Publish(event_view(ev)),
        Effect::Begin(id) => EffectView::Begin(id),
        Effect::SignalCancel(id) => EffectView::SignalCancel(id),
        Effect::SignalDispose(id) => EffectView::SignalDispose(id),
        Effect::DisposeData(d) => EffectView::DisposeData(d@),
    }
}

/// The views of a list of effects.
pub open spec fn effects_view(v: Seq<Effect>) -> Seq<EffectView> {
    Seq::new(v.len(), |i: int| effect_view(v[i]))
}

/// The views of a list of records.
pub open spec fn records_view(v: Seq<Download>) -> Seq<DownloadView> {
    Seq::new(v.len(), |i: int| v[i]@)
}

/// The abstract state of the manager.
pub struct CoreView {
    /// Configuration.
    pub config: ManagerConfig,
    /// The protocols a backend is registered for.
    pub backends: Seq<BackendKind>,
    /// The tracked downloads.
    pub downloads: Seq<DownloadView>,
    /// Queued download ids in enqueue order.
    pub queue: Seq<DownloadId>,
    /// Downloads whose running transfer was asked to pause.
    pub intents: Seq<DownloadId>,
}

/// The position of the record with `id`, or -1.
pub open spec fn index_of(s: Seq<DownloadView>, id: DownloadId) -> int
    decreases s.len(),
{
    if s.len() == 0 {
        -1
    } else if s.last().id == id {
        s.len() - 1
    } else {
        index_of(s.drop_last(), id)
    }
}

/// `index_of` finds a record with the id, or reports that none exists.
pub proof fn lemma_index_of(s: Seq<DownloadView>, id: DownloadId)
    ensures
        -1 <= index_of(s, id) < s.len(),
        index_of(s, id) >= 0 ==> s[index_of(s, id)].id == id,
        index_of(s, id) < 0 ==> forall|i: int| 0 <= i < s.len() ==> s[i].id != id,
    decreases s.len(),
{
    if s.len() > 0 && s.last().id != id {
        lemma_index_of(s.drop_last(), id);
        assert forall|i: int| 0 <= i < s.len() && index_of(s, id) < 0 implies s[i].id != id by {
            if i < s.len() - 1 {
                assert(s[i] == s.drop_last()[i]);
            }
        }
    }
}

/// The number of downloads currently transferring (starting or
/// downloading).
pub open spec fn active_count(s: Seq<DownloadView>) -> nat
    decreases s.len(),
{
    if s.len() == 0 {
        0
    } else {
        active_count(s.drop_last()) + if is_active(s.last().state) {
            1nat
        } else {
            0nat
        }
    }
}

/// A state in which a transfer task runs.
pub open spec fn is_active(s: DownloadState) -> bool {
    s == DownloadState::Starting || s == DownloadState::Downloading
}

/// The record after a legal transition to `next` at time `now`.
pub open spec fn transitioned(
    d: DownloadView,
    next: DownloadState,
    error: Option<Seq<char>>,
    now: u64,
) -> DownloadView {
    let base = DownloadView { state: next, updated_at: now, ..d };
    match next {
        DownloadState::Downloading => DownloadView {
            started_at: if d.started_at is None {
                Some(now)
            } else {
                d.started_at
            },
            ..base
        },
        DownloadState::Completed => DownloadView { completed_at: Some(now), error: None, ..base },
        DownloadState::Failed | DownloadState::Cancelled => DownloadView { error: error, ..base },
        _ => if error is Some {
            DownloadView { error: error, ..base }
        } else {
            base
        },
    }
}

/// The text `Display` writes for a download id.
pub open spec fn id_text(id: DownloadId) -> Seq<char> {
    uuid_hyphenated(id.0)
}

/// The outcome of moving download `id` to `next`: the new state, the effects
/// (persist the record, publish the change) and the error text, if refused.
pub open spec fn transition_outcome(
    v: CoreView,
    id: DownloadId,
    next: DownloadState,
    error: Option<Seq<char>>,
    now: u64,
) -> (CoreView, Seq<EffectView>, Option<Seq<char>>) {
    let i = index_of(v.downloads, id);
    if i < 0 {
        (v, seq![], Some("unknown download "@ + id_text(id)))
    } else {
        let d = v.downloads[i];
        if !allows(d.state, next) {
            (v, seq![], Some("internal error: "@ + transition_message(d.state, next)))
        } else {
            let nd = transitioned(d, next, error, now);
            (
                CoreView { downloads: v.downloads.update(i, nd), ..v },
                seq![
                    EffectView::Save(nd),
                    EffectView::Publish(EventView::StateChanged { id, from: d.state, to: next }),
                ],
                None,
            )
        }
    }
}

/// Starting a transfer: mark the download starting, announce it and start
/// its task; nothing happens if the download cannot start.
pub open spec fn begin_outcome(v: CoreView, id: DownloadId, now: u64) -> (CoreView, Seq<EffectView>) {
    let t = transition_outcome(v, id, DownloadState::Starting, None, now);
    if t.2 is Some {
        (v, seq![])
    } else {
        (
            t.0,
            t.1 + seq![
                EffectView::Publish(EventView::Started(id)),
                EffectView::Begin(id),
            ],
        )
    }
}

/// Removing the front id of a non-empty queue shrinks it.
pub proof fn lemma_without_front(q: Seq<DownloadId>)
    requires
        q.len() > 0,
    ensures
        without(q, q[0]).len() < q.len(),
{
    crate::queue::law_remove_keeps_others(q, q[0]);
    lemma_without_len_drops(q, q[0], 0);
}

/// Removing an id that occurs at `k` drops at least one element.
proof fn lemma_without_len_drops(q: Seq<DownloadId>, id: DownloadId, k: int)
    requires
        0 <= k < q.len(),
        q[k] == id,
    ensures
        without(q, id).len() < q.len(),
    decreases q.len(),
{
    crate::queue::law_remove_keeps_others(q.drop_last(), id);
    if q.last() != id {
        assert(k < q.len() - 1);
        lemma_without_len_drops(q.drop_last(), id, k);
    }
}

/// Starting queued downloads from the front of the queue while the number
/// of active downloads is below the limit.
pub open spec fn schedule_outcome(v: CoreView, now: u64) -> (CoreView, Seq<EffectView>)
    decreases v.queue.len(),
{
    if v.queue.len() > 0 && active_count(v.downloads) < v.config.max_concurrent_downloads {
        let id = v.queue[0];
        let v1 = CoreView { queue: without(v.queue, id), ..v };
        let b = begin_outcome(v1, id, now);
        proof {
            lemma_without_front(v.queue);
        }
        let s = schedule_outcome(b.0, now);
        (s.0, b.1 + s.1)
    } else {
        (v, seq![])
    }
}


/// The `Debug` name of a state.
pub open spec fn state_name(s: DownloadState) -> Seq<char> {
    match s {
        DownloadState::Queued => "Queued"@,
        DownloadState::Starting => "Starting"@,
        DownloadState::Downloading => "Downloading"@,
        DownloadState::Paused => "Paused"@,
        DownloadState::Completed => "Completed"@,
        DownloadState::Failed => "Failed"@,
        DownloadState::Cancelled => "Cancelled"@,
    }
}

/// The `Debug` text of an optional state.
pub open spec fn opt_state_text(o: Option<DownloadState>) -> Seq<char> {
    match o {
        Some(s) => "Some("@ + state_name(s) + ")"@,
        None => "None"@,
    }
}

/// The state of download `id`, if it is tracked.
pub open spec fn state_of(v: CoreView, id: DownloadId) -> Option<DownloadState> {
    let i = index_of(v.downloads, id);
    if i < 0 {
        None
    } else {
        Some(v.downloads[i].state)
    }
}

/// The message for an operation refused in the download's current state.
pub open spec fn cannot_msg(verb: Seq<char>, id: DownloadId, st: Option<DownloadState>) -> Seq<
    char,
> {
    "cannot "@ + verb + " download "@ + id_text(id) + " in state "@ + opt_state_text(st)
}

/// The message for an unknown download.
pub open spec fn unknown_msg(id: DownloadId) -> Seq<char> {
    "unknown download "@ + id_text(id)
}

/// `s` with `id` added if it is not there yet (set insertion).
pub open spec fn insert_id(s: Seq<DownloadId>, id: DownloadId) -> Seq<DownloadId> {
    if s.contains(id) {
        s
    } else {
        s.push(id)
    }
}

/// `start`: begin a queued download now if there is room.
pub open spec fn start_outcome(v: CoreView, id: DownloadId, now: u64) -> (
    CoreView,
    Seq<EffectView>,
    Option<Seq<char>>,
) {
    let st = state_of(v, id);
    if st != Some(DownloadState::Queued) {
        (
            v,
            seq![],
            Some("download "@ + id_text(id) + " is not queued (state: "@ + opt_state_text(st)
                + ")"@),
        )
    } else if active_count(v.downloads) >= v.config.max_concurrent_downloads {
        (v, seq![], None)
    } else {
        let b = begin_outcome(CoreView { queue: without(v.queue, id), ..v }, id, now);
        (b.0, b.1, None)
    }
}

/// `pause`: ask the running transfer of a starting or downloading download
/// to stop, remembering that the stop is a pause.
pub open spec fn pause_outcome(v: CoreView, id: DownloadId) -> (
    CoreView,
    Seq<EffectView>,
    Option<Seq<char>>,
) {
    let st = state_of(v, id);
    if st != Some(DownloadState::Starting) && st != Some(DownloadState::Downloading) {
        (v, seq![], Some(cannot_msg("pause"@, id, st)))
    } else {
        (
            CoreView { intents: insert_id(v.intents, id), ..v },
            seq![EffectView::SignalCancel(id)],
            None,
        )
    }
}

/// `resume`: re-queue a paused download.
pub open spec fn resume_outcome(v: CoreView, id: DownloadId, now: u64) -> (
    CoreView,
    Seq<EffectView>,
    Option<Seq<char>>,
) {
    let st = state_of(v, id);
    if st != Some(DownloadState::Paused) {
        (v, seq![], Some(cannot_msg("resume"@, id, st)))
    } else {
        let t = transition_outcome(v, id, DownloadState::Queued, None, now);
        if t.2 is Some {
            t
        } else {
            let s = schedule_outcome(CoreView { queue: t.0.queue.push(id), ..t.0 }, now);
            (s.0, t.1 + seq![EffectView::Publish(EventView::Resumed(id))] + s.1, None)
        }
    }
}

/// `retry`: re-queue a failed download.
pub open spec fn retry_outcome(v: CoreView, id: DownloadId, now: u64) -> (
    CoreView,
    Seq<EffectView>,
    Option<Seq<char>>,
) {
    let st = state_of(v, id);
    if st != Some(DownloadState::Failed) {
        (v, seq![], Some(cannot_msg("retry"@, id, st)))
    } else {
        let t = transition_outcome(v, id, DownloadState::Queued, None, now);
        if t.2 is Some {
            t
        } else {
            let s = schedule_outcome(CoreView { queue: t.0.queue.push(id), ..t.0 }, now);
            (s.0, t.1 + s.1, None)
        }
    }
}

/// `cancel`: stop a running transfer, or cancel a queued, paused or failed
/// download directly.
pub open spec fn cancel_outcome(v: CoreView, id: DownloadId, now: u64) -> (
    CoreView,
    Seq<EffectView>,
    Option<Seq<char>>,
) {
    match state_of(v, id) {
        None => (v, seq![], Some(unknown_msg(id))),
        Some(st) => if is_active(st) {
            (v, seq![EffectView::SignalCancel(id)], None)
        } else if st == DownloadState::Queued || st == DownloadState::Paused || st
            == DownloadState::Failed {
            let v1 = CoreView { queue: without(v.queue, id), ..v };
            let t = transition_outcome(
                v1,
                id,
                DownloadState::Cancelled,
                Some("cancelled by user"@),
                now,
            );
            if t.2 is Some {
                t
            } else {
                (t.0, t.1 + seq![EffectView::Publish(EventView::Cancelled(id))], None)
            }
        } else {
            (v, seq![], Some(cannot_msg("cancel"@, id, Some(st))))
        },
    }
}



/// `remove`: forget a download, stopping and disposing of a running
/// transfer, or disposing of a paused download's data.
pub open spec fn remove_outcome(v: CoreView, id: DownloadId, now: u64) -> (
    CoreView,
    Seq<EffectView>,
    Option<Seq<char>>,
) {
    let i = index_of(v.downloads, id);
    if i < 0 {
        (v, seq![], Some(unknown_msg(id)))
    } else {
        let d = v.downloads[i];
        let e1 = if is_active(d.state) {
            seq![EffectView::SignalDispose(id)]
        } else if d.state == DownloadState::Paused {
            seq![EffectView::DisposeData(d)]
        } else {
            seq![]
        };
        let v1 = CoreView {
            intents: without(v.intents, id),
            queue: without(v.queue, id),
            downloads: v.downloads.remove(i),
            ..v
        };
        let s = schedule_outcome(v1, now);
        (s.0, e1 + seq![EffectView::Delete(id)] + s.1, None)
    }
}

/// A progress report: the first one moves a starting download to
/// downloading; every one records the byte counts.
pub open spec fn progressed(d: DownloadView, downloaded: u64, total: Option<u64>, now: u64) -> DownloadView {
    let changed = d.state == DownloadState::Starting;
    DownloadView {
        state: if changed {
            DownloadState::Downloading
        } else {
            d.state
        },
        started_at: if changed && d.started_at is None {
            Some(now)
        } else {
            d.started_at
        },
        downloaded_bytes: downloaded,
        total_bytes: if total is Some {
            total
        } else {
            d.total_bytes
        },
        updated_at: now,
        ..d
    }
}

/// `on_progress`: record a progress report of download `id`.
pub open spec fn progress_outcome(
    v: CoreView,
    id: DownloadId,
    downloaded: u64,
    total: Option<u64>,
    now: u64,
) -> (CoreView, Seq<EffectView>) {
    let i = index_of(v.downloads, id);
    if i < 0 {
        (v, seq![])
    } else {
        let d = v.downloads[i];
        let nd = progressed(d, downloaded, total, now);
        let changed = if d.state == DownloadState::Starting {
            seq![
                EffectView::Publish(
                    EventView::StateChanged {
                        id,
                        from: DownloadState::Starting,
                        to: DownloadState::Downloading,
                    },
                ),
            ]
        } else {
            seq![]
        };
        (
            CoreView { downloads: v.downloads.update(i, nd), ..v },
            seq![EffectView::SaveQuietly(nd)] + changed + seq![
                EffectView::Publish(
                    EventView::Progress { id, downloaded_bytes: downloaded, total_bytes: total },
                ),
            ],
        )
    }
}


/// How a transfer ended, as reported by the backend.
pub enum RunResult {
    /// The transfer completed.
    Done(crate::model::BackendOutcome),
    /// The transfer ended with an error (`Error::Cancelled` when it was
    /// signalled to stop).
    Failed(Error),
}

/// A transfer result with its texts taken by view.
pub enum RunResultView {
    Done { downloaded: u64, total: Option<u64>, meta: Seq<char> },
    Failed(Error),
}

/// The view of a transfer result.
pub open spec fn run_result_view(r: RunResult) -> RunResultView {
    match r {
        RunResult::Done(o) => RunResultView::Done {
            downloaded: o.downloaded_bytes,
            total: o.total_bytes,
            meta: o.backend_meta@,
        },
        RunResult::Failed(e) => RunResultView::Failed(e),
    }
}

/// What a finished transfer moves its download to, the error text recorded
/// and the event announcing it; `paused` tells whether a pause was asked for.
pub open spec fn failure_target(e: Error, paused: bool, id: DownloadId) -> (
    DownloadState,
    Seq<char>,
    EventView,
) {
    if e is Cancelled && paused {
        (DownloadState::Paused, "paused by user"@, EventView::Paused(id))
    } else if e is Cancelled {
        (DownloadState::Cancelled, "cancelled by user"@, EventView::Cancelled(id))
    } else {
        (
            DownloadState::Failed,
            crate::error::error_text(e),
            EventView::Failed { id, error: crate::error::error_text(e) },
        )
    }
}

/// `finish`: the transfer of download `id` ended with `r`.
pub open spec fn finish_outcome(v: CoreView, id: DownloadId, r: RunResultView, now: u64) -> (
    CoreView,
    Seq<EffectView>,
) {
    match r {
        RunResultView::Done { downloaded, total, meta } => {
            let i = index_of(v.downloads, id);
            let v1 = if i < 0 {
                v
            } else {
                let d = v.downloads[i];
                CoreView {
                    downloads: v.downloads.update(
                        i,
                        DownloadView {
                            downloaded_bytes: downloaded,
                            total_bytes: if total is Some {
                                total
                            } else {
                                d.total_bytes
                            },
                            backend_meta: meta,
                            updated_at: now,
                            ..d
                        },
                    ),
                    ..v
                }
            };
            let t = transition_outcome(v1, id, DownloadState::Completed, None, now);
            let s = schedule_outcome(CoreView { intents: without(t.0.intents, id), ..t.0 }, now);
            (s.0, t.1 + seq![EffectView::Publish(EventView::Completed(id))] + s.1)
        },
        RunResultView::Failed(e) => {
            let paused = v.intents.contains(id);
            let v1 = CoreView { intents: without(v.intents, id), ..v };
            let f = failure_target(e, paused, id);
            let t = transition_outcome(v1, id, f.0, Some(f.1), now);
            let s = schedule_outcome(CoreView { intents: without(t.0.intents, id), ..t.0 }, now);
            (s.0, t.1 + seq![EffectView::Publish(f.2)] + s.1)
        },
    }
}

/// What to do when the transfer task of a download starts.
pub enum RunPlan {
    /// The download is gone or no longer starting or downloading.
    Skip,
    /// No backend serves the download's protocol: it was failed, and these
    /// are the effects of doing so.
    NoBackend(Vec<Effect>),
    /// Run the transfer of this record, throttled to `rate` bytes per second
    /// when there is a rate.
    Run { record: Download, rate: Option<u64> },
}

/// The record of a new download.
pub open spec fn new_record(spec: DownloadSpecView, id: DownloadId, now: u64) -> DownloadView {
    DownloadView {
        id,
        url: spec.url,
        destination: spec.destination,
        backend: spec.backend,
        state: DownloadState::Queued,
        overwrite: spec.overwrite,
        total_bytes: None,
        downloaded_bytes: 0,
        created_at: now,
        updated_at: now,
        started_at: None,
        completed_at: None,
        error: None,
        backend_meta: spec.backend_meta,
    }
}

/// A download request with texts taken by view.
pub struct DownloadSpecView {
    pub url: Seq<char>,
    pub destination: Seq<char>,
    pub backend: BackendKind,
    pub overwrite: bool,
    pub backend_meta: Seq<char>,
}

/// `records` with `d` stored under its id, replacing a record with the same
/// id (map insertion).
pub open spec fn put(records: Seq<DownloadView>, d: DownloadView) -> Seq<DownloadView> {
    let i = index_of(records, d.id);
    if i < 0 {
        records.push(d)
    } else {
        records.update(i, d)
    }
}

/// Committing a new, already persisted record: track and queue it, announce
/// it, and schedule.
pub open spec fn commit_outcome(v: CoreView, d: DownloadView, now: u64) -> (CoreView, Seq<EffectView>) {
    let v1 = CoreView { downloads: put(v.downloads, d), queue: v.queue.push(d.id), ..v };
    let s = schedule_outcome(v1, now);
    (s.0, seq![EffectView::Publish(EventView::Queued(d.id))] + s.1)
}

/// The record a download found in flight at startup is recovered to.
pub open spec fn recovered(d: DownloadView, policy: crate::bandwidth::RecoveryPolicy, now: u64) -> Option<DownloadView> {
    if !is_active(d.state) {
        None
    } else if policy == crate::bandwidth::RecoveryPolicy::Failed {
        Some(
            DownloadView {
                state: DownloadState::Failed,
                error: Some("interrupted by manager restart"@),
                updated_at: now,
                ..d
            },
        )
    } else {
        Some(
            DownloadView {
                state: DownloadState::Queued,
                started_at: None,
                error: None,
                updated_at: now,
                ..d
            },
        )
    }
}

/// Loading one persisted record at startup.
pub open spec fn recover_step(v: CoreView, d: DownloadView, now: u64) -> (CoreView, Seq<EffectView>) {
    match recovered(d, v.config.recover_interrupted, now) {
        Some(nd) => {
            let announce = if nd.state == DownloadState::Failed {
                EventView::Failed { id: nd.id, error: "interrupted by manager restart"@ }
            } else {
                EventView::Queued(nd.id)
            };
            (
                CoreView {
                    downloads: put(v.downloads, nd),
                    queue: if nd.state == DownloadState::Queued {
                        v.queue.push(nd.id)
                    } else {
                        v.queue
                    },
                    ..v
                },
                seq![
                    EffectView::Save(nd),
                    EffectView::Publish(
                        EventView::StateChanged { id: nd.id, from: d.state, to: nd.state },
                    ),
                    EffectView::Publish(announce),
                ],
            )
        },
        None => (
            CoreView {
                downloads: put(v.downloads, d),
                queue: if d.state == DownloadState::Queued {
                    v.queue.push(d.id)
                } else {
                    v.queue
                },
                ..v
            },
            seq![],
        ),
    }
}

/// Loading all persisted records at startup, in order.
pub open spec fn recover_outcome(v: CoreView, rows: Seq<DownloadView>, now: u64) -> (
    CoreView,
    Seq<EffectView>,
)
    decreases rows.len(),
{
    if rows.len() == 0 {
        (v, seq![])
    } else {
        let a = recover_outcome(v, rows.drop_last(), now);
        let b = recover_step(a.0, rows.last(), now);
        (b.0, a.1 + b.1)
    }
}

/// The `Debug` text of an optional state.
fn opt_state_debug(o: Option<DownloadState>) -> (r: String)
    ensures
        r@ == opt_state_text(o),
{
    let mut m = String::new();
    match o {
        None => push_str(&mut m, "None"),
        Some(s) => {
            push_str(&mut m, "Some(");
            let name = match s {
                DownloadState::Queued => "Queued",
                DownloadState::Starting => "Starting",
                DownloadState::Downloading => "Downloading",
                DownloadState::Paused => "Paused",
                DownloadState::Completed => "Completed",
                DownloadState::Failed => "Failed",
                DownloadState::Cancelled => "Cancelled",
            };
            assert(name@ == state_name(s));
            push_str(&mut m, name);
            push_str(&mut m, ")");
        },
    }
    m
}

/// The message for an operation refused in the download's current state.
fn cannot_message(verb: &str, id: DownloadId, st: Option<DownloadState>) -> (r: String)
    ensures
        r@ == cannot_msg(verb@, id, st),
{
    let mut m = String::new();
    push_str(&mut m, "cannot ");
    push_str(&mut m, verb);
    push_str(&mut m, " download ");
    let t = id.to_text();
    push_str(&mut m, t.as_str());
    push_str(&mut m, " in state ");
    let d = opt_state_debug(st);
    push_str(&mut m, d.as_str());
    m
}

/// The message for an unknown download.
fn unknown_message(id: DownloadId) -> (r: String)
    ensures
        r@ == unknown_msg(id),
{
    let mut m = String::new();
    push_str(&mut m, "unknown download ");
    let t = id.to_text();
    push_str(&mut m, t.as_str());
    m
}


/// A request to enqueue a new download.
pub struct DownloadSpec {
    /// Source URL.
    pub url: crate::url::Url,
    /// Final on-disk destination.
    pub destination: String,
    /// Which backend executes the transfer.
    pub backend: BackendKind,
    /// Whether an existing destination may be overwritten.
    pub overwrite: bool,
    /// Opaque, protocol-specific metadata (JSON text).
    pub backend_meta: String,
}

impl DownloadSpec {
    /// A spec for `url` written to `destination` with the HTTP backend,
    /// without overwrite and with no metadata (`null`).
    pub fn new(url: crate::url::Url, destination: String) -> (r: DownloadSpec)
        ensures
            r.url@ == url@,
            r.destination == destination,
            r.backend == BackendKind::Http,
            !r.overwrite,
            r.backend_meta@ == "null"@,
    {
        let mut meta = String::new();
        push_str(&mut meta, "null");
        DownloadSpec { url, destination, backend: BackendKind::Http, overwrite: false, backend_meta: meta }
    }

    /// Sets the overwrite flag.
    pub fn with_overwrite(self, overwrite: bool) -> (r: DownloadSpec)
        ensures
            r.overwrite == overwrite,
            r.url@ == self.url@,
            r.destination == self.destination,
            r.backend == self.backend,
            r.backend_meta == self.backend_meta,
    {
        DownloadSpec { overwrite, ..self }
    }

    /// The view of the spec.
    pub open spec fn spec_view(&self) -> DownloadSpecView {
        DownloadSpecView {
            url: self.url@.text,
            destination: self.destination@,
            backend: self.backend,
            overwrite: self.overwrite,
            backend_meta: self.backend_meta@,
        }
    }
}

/// The download manager's state.
pub struct ManagerCore {
    config: ManagerConfig,
    backends: Vec<BackendKind>,
    downloads: Vec<Download>,
    queue: Queue,
    intents: Vec<DownloadId>,
}

impl View for ManagerCore {
    type V = CoreView;

    closed spec fn view(&self) -> CoreView {
        CoreView {
            config: self.config,
            backends: self.backends@,
            downloads: records_view(self.downloads@),
            queue: self.queue@,
            intents: self.intents@,
        }
    }
}

impl ManagerCore {
    /// A manager with the given configuration and registered backend kinds,
    /// tracking no download yet.
    pub fn new(config: ManagerConfig, backends: Vec<BackendKind>) -> (r: ManagerCore)
        ensures
            r@.config == config,
            r@.backends == backends@,
            r@.downloads.len() == 0,
            r@.queue.len() == 0,
            r@.intents.len() == 0,
    {
        ManagerCore { config, backends, downloads: Vec::new(), queue: Queue::new(), intents: Vec::new() }
    }

    /// The position of the record with `id`.
    fn find(&self, id: DownloadId) -> (r: Option<usize>)
        ensures
            r matches Some(i) ==> i == index_of(self@.downloads, id) && i < self@.downloads.len()
                && self@.downloads[i as int].id == id,
            r is None ==> index_of(self@.downloads, id) < 0,
    {
        proof {
            lemma_index_of(self@.downloads, id);
        }
        let ghost s = self@.downloads;
        let n = self.downloads.len();
        let mut k = n;
        assert(s.take(n as int) =~= s);
        while k > 0
            invariant
                k <= n,
                n == s.len(),
                s == records_view(self.downloads@),
                index_of(s, id) == index_of(s.take(k as int), id),
            decreases k,
        {
            let d = &self.downloads[k - 1];
            assert(s.take(k as int).last() == s[k - 1]);
            assert(s.take(k as int).drop_last() =~= s.take(k - 1));
            if d.id == id {
                return Some(k - 1);
            }
            k = k - 1;
        }
        assert(s.take(0) =~= Seq::<DownloadView>::empty());
        None
    }

    /// The number of downloads currently starting or downloading.
    pub fn count_active(&self) -> (r: usize)
        ensures
            r == active_count(self@.downloads),
    {
        let ghost s = self@.downloads;
        let n = self.downloads.len();
        let mut c: usize = 0;
        for i in 0..n
            invariant
                n == s.len(),
                s == records_view(self.downloads@),
                c == active_count(s.take(i as int)),
                c <= i,
        {
            assert(s.take(i + 1).drop_last() =~= s.take(i as int));
            let st = self.downloads[i].state;
            if st == DownloadState::Starting || st == DownloadState::Downloading {
                c = c + 1;
            }
        }
        assert(s.take(n as int) =~= s);
        c
    }

    /// Moves download `id` to `next`, recording `error` as the transition
    /// rules say, and reports the effects to carry out.
    fn transition_state(
        &mut self,
        id: DownloadId,
        next: DownloadState,
        error: Option<String>,
        now: u64,
        effects: &mut Vec<Effect>,
    ) -> (r: Result<(), Error>)
        ensures
            ({
                let t = transition_outcome(
                    old(self)@,
                    id,
                    next,
                    crate::record::opt_text(error),
                    now,
                );
                &&& final(self)@ == t.0
                &&& effects_view(final(effects)@) == effects_view(old(effects)@) + t.1
                &&& t.2 is None ==> r is Ok
                &&& t.2 matches Some(m) ==> (r matches Err(Error::Internal(x)) && x@ == m)
            }),
    {
        let ghost ev = error;
        match self.find(id) {
            None => {
                let mut m = String::new();
                push_str(&mut m, "unknown download ");
                let t = id.to_text();
                push_str(&mut m, t.as_str());
                Err(Error::Internal(m))
            },
            Some(i) => {
                let from = self.downloads[i].state;
                match from.transition(next) {
                    Err(e) => Err(Error::Internal(e.message())),
                    Ok(to) => {
                        let mut d = self.downloads[i].clone();
                        d.state = to;
                        d.updated_at = now;
                        match to {
                            DownloadState::Downloading => {
                                if d.started_at.is_none() {
                                    d.started_at = Some(now);
                                }
                            },
                            DownloadState::Completed => {
                                d.completed_at = Some(now);
                                d.error = None;
                            },
                            DownloadState::Failed | DownloadState::Cancelled => {
                                d.error = error;
                            },
                            _ => {
                                if error.is_some() {
                                    d.error = error;
                                }
                            },
                        }
                        let saved = d.clone();
                        self.downloads.set(i, d);
                        let ghost before = old(effects)@;
                        effects.push(Effect::Save(saved));
                        effects.push(
                            Effect::Publish(Event::StateChanged { id, from, to }),
                        );
                        assert(records_view(self.downloads@) =~= records_view(
                            old(self).downloads@,
                        ).update(i as int, saved@));
                        assert(effects_view(effects@) =~= effects_view(before) + seq![
                            EffectView::Save(saved@),
                            EffectView::Publish(
                                EventView::StateChanged { id, from, to: next },
                            ),
                        ]);
                        Ok(())
                    },
                }
            },
        }
    }

    /// Marks download `id` starting, announces it and asks for its task to
    /// be started; does nothing if the download cannot start.
    fn begin_download(&mut self, id: DownloadId, now: u64, effects: &mut Vec<Effect>)
        ensures
            final(self)@ == begin_outcome(old(self)@, id, now).0,
            effects_view(final(effects)@) == effects_view(old(effects)@) + begin_outcome(
                old(self)@,
                id,
                now,
            ).1,
    {
        let ghost e0 = effects_view(effects@);
        match self.transition_state(id, DownloadState::Starting, None, now, effects) {
            Err(_) => {
                assert(effects_view(effects@) =~= e0 + Seq::<EffectView>::empty());
            },
            Ok(()) => {
                let ghost e1 = effects_view(effects@);
                effects.push(Effect::Publish(Event::Started(id)));
                effects.push(Effect::Begin(id));
                assert(effects_view(effects@) =~= e1 + seq![
                    EffectView::Publish(EventView::Started(id)),
                    EffectView::Begin(id),
                ]);
            },
        }
    }

    /// Starts queued downloads, front of the queue first, while fewer than
    /// the configured number are active.
    fn schedule(&mut self, now: u64, effects: &mut Vec<Effect>)
        ensures
            final(self)@ == schedule_outcome(old(self)@, now).0,
            effects_view(final(effects)@) == effects_view(old(effects)@) + schedule_outcome(
                old(self)@,
                now,
            ).1,
    {
        let ghost target = schedule_outcome(self@, now);
        let ghost e0 = effects_view(effects@);
        assert(e0 + target.1 == effects_view(effects@) + schedule_outcome(self@, now).1);
        loop
            invariant
                schedule_outcome(self@, now).0 == target.0,
                e0 + target.1 == effects_view(effects@) + schedule_outcome(self@, now).1,
            ensures
                self@ == target.0,
                e0 + target.1 == effects_view(effects@),
            decreases self@.queue.len(),
        {
            let active = self.count_active();
            let picked = crate::queue::select_for_start(
                &self.queue,
                active,
                self.config.max_concurrent_downloads,
            );
            if picked.len() == 0 {
                assert(schedule_outcome(self@, now).0 == self@);
                assert(schedule_outcome(self@, now).1 =~= Seq::<EffectView>::empty());
                assert(effects_view(effects@) + Seq::<EffectView>::empty() =~= effects_view(
                    effects@,
                ));
                break;
            }
            let id = picked[0];
            let ghost v = self@;
            proof {
                lemma_without_front(v.queue);
            }
            self.queue.remove(&id);
            assert(self@ == CoreView { queue: without(v.queue, id), ..v });
            let ghost e1 = effects_view(effects@);
            self.begin_download(id, now, effects);
            assert(e1 + schedule_outcome(v, now).1 =~= effects_view(effects@)
                + schedule_outcome(self@, now).1);
        }
    }

    /// The state of download `id`, if it is tracked.
    fn state_of(&self, id: DownloadId) -> (r: Option<DownloadState>)
        ensures
            r == state_of(self@, id),
    {
        match self.find(id) {
            Some(i) => Some(self.downloads[i].state),
            None => None,
        }
    }

    /// Adds `id` to the pause intents unless it is there.
    fn insert_intent(&mut self, id: DownloadId)
        ensures
            final(self)@ == (CoreView { intents: insert_id(old(self)@.intents, id), ..old(self)@ }),
    {
        let n = self.intents.len();
        let mut found = false;
        for i in 0..n
            invariant
                n == self.intents@.len(),
                found == self.intents@.take(i as int).contains(id),
        {
            assert(self.intents@.take(i + 1) =~= self.intents@.take(i as int).push(
                self.intents@[i as int],
            ));
            let x = self.intents[i];
            let ghost pre = self.intents@.take(i as int);
            if x == id {
                found = true;
                assert(self.intents@.take(i + 1)[i as int] == id);
            } else {
                assert(self.intents@.take(i + 1).contains(id) ==> pre.contains(id)) by {
                    if self.intents@.take(i + 1).contains(id) {
                        let j = choose|j: int|
                            0 <= j < i + 1 && #[trigger] self.intents@.take(i + 1)[j] == id;
                        assert(j != i);
                        assert(pre[j] == id);
                    }
                }
            }
            assert(pre.contains(id) ==> self.intents@.take(i + 1).contains(id)) by {
                if pre.contains(id) {
                    let j = choose|j: int| 0 <= j < i && #[trigger] pre[j] == id;
                    assert(self.intents@.take(i + 1)[j] == id);
                }
            }
        }
        assert(self.intents@.take(n as int) =~= self.intents@);
        if !found {
            self.intents.push(id);
        }
    }

    /// Removes `id` from the pause intents; returns whether it was there.
    fn take_intent(&mut self, id: DownloadId) -> (r: bool)
        ensures
            final(self)@ == (CoreView { intents: without(old(self)@.intents, id), ..old(self)@ }),
            r == old(self)@.intents.contains(id),
    {
        let mut q = Queue::new();
        let n = self.intents.len();
        for i in 0..n
            invariant
                n == self.intents@.len(),
                q@ == self.intents@.take(i as int),
        {
            q.enqueue(self.intents[i]);
            assert(self.intents@.take(i + 1) =~= self.intents@.take(i as int).push(
                self.intents@[i as int],
            ));
        }
        assert(self.intents@.take(n as int) =~= self.intents@);
        let r = q.remove(&id);
        let out = q.iter();
        self.intents = out;
        r
    }

    /// Begins a queued download now, if concurrency capacity allows.
    ///
    /// Refused with [`Error::Internal`] if the download is unknown or not
    /// queued.
    pub fn start(&mut self, id: DownloadId, now: u64) -> (r: Result<Vec<Effect>, Error>)
        ensures
            ({
                let o = start_outcome(old(self)@, id, now);
                &&& final(self)@ == o.0
                &&& o.2 is None ==> (r matches Ok(e) && effects_view(e@) == o.1)
                &&& o.2 matches Some(m) ==> (r matches Err(Error::Internal(x)) && x@ == m)
            }),
    {
        let st = self.state_of(id);
        if st != Some(DownloadState::Queued) {
            let mut m = String::new();
            push_str(&mut m, "download ");
            let t = id.to_text();
            push_str(&mut m, t.as_str());
            push_str(&mut m, " is not queued (state: ");
            let d = opt_state_debug(st);
            push_str(&mut m, d.as_str());
            push_str(&mut m, ")");
            return Err(Error::Internal(m));
        }
        let mut effects: Vec<Effect> = Vec::new();
        if self.count_active() >= self.config.max_concurrent_downloads {
            assert(effects_view(effects@) =~= Seq::<EffectView>::empty());
            return Ok(effects);
        }
        self.queue.remove(&id);
        self.begin_download(id, now, &mut effects);
        assert(effects_view(Seq::<Effect>::empty()) =~= Seq::<EffectView>::empty());
        Ok(effects)
    }

    /// Pauses an in-flight (starting or downloading) download: its running
    /// transfer is signalled to stop, and when it reports back cancelled the
    /// download becomes paused rather than cancelled.
    ///
    /// Refused with [`Error::Internal`] in any other state.
    pub fn pause(&mut self, id: DownloadId) -> (r: Result<Vec<Effect>, Error>)
        ensures
            ({
                let o = pause_outcome(old(self)@, id);
                &&& final(self)@ == o.0
                &&& o.2 is None ==> (r matches Ok(e) && effects_view(e@) == o.1)
                &&& o.2 matches Some(m) ==> (r matches Err(Error::Internal(x)) && x@ == m)
            }),
    {
        let st = self.state_of(id);
        if st != Some(DownloadState::Starting) && st != Some(DownloadState::Downloading) {
            return Err(Error::Internal(cannot_message("pause", id, st)));
        }
        self.insert_intent(id);
        let mut effects: Vec<Effect> = Vec::new();
        effects.push(Effect::SignalCancel(id));
        assert(effects_view(effects@) =~= seq![EffectView::SignalCancel(id)]);
        Ok(effects)
    }

    /// Resumes a paused download by re-queuing it.
    ///
    /// Refused with [`Error::Internal`] if the download is not paused.
    pub fn resume(&mut self, id: DownloadId, now: u64) -> (r: Result<Vec<Effect>, Error>)
        ensures
            ({
                let o = resume_outcome(old(self)@, id, now);
                &&& final(self)@ == o.0
                &&& o.2 is None ==> (r matches Ok(e) && effects_view(e@) == o.1)
                &&& o.2 matches Some(m) ==> (r matches Err(Error::Internal(x)) && x@ == m)
            }),
    {
        let st = self.state_of(id);
        if st != Some(DownloadState::Paused) {
            return Err(Error::Internal(cannot_message("resume", id, st)));
        }
        let mut effects: Vec<Effect> = Vec::new();
        assert(effects_view(effects@) =~= Seq::<EffectView>::empty());
        self.transition_state(id, DownloadState::Queued, None, now, &mut effects)?;
        let ghost e1 = effects_view(effects@);
        self.queue.enqueue(id);
        effects.push(Effect::Publish(Event::Resumed(id)));
        assert(effects_view(effects@) =~= e1 + seq![EffectView::Publish(EventView::Resumed(id))]);
        let ghost e2 = effects_view(effects@);
        self.schedule(now, &mut effects);
        Ok(effects)
    }

    /// Re-queues a failed download.
    ///
    /// Refused with [`Error::Internal`] if the download is not failed.
    pub fn retry(&mut self, id: DownloadId, now: u64) -> (r: Result<Vec<Effect>, Error>)
        ensures
            ({
                let o = retry_outcome(old(self)@, id, now);
                &&& final(self)@ == o.0
                &&& o.2 is None ==> (r matches Ok(e) && effects_view(e@) == o.1)
                &&& o.2 matches Some(m) ==> (r matches Err(Error::Internal(x)) && x@ == m)
            }),
    {
        let st = self.state_of(id);
        if st != Some(DownloadState::Failed) {
            return Err(Error::Internal(cannot_message("retry", id, st)));
        }
        let mut effects: Vec<Effect> = Vec::new();
        assert(effects_view(effects@) =~= Seq::<EffectView>::empty());
        self.transition_state(id, DownloadState::Queued, None, now, &mut effects)?;
        self.queue.enqueue(id);
        self.schedule(now, &mut effects);
        Ok(effects)
    }

    /// Cancels a download. A starting or downloading transfer is signalled
    /// to stop; a queued, paused or failed download becomes cancelled at once.
    ///
    /// Refused with [`Error::Internal`] if the download is unknown, completed
    /// or already cancelled.
    pub fn cancel(&mut self, id: DownloadId, now: u64) -> (r: Result<Vec<Effect>, Error>)
        ensures
            ({
                let o = cancel_outcome(old(self)@, id, now);
                &&& final(self)@ == o.0
                &&& o.2 is None ==> (r matches Ok(e) && effects_view(e@) == o.1)
                &&& o.2 matches Some(m) ==> (r matches Err(Error::Internal(x)) && x@ == m)
            }),
    {
        let mut effects: Vec<Effect> = Vec::new();
        assert(effects_view(effects@) =~= Seq::<EffectView>::empty());
        match self.state_of(id) {
            None => Err(Error::Internal(unknown_message(id))),
            Some(st) => {
                if st == DownloadState::Starting || st == DownloadState::Downloading {
                    effects.push(Effect::SignalCancel(id));
                    assert(effects_view(effects@) =~= seq![EffectView::SignalCancel(id)]);
                    Ok(effects)
                } else if st == DownloadState::Queued || st == DownloadState::Paused || st
                    == DownloadState::Failed {
                    self.queue.remove(&id);
                    let mut why = String::new();
                    push_str(&mut why, "cancelled by user");
                    self.transition_state(id, DownloadState::Cancelled, Some(why), now, &mut effects)?;
                    let ghost e1 = effects_view(effects@);
                    effects.push(Effect::Publish(Event::Cancelled(id)));
                    assert(effects_view(effects@) =~= e1 + seq![
                        EffectView::Publish(EventView::Cancelled(id)),
                    ]);
                    Ok(effects)
                } else {
                    Err(Error::Internal(cannot_message("cancel", id, Some(st))))
                }
            },
        }
    }

    /// Removes a download from the manager. A running transfer is signalled
    /// to stop and dispose of its data; the data of a paused download is
    /// handed to its backend for disposal. The persisted record is deleted.
    ///
    /// Refused with [`Error::Internal`] if the download is unknown.
    pub fn remove(&mut self, id: DownloadId, now: u64) -> (r: Result<Vec<Effect>, Error>)
        ensures
            ({
                let o = remove_outcome(old(self)@, id, now);
                &&& final(self)@ == o.0
                &&& o.2 is None ==> (r matches Ok(e) && effects_view(e@) == o.1)
                &&& o.2 matches Some(m) ==> (r matches Err(Error::Internal(x)) && x@ == m)
            }),
    {
        let i = match self.find(id) {
            None => {
                return Err(Error::Internal(unknown_message(id)));
            },
            Some(i) => i,
        };
        let mut effects: Vec<Effect> = Vec::new();
        let st = self.downloads[i].state;
        if st == DownloadState::Starting || st == DownloadState::Downloading {
            effects.push(Effect::SignalDispose(id));
        } else if st == DownloadState::Paused {
            let d = self.downloads[i].clone();
            effects.push(Effect::DisposeData(d));
        }
        let ghost e1 = effects_view(effects@);
        let ghost d = self@.downloads[i as int];
        assert(e1 =~= (if is_active(d.state) {
            seq![EffectView::SignalDispose(id)]
        } else if d.state == DownloadState::Paused {
            seq![EffectView::DisposeData(d)]
        } else {
            seq![]
        }));
        self.take_intent(id);
        self.queue.remove(&id);
        let ghost before = self.downloads@;
        self.downloads.remove(i);
        assert(records_view(self.downloads@) =~= records_view(before).remove(i as int));
        effects.push(Effect::Delete(id));
        assert(effects_view(effects@) =~= e1 + seq![EffectView::Delete(id)]);
        self.schedule(now, &mut effects);
        Ok(effects)
    }

    /// A copy of the record of download `id`, if it is tracked.
    pub fn get(&self, id: DownloadId) -> (r: Option<Download>)
        ensures
            index_of(self@.downloads, id) < 0 ==> r is None,
            index_of(self@.downloads, id) >= 0 ==> (r matches Some(d) && d@
                == self@.downloads[index_of(self@.downloads, id)]),
    {
        match self.find(id) {
            Some(i) => Some(self.downloads[i].clone()),
            None => None,
        }
    }

    /// Copies of all tracked download records.
    pub fn list(&self) -> (r: Vec<Download>)
        ensures
            records_view(r@) == self@.downloads,
    {
        let mut out: Vec<Download> = Vec::new();
        let n = self.downloads.len();
        for i in 0..n
            invariant
                n == self.downloads@.len(),
                out@.len() == i,
                forall|j: int| 0 <= j < i ==> out@[j] == self.downloads@[j],
        {
            let d = self.downloads[i].clone();
            out.push(d);
        }
        assert(out@ =~= self.downloads@);
        out
    }

    /// Records a progress report of download `id`: a starting download
    /// becomes downloading, and the byte counts are updated. The record is
    /// persisted, a failure to do so being ignored.
    pub fn on_progress(&mut self, id: DownloadId, p: crate::model::DownloadProgress, now: u64) -> (r: Vec<Effect>)
        ensures
            ({
                let o = progress_outcome(old(self)@, id, p.downloaded_bytes, p.total_bytes, now);
                &&& final(self)@ == o.0
                &&& effects_view(r@) == o.1
            }),
    {
        let mut effects: Vec<Effect> = Vec::new();
        let i = match self.find(id) {
            None => {
                assert(effects_view(effects@) =~= Seq::<EffectView>::empty());
                return effects;
            },
            Some(i) => i,
        };
        let mut d = self.downloads[i].clone();
        let changed = d.state == DownloadState::Starting;
        if changed {
            d.state = DownloadState::Downloading;
            if d.started_at.is_none() {
                d.started_at = Some(now);
            }
        }
        d.downloaded_bytes = p.downloaded_bytes;
        if p.total_bytes.is_some() {
            d.total_bytes = p.total_bytes;
        }
        d.updated_at = now;
        let saved = d.clone();
        let ghost before = self.downloads@;
        self.downloads.set(i, d);
        assert(records_view(self.downloads@) =~= records_view(before).update(i as int, saved@));
        effects.push(Effect::SaveQuietly(saved));
        if changed {
            effects.push(
                Effect::Publish(
                    Event::StateChanged {
                        id,
                        from: DownloadState::Starting,
                        to: DownloadState::Downloading,
                    },
                ),
            );
        }
        effects.push(
            Effect::Publish(
                Event::Progress {
                    id,
                    downloaded_bytes: p.downloaded_bytes,
                    total_bytes: p.total_bytes,
                },
            ),
        );
        let ghost o = progress_outcome(old(self)@, id, p.downloaded_bytes, p.total_bytes, now);
        assert(effects_view(effects@) =~= o.1);
        effects
    }

    /// Decides how the transfer task of download `id` proceeds when it
    /// starts.
    pub fn plan_run(&mut self, id: DownloadId, now: u64) -> (r: RunPlan)
        ensures
            ({
                let v = old(self)@;
                let i = index_of(v.downloads, id);
                if i < 0 || !is_active(v.downloads[i].state) {
                    final(self)@ == v && r is Skip
                } else if v.backends.contains(v.downloads[i].backend) {
                    final(self)@ == v && (r matches RunPlan::Run { record, rate } && record@
                        == v.downloads[i] && rate == crate::bandwidth::limiter_rate(
                        v.config.bandwidth.max_bytes_per_sec,
                        active_count(v.downloads),
                    ))
                } else {
                    let t = transition_outcome(
                        v,
                        id,
                        DownloadState::Failed,
                        Some("no backend available for download"@),
                        now,
                    );
                    let s = schedule_outcome(t.0, now);
                    final(self)@ == s.0 && (r matches RunPlan::NoBackend(e) && effects_view(e@)
                        == t.1 + s.1)
                }
            }),
    {
        let i = match self.find(id) {
            None => {
                return RunPlan::Skip;
            },
            Some(i) => i,
        };
        let st = self.downloads[i].state;
        if !(st == DownloadState::Starting || st == DownloadState::Downloading) {
            return RunPlan::Skip;
        }
        let rate = self.config.bandwidth.limiter_for(self.count_active());
        let kind = self.downloads[i].backend;
        let mut registered = false;
        let n = self.backends.len();
        for k in 0..n
            invariant
                n == self.backends@.len(),
                registered == self.backends@.take(k as int).contains(kind),
        {
            let b = self.backends[k];
            let ghost pre = self.backends@.take(k as int);
            assert(self.backends@.take(k + 1) =~= pre.push(b));
            if b == kind {
                registered = true;
                assert(self.backends@.take(k + 1)[k as int] == kind);
            } else {
                assert(self.backends@.take(k + 1).contains(kind) ==> pre.contains(kind)) by {
                    if self.backends@.take(k + 1).contains(kind) {
                        let j = choose|j: int|
                            0 <= j < k + 1 && #[trigger] self.backends@.take(k + 1)[j] == kind;
                        assert(j != k);
                        assert(pre[j] == kind);
                    }
                }
            }
            assert(pre.contains(kind) ==> self.backends@.take(k + 1).contains(kind)) by {
                if pre.contains(kind) {
                    let j = choose|j: int| 0 <= j < k && #[trigger] pre[j] == kind;
                    assert(self.backends@.take(k + 1)[j] == kind);
                }
            }
        }
        assert(self.backends@.take(n as int) =~= self.backends@);
        if registered {
            RunPlan::Run { record: self.downloads[i].clone(), rate }
        } else {
            let mut effects: Vec<Effect> = Vec::new();
            assert(effects_view(effects@) =~= Seq::<EffectView>::empty());
            let mut why = String::new();
            push_str(&mut why, "no backend available for download");
            let _ = self.transition_state(id, DownloadState::Failed, Some(why), now, &mut effects);
            self.schedule(now, &mut effects);
            RunPlan::NoBackend(effects)
        }
    }

    /// Records how the transfer of download `id` ended: completed; paused if
    /// it was stopped after a pause request; cancelled if stopped otherwise;
    /// failed with the error's text on any other error. Then schedules.
    pub fn finish(&mut self, id: DownloadId, result: RunResult, now: u64) -> (r: Vec<Effect>)
        ensures
            ({
                let o = finish_outcome(old(self)@, id, run_result_view(result), now);
                &&& final(self)@ == o.0
                &&& effects_view(r@) == o.1
            }),
    {
        let mut effects: Vec<Effect> = Vec::new();
        assert(effects_view(effects@) =~= Seq::<EffectView>::empty());
        match result {
            RunResult::Done(outcome) => {
                match self.find(id) {
                    Some(i) => {
                        let mut d = self.downloads[i].clone();
                        d.downloaded_bytes = outcome.downloaded_bytes;
                        if outcome.total_bytes.is_some() {
                            d.total_bytes = outcome.total_bytes;
                        }
                        d.backend_meta = outcome.backend_meta;
                        d.updated_at = now;
                        let ghost before = self.downloads@;
                        let ghost dv = d@;
                        self.downloads.set(i, d);
                        assert(records_view(self.downloads@) =~= records_view(before).update(
                            i as int,
                            dv,
                        ));
                    },
                    None => {},
                }
                let _ = self.transition_state(id, DownloadState::Completed, None, now, &mut effects);
                let ghost e1 = effects_view(effects@);
                effects.push(Effect::Publish(Event::Completed(id)));
                assert(effects_view(effects@) =~= e1 + seq![
                    EffectView::Publish(EventView::Completed(id)),
                ]);
                self.take_intent(id);
                self.schedule(now, &mut effects);
                effects
            },
            RunResult::Failed(e) => {
                let paused = self.take_intent(id);
                let is_cancel = match e {
                    Error::Cancelled => true,
                    _ => false,
                };
                let next;
                let why;
                let event;
                if is_cancel && paused {
                    next = DownloadState::Paused;
                    let mut w = String::new();
                    push_str(&mut w, "paused by user");
                    why = w;
                    event = Event::Paused(id);
                } else if is_cancel {
                    next = DownloadState::Cancelled;
                    let mut w = String::new();
                    push_str(&mut w, "cancelled by user");
                    why = w;
                    event = Event::Cancelled(id);
                } else {
                    next = DownloadState::Failed;
                    why = e.message();
                    event = Event::Failed { id, error: e.message() };
                }
                let ghost f = failure_target(e, paused, id);
                assert(next == f.0 && why@ == f.1 && event_view(event) == f.2);
                let _ = self.transition_state(id, next, Some(why), now, &mut effects);
                let ghost e1 = effects_view(effects@);
                effects.push(Effect::Publish(event));
                assert(effects_view(effects@) =~= e1 + seq![EffectView::Publish(f.2)]);
                self.take_intent(id);
                self.schedule(now, &mut effects);
                effects
            },
        }
    }

    /// Builds the record of a new download; refused with
    /// [`Error::Internal`] if no backend serves its protocol. The caller
    /// persists the record and then hands it to [`Self::commit_enqueue`].
    pub fn prepare_enqueue(&self, spec: &DownloadSpec, id: DownloadId, now: u64) -> (r: Result<Download, Error>)
        ensures
            self@.backends.contains(spec.backend) ==> (r matches Ok(d) && d@ == new_record(
                spec.spec_view(),
                id,
                now,
            )),
            !self@.backends.contains(spec.backend) ==> (r matches Err(Error::Internal(m)) && m@
                == "no backend registered for "@ + crate::backend::kind_text(spec.backend)),
            r is Ok ==> (crate::url::url_parse(r->Ok_0@.url) is Ok && crate::url::url_parse(
                r->Ok_0@.url,
            )->Ok_0.text == r->Ok_0@.url),
    {
        spec.url.check_reparses();
        let kind = spec.backend;
        let mut registered = false;
        let n = self.backends.len();
        for k in 0..n
            invariant
                n == self.backends@.len(),
                registered == self.backends@.take(k as int).contains(kind),
        {
            let b = self.backends[k];
            let ghost pre = self.backends@.take(k as int);
            assert(self.backends@.take(k + 1) =~= pre.push(b));
            if b == kind {
                registered = true;
                assert(self.backends@.take(k + 1)[k as int] == kind);
            } else {
                assert(self.backends@.take(k + 1).contains(kind) ==> pre.contains(kind)) by {
                    if self.backends@.take(k + 1).contains(kind) {
                        let j = choose|j: int|
                            0 <= j < k + 1 && #[trigger] self.backends@.take(k + 1)[j] == kind;
                        assert(j != k);
                        assert(pre[j] == kind);
                    }
                }
            }
            assert(pre.contains(kind) ==> self.backends@.take(k + 1).contains(kind)) by {
                if pre.contains(kind) {
                    let j = choose|j: int| 0 <= j < k && #[trigger] pre[j] == kind;
                    assert(self.backends@.take(k + 1)[j] == kind);
                }
            }
        }
        assert(self.backends@.take(n as int) =~= self.backends@);
        if !registered {
            let mut m = String::new();
            push_str(&mut m, "no backend registered for ");
            push_str(&mut m, kind.as_str());
            return Err(Error::Internal(m));
        }
        let mut url = String::new();
        push_str(&mut url, spec.url.as_str());
        Ok(Download {
            id,
            url,
            destination: spec.destination.clone(),
            backend: kind,
            state: DownloadState::Queued,
            overwrite: spec.overwrite,
            total_bytes: None,
            downloaded_bytes: 0,
            created_at: now,
            updated_at: now,
            started_at: None,
            completed_at: None,
            error: None,
            backend_meta: spec.backend_meta.clone(),
        })
    }

    /// Stores `d` under its id (replacing a record with the same id).
    fn put_record(&mut self, d: Download)
        ensures
            final(self)@ == (CoreView { downloads: put(old(self)@.downloads, d@), ..old(self)@ }),
    {
        let ghost dv = d@;
        let ghost before = self.downloads@;
        match self.find(d.id) {
            Some(i) => {
                self.downloads.set(i, d);
                assert(records_view(self.downloads@) =~= records_view(before).update(i as int, dv));
            },
            None => {
                self.downloads.push(d);
                assert(records_view(self.downloads@) =~= records_view(before).push(dv));
            },
        }
    }

    /// Tracks and queues a new download whose record is persisted,
    /// announces it and schedules.
    pub fn commit_enqueue(&mut self, d: Download, now: u64) -> (r: Vec<Effect>)
        ensures
            ({
                let o = commit_outcome(old(self)@, d@, now);
                &&& final(self)@ == o.0
                &&& effects_view(r@) == o.1
            }),
    {
        let id = d.id;
        self.put_record(d);
        self.queue.enqueue(id);
        let mut effects: Vec<Effect> = Vec::new();
        effects.push(Effect::Publish(Event::Queued(id)));
        assert(effects_view(effects@) =~= seq![EffectView::Publish(EventView::Queued(id))]);
        self.schedule(now, &mut effects);
        effects
    }

    /// Loads the persisted records at startup. A download found starting or
    /// downloading was interrupted: by the recovery policy it becomes failed
    /// (with the error `interrupted by manager restart`) or queued again;
    /// either change is persisted and announced. Queued downloads are queued
    /// in the order of `rows`. Nothing is started.
    pub fn recover(&mut self, rows: Vec<Download>, now: u64) -> (r: Vec<Effect>)
        ensures
            ({
                let o = recover_outcome(old(self)@, records_view(rows@), now);
                &&& final(self)@ == o.0
                &&& effects_view(r@) == o.1
            }),
    {
        let mut effects: Vec<Effect> = Vec::new();
        let ghost v0 = self@;
        let ghost rv = records_view(rows@);
        let n = rows.len();
        assert(rv.take(0) =~= Seq::<DownloadView>::empty());
        assert(effects_view(effects@) =~= Seq::<EffectView>::empty());
        let mut k: usize = 0;
        while k < n
            invariant
                n == rv.len(),
                rv == records_view(rows@),
                k <= n,
                self@ == recover_outcome(v0, rv.take(k as int), now).0,
                effects_view(effects@) == recover_outcome(v0, rv.take(k as int), now).1,
                self@.config == v0.config,
            decreases n - k,
        {
            let dl = rows[k].clone();
            assert(dl@ == rv[k as int]);
            assert(rv.take(k + 1).drop_last() =~= rv.take(k as int));
            assert(rv.take(k + 1).last() == dl@);
            let ghost a = self@;
            let ghost e0 = effects_view(effects@);
            let active = dl.state == DownloadState::Starting || dl.state == DownloadState::Downloading;
            if active {
                let mut d = dl.clone();
                let from = dl.state;
                d.updated_at = now;
                let failed = match self.config.recover_interrupted {
                    crate::bandwidth::RecoveryPolicy::Failed => true,
                    crate::bandwidth::RecoveryPolicy::Queued => false,
                };
                if failed {
                    d.state = DownloadState::Failed;
                    let mut why = String::new();
                    push_str(&mut why, "interrupted by manager restart");
                    d.error = Some(why);
                } else {
                    d.state = DownloadState::Queued;
                    d.started_at = None;
                    d.error = None;
                }
                let to = d.state;
                let did = d.id;
                let saved = d.clone();
                effects.push(Effect::Save(saved));
                effects.push(Effect::Publish(Event::StateChanged { id: did, from, to }));
                if failed {
                    let mut why = String::new();
                    push_str(&mut why, "interrupted by manager restart");
                    effects.push(Effect::Publish(Event::Failed { id: did, error: why }));
                } else {
                    effects.push(Effect::Publish(Event::Queued(did)));
                }
                self.put_record(d);
                if !failed {
                    self.queue.enqueue(did);
                }
                assert(effects_view(effects@) =~= e0 + recover_step(a, dl@, now).1);
            } else {
                let queued = dl.state == DownloadState::Queued;
                let did = dl.id;
                self.put_record(dl);
                if queued {
                    self.queue.enqueue(did);
                }
                assert(effects_view(effects@) =~= e0 + recover_step(a, rv[k as int], now).1);
            }
            k = k + 1;
        }
        assert(rv.take(n as int) =~= rv);
        effects
    }
}

} // verus!
