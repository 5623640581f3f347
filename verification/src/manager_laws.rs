//! Properties of the download manager's decisions that hold across
//! operations.

use vstd::prelude::*;

use crate::backend::DownloadId;
use crate::bandwidth::RecoveryPolicy;
use crate::error::Error;
use crate::manager::{
    active_count, begin_outcome, cancel_outcome, commit_outcome, failure_target, finish_outcome,
    index_of, is_active, lemma_index_of, lemma_without_front, pause_outcome, progress_outcome, put, recover_outcome,
    recover_step, remove_outcome, resume_outcome, retry_outcome, schedule_outcome, start_outcome,
    state_of, transition_outcome, transitioned, progressed, CoreView, EffectView, RunResultView,
};
use crate::model::EventView;
use crate::queue::without;
use crate::record::DownloadView;
use crate::state::{allows, DownloadState};

verus! {

/// Every state change announced in `es` is allowed by the transition table.
pub open spec fn legal_changes(es: Seq<EffectView>) -> bool {
    forall|i: int|
        0 <= i < es.len() ==> (#[trigger] es[i] matches EffectView::Publish(
            EventView::StateChanged { from, to, .. },
        ) ==> allows(from, to))
}

proof fn lemma_legal_concat(a: Seq<EffectView>, b: Seq<EffectView>)
    requires
        legal_changes(a),
        legal_changes(b),
    ensures
        legal_changes(a + b),
{
    assert forall|i: int| 0 <= i < (a + b).len() implies (#[trigger] (a + b)[i] matches EffectView::Publish(
        EventView::StateChanged { from, to, .. },
    ) ==> allows(from, to)) by {
        if i < a.len() {
            assert((a + b)[i] == a[i]);
        } else {
            assert((a + b)[i] == b[i - a.len()]);
        }
    }
}

proof fn lemma_transition_legal(
    v: CoreView,
    id: DownloadId,
    next: DownloadState,
    error: Option<Seq<char>>,
    now: u64,
)
    ensures
        legal_changes(transition_outcome(v, id, next, error, now).1),
{
}

proof fn lemma_begin_legal(v: CoreView, id: DownloadId, now: u64)
    ensures
        legal_changes(begin_outcome(v, id, now).1),
{
    let t = transition_outcome(v, id, DownloadState::Starting, None, now);
    lemma_transition_legal(v, id, DownloadState::Starting, None, now);
    if t.2 is None {
        lemma_legal_concat(
            t.1,
            seq![EffectView::Publish(EventView::Started(id)), EffectView::Begin(id)],
        );
    }
}

proof fn lemma_schedule_legal(v: CoreView, now: u64)
    ensures
        legal_changes(schedule_outcome(v, now).1),
    decreases v.queue.len(),
{
    if v.queue.len() > 0 && active_count(v.downloads) < v.config.max_concurrent_downloads {
        let id = v.queue[0];
        let v1 = CoreView { queue: without(v.queue, id), ..v };
        let b = begin_outcome(v1, id, now);
        lemma_without_front(v.queue);
        lemma_begin_legal(v1, id, now);
        lemma_schedule_legal(b.0, now);
        lemma_legal_concat(b.1, schedule_outcome(b.0, now).1);
    }
}

proof fn lemma_recover_legal(v: CoreView, rows: Seq<DownloadView>, now: u64)
    requires
        v.config.recover_interrupted == RecoveryPolicy::Failed,
    ensures
        legal_changes(recover_outcome(v, rows, now).1),
        recover_outcome(v, rows, now).0.config == v.config,
    decreases rows.len(),
{
    if rows.len() > 0 {
        lemma_recover_legal(v, rows.drop_last(), now);
        let a = recover_outcome(v, rows.drop_last(), now);
        lemma_legal_concat(a.1, recover_step(a.0, rows.last(), now).1);
    }
}

/// Every state change the manager announces follows the transition table,
/// whatever the operation; recovery at startup does so when it fails
/// interrupted downloads (re-queuing them instead is the one move outside
/// the table).
pub proof fn law_announced_changes_are_legal(
    v: CoreView,
    id: DownloadId,
    now: u64,
    downloaded: u64,
    total: Option<u64>,
    r: RunResultView,
    d: DownloadView,
    rows: Seq<DownloadView>,
)
    ensures
        legal_changes(schedule_outcome(v, now).1),
        legal_changes(start_outcome(v, id, now).1),
        legal_changes(pause_outcome(v, id).1),
        legal_changes(resume_outcome(v, id, now).1),
        legal_changes(retry_outcome(v, id, now).1),
        legal_changes(cancel_outcome(v, id, now).1),
        legal_changes(remove_outcome(v, id, now).1),
        legal_changes(progress_outcome(v, id, downloaded, total, now).1),
        legal_changes(finish_outcome(v, id, r, now).1),
        legal_changes(commit_outcome(v, d, now).1),
        v.config.recover_interrupted == RecoveryPolicy::Failed ==> legal_changes(
            recover_outcome(v, rows, now).1,
        ),
{
    lemma_schedule_legal(v, now);
    // start
    let st = state_of(v, id);
    lemma_begin_legal(CoreView { queue: without(v.queue, id), ..v }, id, now);
    // resume and retry
    let tq = transition_outcome(v, id, DownloadState::Queued, None, now);
    let vq = CoreView { queue: tq.0.queue.push(id), ..tq.0 };
    lemma_schedule_legal(vq, now);
    lemma_legal_concat(tq.1, seq![EffectView::Publish(EventView::Resumed(id))]);
    lemma_legal_concat(tq.1 + seq![EffectView::Publish(EventView::Resumed(id))], schedule_outcome(vq, now).1);
    lemma_legal_concat(tq.1, schedule_outcome(vq, now).1);
    // cancel
    let v1 = CoreView { queue: without(v.queue, id), ..v };
    let tc = transition_outcome(v1, id, DownloadState::Cancelled, Some("cancelled by user"@), now);
    lemma_legal_concat(tc.1, seq![EffectView::Publish(EventView::Cancelled(id))]);
    // remove
    let i = index_of(v.downloads, id);
    if i >= 0 {
        let dd = v.downloads[i];
        let e1 = if is_active(dd.state) {
            seq![EffectView::SignalDispose(id)]
        } else if dd.state == DownloadState::Paused {
            seq![EffectView::DisposeData(dd)]
        } else {
            seq![]
        };
        let vr = CoreView {
            intents: without(v.intents, id),
            queue: without(v.queue, id),
            downloads: v.downloads.remove(i),
            ..v
        };
        lemma_schedule_legal(vr, now);
        lemma_legal_concat(e1 + seq![EffectView::Delete(id)], schedule_outcome(vr, now).1);
        // progress
        let p = progress_outcome(v, id, downloaded, total, now);
        assert(legal_changes(p.1)) by {
            assert forall|k: int| 0 <= k < p.1.len() implies (#[trigger] p.1[k] matches EffectView::Publish(
                EventView::StateChanged { from, to, .. },
            ) ==> allows(from, to)) by {}
        }
    }
    // finish
    match r {
        RunResultView::Done { downloaded: dn, total: tt, meta } => {
            let v1 = if i < 0 {
                v
            } else {
                let dd = v.downloads[i];
                CoreView {
                    downloads: v.downloads.update(
                        i,
                        DownloadView {
                            downloaded_bytes: dn,
                            total_bytes: if tt is Some {
                                tt
                            } else {
                                dd.total_bytes
                            },
                            backend_meta: meta,
                            updated_at: now,
                            ..dd
                        },
                    ),
                    ..v
                }
            };
            let t = transition_outcome(v1, id, DownloadState::Completed, None, now);
            let vs = CoreView { intents: without(t.0.intents, id), ..t.0 };
            lemma_schedule_legal(vs, now);
            lemma_legal_concat(t.1, seq![EffectView::Publish(EventView::Completed(id))]);
            lemma_legal_concat(
                t.1 + seq![EffectView::Publish(EventView::Completed(id))],
                schedule_outcome(vs, now).1,
            );
        },
        RunResultView::Failed(e) => {
            let paused = v.intents.contains(id);
            let v1 = CoreView { intents: without(v.intents, id), ..v };
            let f = failure_target(e, paused, id);
            let t = transition_outcome(v1, id, f.0, Some(f.1), now);
            let vs = CoreView { intents: without(t.0.intents, id), ..t.0 };
            lemma_schedule_legal(vs, now);
            lemma_legal_concat(t.1, seq![EffectView::Publish(f.2)]);
            lemma_legal_concat(t.1 + seq![EffectView::Publish(f.2)], schedule_outcome(vs, now).1);
        },
    }
    // commit
    let vc = CoreView { downloads: put(v.downloads, d), queue: v.queue.push(d.id), ..v };
    lemma_schedule_legal(vc, now);
    lemma_legal_concat(seq![EffectView::Publish(EventView::Queued(d.id))], schedule_outcome(vc, now).1);
    if v.config.recover_interrupted == RecoveryPolicy::Failed {
        lemma_recover_legal(v, rows, now);
    }
}

proof fn lemma_active_count_update(s: Seq<DownloadView>, i: int, d: DownloadView)
    requires
        0 <= i < s.len(),
    ensures
        active_count(s.update(i, d)) + (if is_active(s[i].state) {
            1int
        } else {
            0int
        }) == active_count(s) + (if is_active(d.state) {
            1int
        } else {
            0int
        }),
    decreases s.len(),
{
    let u = s.update(i, d);
    if i == s.len() - 1 {
        assert(u.drop_last() =~= s.drop_last());
    } else {
        lemma_active_count_update(s.drop_last(), i, d);
        assert(u.drop_last() =~= s.drop_last().update(i, d));
    }
}

proof fn lemma_begin_count(v: CoreView, id: DownloadId, now: u64)
    ensures
        active_count(begin_outcome(v, id, now).0.downloads) <= active_count(v.downloads) + 1,
        begin_outcome(v, id, now).0.config == v.config,
        begin_outcome(v, id, now).0.queue == v.queue,
{
    let t = transition_outcome(v, id, DownloadState::Starting, None, now);
    let i = index_of(v.downloads, id);
    lemma_index_of(v.downloads, id);
    if t.2 is None {
        let nd = crate::manager::transitioned(v.downloads[i], DownloadState::Starting, None, now);
        lemma_active_count_update(v.downloads, i, nd);
    }
}

/// Scheduling never raises the number of active downloads above the
/// configured limit (nor above what it already was), and it stops only when
/// the queue is empty or the limit is reached.
pub proof fn law_schedule_respects_limit(v: CoreView, now: u64)
    ensures
        active_count(schedule_outcome(v, now).0.downloads) <= if active_count(v.downloads)
            > v.config.max_concurrent_downloads {
            active_count(v.downloads)
        } else {
            v.config.max_concurrent_downloads as nat
        },
        schedule_outcome(v, now).0.queue.len() == 0 || active_count(
            schedule_outcome(v, now).0.downloads,
        ) >= v.config.max_concurrent_downloads,
        schedule_outcome(v, now).0.config == v.config,
    decreases v.queue.len(),
{
    if v.queue.len() > 0 && active_count(v.downloads) < v.config.max_concurrent_downloads {
        let id = v.queue[0];
        let v1 = CoreView { queue: without(v.queue, id), ..v };
        lemma_without_front(v.queue);
        lemma_begin_count(v1, id, now);
        law_schedule_respects_limit(begin_outcome(v1, id, now).0, now);
    }
}

proof fn lemma_put_inactive(s: Seq<DownloadView>, d: DownloadView)
    requires
        forall|j: int| 0 <= j < s.len() ==> !is_active(#[trigger] s[j].state),
        !is_active(d.state),
    ensures
        forall|j: int| 0 <= j < put(s, d).len() ==> !is_active(#[trigger] put(s, d)[j].state),
{
    lemma_index_of(s, d.id);
}

/// Recovery at startup leaves no download starting or downloading: whatever
/// the policy, each download found in flight becomes failed or queued.
pub proof fn law_recovery_leaves_nothing_in_flight(v: CoreView, rows: Seq<DownloadView>, now: u64)
    requires
        forall|j: int| 0 <= j < v.downloads.len() ==> !is_active(#[trigger] v.downloads[j].state),
    ensures
        forall|j: int|
            0 <= j < recover_outcome(v, rows, now).0.downloads.len() ==> !is_active(
                #[trigger] recover_outcome(v, rows, now).0.downloads[j].state,
            ),
        recover_outcome(v, rows, now).0.config == v.config,
    decreases rows.len(),
{
    if rows.len() > 0 {
        law_recovery_leaves_nothing_in_flight(v, rows.drop_last(), now);
        let a = recover_outcome(v, rows.drop_last(), now);
        let d = rows.last();
        match crate::manager::recovered(d, a.0.config.recover_interrupted, now) {
            Some(nd) => lemma_put_inactive(a.0.downloads, nd),
            None => lemma_put_inactive(a.0.downloads, d),
        }
    }
}

/// A refused request is answered with its error and changes nothing: the
/// manager's state stays as it was and no effect is carried out.
pub proof fn law_refused_requests_change_nothing(v: CoreView, id: DownloadId, now: u64)
    ensures
        start_outcome(v, id, now).2 is Some ==> start_outcome(v, id, now).0 == v && start_outcome(
            v,
            id,
            now,
        ).1 == Seq::<EffectView>::empty(),
        pause_outcome(v, id).2 is Some ==> pause_outcome(v, id).0 == v && pause_outcome(v, id).1
            == Seq::<EffectView>::empty(),
        resume_outcome(v, id, now).2 is Some ==> resume_outcome(v, id, now).0 == v
            && resume_outcome(v, id, now).1 == Seq::<EffectView>::empty(),
        retry_outcome(v, id, now).2 is Some ==> retry_outcome(v, id, now).0 == v && retry_outcome(
            v,
            id,
            now,
        ).1 == Seq::<EffectView>::empty(),
        cancel_outcome(v, id, now).2 is Some ==> cancel_outcome(v, id, now).0 == v
            && cancel_outcome(v, id, now).1 == Seq::<EffectView>::empty(),
        remove_outcome(v, id, now).2 is Some ==> remove_outcome(v, id, now).0 == v
            && remove_outcome(v, id, now).1 == Seq::<EffectView>::empty(),
{
    let i = index_of(v.downloads, id);
    if i >= 0 {
        let st = v.downloads[i].state;
        assert(allows(DownloadState::Paused, DownloadState::Queued));
        assert(allows(DownloadState::Failed, DownloadState::Queued));
        assert(allows(DownloadState::Queued, DownloadState::Cancelled));
        assert(allows(DownloadState::Paused, DownloadState::Cancelled));
        assert(allows(DownloadState::Failed, DownloadState::Cancelled));
    }
}

/// Replacing a record by one with the same id keeps where every id is
/// found.
proof fn lemma_index_of_update(s: Seq<DownloadView>, i: int, nd: DownloadView, x: DownloadId)
    requires
        0 <= i < s.len(),
        nd.id == s[i].id,
    ensures
        index_of(s.update(i, nd), x) == index_of(s, x),
    decreases s.len(),
{
    let u = s.update(i, nd);
    if i == s.len() - 1 {
        assert(u.drop_last() =~= s.drop_last());
    } else {
        assert(u.drop_last() =~= s.drop_last().update(i, nd));
        lemma_index_of_update(s.drop_last(), i, nd, x);
    }
}

/// A move of one download changes the state of that download only.
proof fn lemma_transition_states(
    v: CoreView,
    j: DownloadId,
    next: DownloadState,
    e: Option<Seq<char>>,
    now: u64,
    x: DownloadId,
)
    requires
        transition_outcome(v, j, next, e, now).2 is None,
    ensures
        x == j ==> state_of(transition_outcome(v, j, next, e, now).0, x) == Some(next),
        x != j ==> state_of(transition_outcome(v, j, next, e, now).0, x) == state_of(v, x),
{
    let i = index_of(v.downloads, j);
    lemma_index_of(v.downloads, j);
    let d = v.downloads[i];
    let nd = crate::manager::transitioned(d, next, e, now);
    lemma_index_of_update(v.downloads, i, nd, x);
    lemma_index_of(v.downloads, x);
    if x != j {
        let k = index_of(v.downloads, x);
        if k >= 0 {
            assert(k != i);
        }
    }
}

/// Scheduling only starts queued downloads: any other download keeps its
/// state.
proof fn lemma_schedule_keeps_unqueued(v: CoreView, now: u64, x: DownloadId)
    requires
        state_of(v, x) != Some(DownloadState::Queued),
    ensures
        state_of(schedule_outcome(v, now).0, x) == state_of(v, x),
    decreases v.queue.len(),
{
    if v.queue.len() > 0 && active_count(v.downloads) < v.config.max_concurrent_downloads {
        let id = v.queue[0];
        let v1 = CoreView { queue: without(v.queue, id), ..v };
        lemma_without_front(v.queue);
        let t = transition_outcome(v1, id, DownloadState::Starting, None, now);
        let b = begin_outcome(v1, id, now);
        if t.2 is None {
            lemma_transition_states(v1, id, DownloadState::Starting, None, now, x);
            if x == id {
                lemma_index_of(v1.downloads, id);
                assert(false);
            }
        }
        assert(state_of(b.0, x) == state_of(v, x));
        lemma_schedule_keeps_unqueued(b.0, now, x);
    }
}

/// A download paused while its transfer runs is paused once the transfer
/// reports that it stopped: the stop is not taken for a cancellation.
pub proof fn law_pause_then_stop_is_paused(v: CoreView, id: DownloadId, now: u64)
    requires
        pause_outcome(v, id).2 is None,
    ensures
        state_of(
            finish_outcome(
                pause_outcome(v, id).0,
                id,
                RunResultView::Failed(Error::Cancelled),
                now,
            ).0,
            id,
        ) == Some(DownloadState::Paused),
{
    let p = pause_outcome(v, id).0;
    assert(p.intents.contains(id));
    let v1 = CoreView { intents: without(p.intents, id), ..p };
    assert(failure_target(Error::Cancelled, true, id).0 == DownloadState::Paused);
    let t = transition_outcome(v1, id, DownloadState::Paused, Some("paused by user"@), now);
    lemma_index_of(v1.downloads, id);
    assert(t.2 is None);
    lemma_transition_states(v1, id, DownloadState::Paused, Some("paused by user"@), now, id);
    let t0 = CoreView { intents: without(t.0.intents, id), ..t.0 };
    lemma_schedule_keeps_unqueued(t0, now, id);
}

/// A download cancelled while its transfer runs (with no pause pending) is
/// cancelled once the transfer reports that it stopped.
pub proof fn law_cancel_then_stop_is_cancelled(v: CoreView, id: DownloadId, now: u64)
    requires
        cancel_outcome(v, id, now).2 is None,
        state_of(v, id) == Some(DownloadState::Starting) || state_of(v, id) == Some(
            DownloadState::Downloading,
        ),
        !v.intents.contains(id),
    ensures
        state_of(
            finish_outcome(
                cancel_outcome(v, id, now).0,
                id,
                RunResultView::Failed(Error::Cancelled),
                now,
            ).0,
            id,
        ) == Some(DownloadState::Cancelled),
{
    let c = cancel_outcome(v, id, now).0;
    assert(c == v);
    let v1 = CoreView { intents: without(c.intents, id), ..c };
    let t = transition_outcome(v1, id, DownloadState::Cancelled, Some("cancelled by user"@), now);
    lemma_index_of(v1.downloads, id);
    assert(t.2 is None);
    lemma_transition_states(v1, id, DownloadState::Cancelled, Some("cancelled by user"@), now, id);
    let t0 = CoreView { intents: without(t.0.intents, id), ..t.0 };
    lemma_schedule_keeps_unqueued(t0, now, id);
}

/// A running download whose transfer completes is completed.
pub proof fn law_finished_transfer_is_completed(
    v: CoreView,
    id: DownloadId,
    downloaded: u64,
    total: Option<u64>,
    meta: Seq<char>,
    now: u64,
)
    requires
        state_of(v, id) == Some(DownloadState::Starting) || state_of(v, id) == Some(
            DownloadState::Downloading,
        ),
    ensures
        state_of(
            finish_outcome(v, id, RunResultView::Done { downloaded, total, meta }, now).0,
            id,
        ) == Some(DownloadState::Completed),
{
    let i = index_of(v.downloads, id);
    lemma_index_of(v.downloads, id);
    let d = v.downloads[i];
    let nd = crate::record::DownloadView {
        downloaded_bytes: downloaded,
        total_bytes: if total is Some {
            total
        } else {
            d.total_bytes
        },
        backend_meta: meta,
        updated_at: now,
        ..d
    };
    let v1 = CoreView { downloads: v.downloads.update(i, nd), ..v };
    lemma_index_of_update(v.downloads, i, nd, id);
    assert(state_of(v1, id) == state_of(v, id));
    let t = transition_outcome(v1, id, DownloadState::Completed, None, now);
    lemma_index_of(v1.downloads, id);
    assert(t.2 is None);
    lemma_transition_states(v1, id, DownloadState::Completed, None, now, id);
    let t0 = CoreView { intents: without(t.0.intents, id), ..t.0 };
    lemma_schedule_keeps_unqueued(t0, now, id);
}

/// Putting a record finds it under its id, and leaves where every other id
/// is found, and what is found there, as it was.
proof fn lemma_put_finds(s: Seq<DownloadView>, d: DownloadView, x: DownloadId)
    ensures
        index_of(put(s, d), d.id) >= 0,
        put(s, d)[index_of(put(s, d), d.id)] == d,
        x != d.id ==> index_of(put(s, d), x) == index_of(s, x),
        x != d.id && index_of(s, x) >= 0 ==> put(s, d)[index_of(s, x)] == s[index_of(s, x)],
{
    let i = index_of(s, d.id);
    lemma_index_of(s, d.id);
    lemma_index_of(s, x);
    if i < 0 {
        let p = s.push(d);
        assert(p.drop_last() =~= s);
        assert(p.last() == d);
    } else {
        lemma_index_of_update(s, i, d, d.id);
        lemma_index_of_update(s, i, d, x);
    }
}

/// Recovery at startup keeps every download that was not in flight as it
/// was stored, and queues again those that were queued.
pub proof fn law_recovery_keeps_settled_downloads(v: CoreView, rows: Seq<DownloadView>, now: u64, j: int)
    requires
        0 <= j < rows.len(),
        !is_active(rows[j].state),
        forall|a: int, b: int| 0 <= a < b < rows.len() ==> rows[a].id != rows[b].id,
    ensures
        index_of(recover_outcome(v, rows, now).0.downloads, rows[j].id) >= 0,
        recover_outcome(v, rows, now).0.downloads[index_of(recover_outcome(v, rows, now).0.downloads, rows[j].id)]
            == rows[j],
        rows[j].state == DownloadState::Queued ==> recover_outcome(v, rows, now).0.queue.contains(rows[j].id),
    decreases rows.len(),
{
    let n = rows.len();
    let front = rows.drop_last();
    let a = recover_outcome(v, front, now);
    let d = rows.last();
    let b = recover_step(a.0, d, now);
    assert(recover_outcome(v, rows, now).0 == b.0);
    let x = rows[j].id;
    if j == n - 1 {
        assert(crate::manager::recovered(d, a.0.config.recover_interrupted, now) is None);
        lemma_put_finds(a.0.downloads, d, x);
        if d.state == DownloadState::Queued {
            assert(b.0.queue == a.0.queue.push(d.id));
            assert(b.0.queue[a.0.queue.len() as int] == x);
        }
    } else {
        assert(front[j] == rows[j]);
        assert forall|p: int, q: int| 0 <= p < q < front.len() implies front[p].id != front[q].id by {
            assert(front[p] == rows[p]);
            assert(front[q] == rows[q]);
        }
        law_recovery_keeps_settled_downloads(v, front, now, j);
        assert(rows[j].id != d.id);
        let e = match crate::manager::recovered(d, a.0.config.recover_interrupted, now) {
            Some(nd) => nd,
            None => d,
        };
        assert(e.id == d.id);
        assert(b.0.downloads == put(a.0.downloads, e));
        lemma_put_finds(a.0.downloads, e, x);
        if rows[j].state == DownloadState::Queued {
            let w = choose|w: int| 0 <= w < a.0.queue.len() && a.0.queue[w] == x;
            if b.0.queue != a.0.queue {
                assert(b.0.queue == a.0.queue.push(e.id));
                assert(b.0.queue[w] == x);
            }
        }
    }
}

/// `true` when no two records share an id.
pub open spec fn distinct_ids(s: Seq<DownloadView>) -> bool {
    forall|a: int, b: int| 0 <= a < b < s.len() ==> #[trigger] s[a].id != #[trigger] s[b].id
}

/// The ids of the records, in order.
pub open spec fn ids_of(s: Seq<DownloadView>) -> Seq<DownloadId> {
    s.map_values(|d: DownloadView| d.id)
}

/// Records with the same ids in the same order are distinct together.
proof fn lemma_same_ids(s: Seq<DownloadView>, t: Seq<DownloadView>)
    requires
        ids_of(s) == ids_of(t),
        distinct_ids(s),
    ensures
        distinct_ids(t),
{
    assert(ids_of(s).len() == s.len());
    assert(ids_of(t).len() == t.len());
    assert forall|a: int, b: int| 0 <= a < b < t.len() implies #[trigger] t[a].id != #[trigger] t[b].id by {
        assert(s.len() == t.len());
        assert(ids_of(t)[a] == t[a].id);
        assert(ids_of(t)[b] == t[b].id);
        assert(ids_of(s)[a] == s[a].id);
        assert(ids_of(s)[b] == s[b].id);
        assert(s[a].id != s[b].id);
    }
}

/// Replacing a record by one with the same id keeps the ids.
proof fn lemma_update_ids(s: Seq<DownloadView>, i: int, nd: DownloadView)
    requires
        0 <= i < s.len(),
        nd.id == s[i].id,
    ensures
        ids_of(s.update(i, nd)) == ids_of(s),
{
    assert(ids_of(s.update(i, nd)) =~= ids_of(s));
}

/// A move of one download keeps the ids.
proof fn lemma_transition_ids(v: CoreView, id: DownloadId, next: DownloadState, e: Option<Seq<char>>, now: u64)
    ensures
        ids_of(transition_outcome(v, id, next, e, now).0.downloads) == ids_of(v.downloads),
{
    let i = index_of(v.downloads, id);
    lemma_index_of(v.downloads, id);
    if i >= 0 && allows(v.downloads[i].state, next) {
        lemma_update_ids(v.downloads, i, transitioned(v.downloads[i], next, e, now));
    }
}

/// Scheduling keeps the ids.
proof fn lemma_schedule_ids(v: CoreView, now: u64)
    ensures
        ids_of(schedule_outcome(v, now).0.downloads) == ids_of(v.downloads),
    decreases v.queue.len(),
{
    if v.queue.len() > 0 && active_count(v.downloads) < v.config.max_concurrent_downloads {
        let id = v.queue[0];
        let v1 = CoreView { queue: without(v.queue, id), ..v };
        lemma_without_front(v.queue);
        lemma_transition_ids(v1, id, DownloadState::Starting, None, now);
        lemma_schedule_ids(begin_outcome(v1, id, now).0, now);
    }
}

/// Records put under their id stay distinct.
proof fn lemma_put_distinct(s: Seq<DownloadView>, d: DownloadView)
    requires
        distinct_ids(s),
    ensures
        distinct_ids(put(s, d)),
{
    let i = index_of(s, d.id);
    lemma_index_of(s, d.id);
    if i >= 0 {
        lemma_update_ids(s, i, d);
        lemma_same_ids(s, put(s, d));
    } else {
        let p = s.push(d);
        assert forall|a: int, b: int| 0 <= a < b < p.len() implies #[trigger] p[a].id != #[trigger] p[b].id by {
            if b == s.len() {
                assert(p[a] == s[a]);
            } else {
                assert(p[a] == s[a] && p[b] == s[b]);
            }
        }
    }
}

/// Loading records at startup keeps ids distinct.
proof fn lemma_recover_distinct(v: CoreView, rows: Seq<DownloadView>, now: u64)
    requires
        distinct_ids(v.downloads),
    ensures
        distinct_ids(recover_outcome(v, rows, now).0.downloads),
    decreases rows.len(),
{
    if rows.len() > 0 {
        lemma_recover_distinct(v, rows.drop_last(), now);
        let a = recover_outcome(v, rows.drop_last(), now);
        let d = rows.last();
        match crate::manager::recovered(d, a.0.config.recover_interrupted, now) {
            Some(nd) => lemma_put_distinct(a.0.downloads, nd),
            None => lemma_put_distinct(a.0.downloads, d),
        }
    }
}

/// No operation of the manager ever holds two records with one id: every
/// operation keeps the ids distinct, and a download that `remove` accepts
/// is gone afterwards.
pub proof fn law_ids_stay_distinct(
    v: CoreView,
    id: DownloadId,
    now: u64,
    d: DownloadView,
    rows: Seq<DownloadView>,
    r: RunResultView,
    downloaded: u64,
    total: Option<u64>,
)
    requires
        distinct_ids(v.downloads),
    ensures
        distinct_ids(schedule_outcome(v, now).0.downloads),
        distinct_ids(start_outcome(v, id, now).0.downloads),
        distinct_ids(pause_outcome(v, id).0.downloads),
        distinct_ids(resume_outcome(v, id, now).0.downloads),
        distinct_ids(retry_outcome(v, id, now).0.downloads),
        distinct_ids(cancel_outcome(v, id, now).0.downloads),
        distinct_ids(remove_outcome(v, id, now).0.downloads),
        distinct_ids(progress_outcome(v, id, downloaded, total, now).0.downloads),
        distinct_ids(finish_outcome(v, id, r, now).0.downloads),
        distinct_ids(commit_outcome(v, d, now).0.downloads),
        distinct_ids(recover_outcome(v, rows, now).0.downloads),
        remove_outcome(v, id, now).2 is None ==> index_of(remove_outcome(v, id, now).0.downloads, id) < 0,
{
    let s = v.downloads;
    // schedule
    lemma_schedule_ids(v, now);
    lemma_same_ids(s, schedule_outcome(v, now).0.downloads);
    // start
    let v1 = CoreView { queue: without(v.queue, id), ..v };
    lemma_transition_ids(v1, id, DownloadState::Starting, None, now);
    lemma_same_ids(s, start_outcome(v, id, now).0.downloads);
    // resume and retry
    lemma_transition_ids(v, id, DownloadState::Queued, None, now);
    let t = transition_outcome(v, id, DownloadState::Queued, None, now);
    lemma_schedule_ids(CoreView { queue: t.0.queue.push(id), ..t.0 }, now);
    lemma_same_ids(s, resume_outcome(v, id, now).0.downloads);
    lemma_same_ids(s, retry_outcome(v, id, now).0.downloads);
    // cancel
    lemma_transition_ids(v1, id, DownloadState::Cancelled, Some("cancelled by user"@), now);
    lemma_same_ids(s, cancel_outcome(v, id, now).0.downloads);
    // progress
    let i = index_of(s, id);
    lemma_index_of(s, id);
    if i >= 0 {
        lemma_update_ids(s, i, progressed(s[i], downloaded, total, now));
    }
    lemma_same_ids(s, progress_outcome(v, id, downloaded, total, now).0.downloads);
    // finish
    match r {
        RunResultView::Done { downloaded: dn, total: tt, meta } => {
            let w = if i < 0 {
                v
            } else {
                let x = s[i];
                let nd = DownloadView {
                    downloaded_bytes: dn,
                    total_bytes: if tt is Some {
                        tt
                    } else {
                        x.total_bytes
                    },
                    backend_meta: meta,
                    updated_at: now,
                    ..x
                };
                lemma_update_ids(s, i, nd);
                CoreView { downloads: s.update(i, nd), ..v }
            };
            lemma_transition_ids(w, id, DownloadState::Completed, None, now);
            let t2 = transition_outcome(w, id, DownloadState::Completed, None, now);
            lemma_schedule_ids(CoreView { intents: without(t2.0.intents, id), ..t2.0 }, now);
        },
        RunResultView::Failed(e) => {
            let paused = v.intents.contains(id);
            let w = CoreView { intents: without(v.intents, id), ..v };
            let f = crate::manager::failure_target(e, paused, id);
            lemma_transition_ids(w, id, f.0, Some(f.1), now);
            let t2 = transition_outcome(w, id, f.0, Some(f.1), now);
            lemma_schedule_ids(CoreView { intents: without(t2.0.intents, id), ..t2.0 }, now);
        },
    }
    lemma_same_ids(s, finish_outcome(v, id, r, now).0.downloads);
    // commit
    lemma_put_distinct(s, d);
    let c1 = CoreView { downloads: put(s, d), queue: v.queue.push(d.id), ..v };
    lemma_schedule_ids(c1, now);
    lemma_same_ids(put(s, d), commit_outcome(v, d, now).0.downloads);
    // recover
    lemma_recover_distinct(v, rows, now);
    // remove
    if i >= 0 {
        let sr = s.remove(i);
        assert forall|a: int, b: int| 0 <= a < b < sr.len() implies #[trigger] sr[a].id != #[trigger] sr[b].id by {
            let a2 = if a < i { a } else { a + 1 };
            let b2 = if b < i { b } else { b + 1 };
            assert(sr[a] == s[a2] && sr[b] == s[b2]);
        }
        let rv = CoreView { intents: without(v.intents, id), queue: without(v.queue, id), downloads: sr, ..v };
        lemma_schedule_ids(rv, now);
        let out = remove_outcome(v, id, now).0.downloads;
        lemma_same_ids(sr, out);
        assert(ids_of(out).len() == out.len());
        assert(ids_of(sr).len() == sr.len());
        assert forall|k: int| 0 <= k < out.len() implies out[k].id != id by {
            assert(ids_of(out)[k] == ids_of(sr)[k]);
            let k2 = if k < i { k } else { k + 1 };
            assert(sr[k] == s[k2]);
            assert(s[i].id == id);
            if k2 < i {
                assert(s[k2].id != s[i].id);
            } else {
                assert(s[i].id != s[k2].id);
            }
        }
        lemma_index_of(out, id);
    }
}

/// Committing a new queued download keeps the concurrency limit: when no
/// more downloads are active than the limit allows before, none are after,
/// and downloads stay queued only while the limit is reached. Over any run
/// of enqueues the number of active downloads is therefore the smaller of
/// the limit and the number of downloads waiting to run.
pub proof fn law_enqueue_keeps_limit(v: CoreView, d: DownloadView, now: u64)
    requires
        active_count(v.downloads) <= v.config.max_concurrent_downloads,
        d.state == DownloadState::Queued,
    ensures
        active_count(commit_outcome(v, d, now).0.downloads) <= v.config.max_concurrent_downloads,
        commit_outcome(v, d, now).0.queue.len() == 0 || active_count(commit_outcome(v, d, now).0.downloads)
            == v.config.max_concurrent_downloads,
{
    let s = v.downloads;
    let i = index_of(s, d.id);
    lemma_index_of(s, d.id);
    if i >= 0 {
        lemma_active_count_update(s, i, d);
    } else {
        assert(s.push(d).drop_last() =~= s);
    }
    assert(active_count(put(s, d)) <= active_count(s));
    let c1 = CoreView { downloads: put(s, d), queue: v.queue.push(d.id), ..v };
    law_schedule_respects_limit(c1, now);
}

/// The number of queued records.
pub open spec fn queued_count(s: Seq<DownloadView>) -> nat
    decreases s.len(),
{
    if s.len() == 0 {
        0
    } else {
        queued_count(s.drop_last()) + if s.last().state == DownloadState::Queued {
            1nat
        } else {
            0nat
        }
    }
}

/// No id occurs twice in the queue.
pub open spec fn queue_distinct(q: Seq<DownloadId>) -> bool {
    forall|a: int, b: int| 0 <= a < b < q.len() ==> #[trigger] q[a] != #[trigger] q[b]
}

/// The state a core is in while downloads are only being enqueued and
/// started: distinct records, each queued or starting, and a queue of
/// distinct ids that are exactly the queued ones.
pub open spec fn only_enqueued(v: CoreView) -> bool {
    &&& distinct_ids(v.downloads)
    &&& queue_distinct(v.queue)
    &&& forall|i: int| 0 <= i < v.queue.len() ==> state_of(v, #[trigger] v.queue[i]) == Some(DownloadState::Queued)
    &&& forall|j: int|
        0 <= j < v.downloads.len() ==> (#[trigger] v.downloads[j]).state == DownloadState::Queued
            || v.downloads[j].state == DownloadState::Starting
    &&& queued_count(v.downloads) == v.queue.len()
}

proof fn lemma_queued_count_update(s: Seq<DownloadView>, i: int, d: DownloadView)
    requires
        0 <= i < s.len(),
    ensures
        queued_count(s.update(i, d)) + (if s[i].state == DownloadState::Queued {
            1int
        } else {
            0int
        }) == queued_count(s) + (if d.state == DownloadState::Queued {
            1int
        } else {
            0int
        }),
    decreases s.len(),
{
    let u = s.update(i, d);
    if i == s.len() - 1 {
        assert(u.drop_last() =~= s.drop_last());
    } else {
        lemma_queued_count_update(s.drop_last(), i, d);
        assert(u.drop_last() =~= s.drop_last().update(i, d));
    }
}

/// Records that are all queued or starting are counted by the two counts.
proof fn lemma_counts_split(s: Seq<DownloadView>)
    requires
        forall|j: int|
            0 <= j < s.len() ==> (#[trigger] s[j]).state == DownloadState::Queued || s[j].state
                == DownloadState::Starting,
    ensures
        active_count(s) + queued_count(s) == s.len(),
    decreases s.len(),
{
    if s.len() > 0 {
        let t = s.drop_last();
        assert forall|j: int| 0 <= j < t.len() implies (#[trigger] t[j]).state == DownloadState::Queued
            || t[j].state == DownloadState::Starting by {
            assert(t[j] == s[j]);
        }
        lemma_counts_split(t);
        assert(s.last() == s[s.len() - 1]);
    }
}

/// Removing the front of a queue of distinct ids drops just that element.
proof fn lemma_without_distinct_front(q: Seq<DownloadId>)
    requires
        q.len() > 0,
        queue_distinct(q),
    ensures
        without(q, q[0]) == q.drop_first(),
    decreases q.len(),
{
    if q.len() == 1 {
        assert(q.drop_last() =~= Seq::<DownloadId>::empty());
        assert(q.last() == q[0]);
        assert(q.drop_first() =~= Seq::<DownloadId>::empty());
        assert(without(q.drop_last(), q[0]) == q.drop_last());
        assert(without(q, q[0]) == without(q.drop_last(), q[0]));
    } else {
        let t = q.drop_last();
        assert(t[0] == q[0]);
        assert forall|a: int, b: int| 0 <= a < b < t.len() implies #[trigger] t[a] != #[trigger] t[b] by {
            assert(t[a] == q[a] && t[b] == q[b]);
        }
        lemma_without_distinct_front(t);
        assert(q.last() == q[q.len() - 1]);
        assert(q[0] != q[q.len() - 1]);
        assert(t.drop_first().push(q.last()) =~= q.drop_first());
        assert(without(q, q[0]) == without(t, q[0]).push(q.last()));
    }
}

/// Starting the front of the queue of a core that only enqueues: one more
/// active download, one fewer in the queue, and the same shape.
proof fn lemma_begin_front(v: CoreView, now: u64)
    requires
        only_enqueued(v),
        v.queue.len() > 0,
    ensures
        ({
            let b = begin_outcome(CoreView { queue: without(v.queue, v.queue[0]), ..v }, v.queue[0], now).0;
            &&& only_enqueued(b)
            &&& active_count(b.downloads) == active_count(v.downloads) + 1
            &&& b.queue.len() + 1 == v.queue.len()
            &&& ids_of(b.downloads) == ids_of(v.downloads)
            &&& b.config == v.config
        }),
{
    let q = v.queue;
    let id = q[0];
    lemma_without_distinct_front(q);
    let v1 = CoreView { queue: q.drop_first(), ..v };
    let s = v.downloads;
    let i = index_of(s, id);
    lemma_index_of(s, id);
    assert(state_of(v, q[0]) == Some(DownloadState::Queued));
    let nd = transitioned(s[i], DownloadState::Starting, None, now);
    let u = s.update(i, nd);
    let b = begin_outcome(v1, id, now).0;
    assert(b.downloads == u);
    assert(b.queue == q.drop_first());
    lemma_update_ids(s, i, nd);
    lemma_same_ids(s, u);
    lemma_active_count_update(s, i, nd);
    lemma_queued_count_update(s, i, nd);
    let bq = b.queue;
    assert forall|a: int, c: int| 0 <= a < c < bq.len() implies #[trigger] bq[a] != #[trigger] bq[c] by {
        assert(bq[a] == q[a + 1] && bq[c] == q[c + 1]);
    }
    assert forall|k: int| 0 <= k < bq.len() implies state_of(b, #[trigger] bq[k]) == Some(DownloadState::Queued) by {
        let x = bq[k];
        assert(x == q[k + 1]);
        assert(q[0] != q[k + 1]);
        assert(state_of(v, q[k + 1]) == Some(DownloadState::Queued));
        lemma_index_of_update(s, i, nd, x);
        lemma_index_of(s, x);
        let jx = index_of(s, x);
        assert(s[jx].id == x);
        assert(jx != i);
    }
    assert forall|j: int| 0 <= j < u.len() implies (#[trigger] u[j]).state == DownloadState::Queued
        || u[j].state == DownloadState::Starting by {
        if j != i {
            assert(u[j] == s[j]);
        }
    }
}

/// Scheduling a core that only enqueues starts queued downloads from the
/// front until the limit is reached or the queue is empty.
proof fn lemma_schedule_fills(v: CoreView, now: u64)
    requires
        only_enqueued(v),
    ensures
        only_enqueued(schedule_outcome(v, now).0),
        ids_of(schedule_outcome(v, now).0.downloads) == ids_of(v.downloads),
        schedule_outcome(v, now).0.config == v.config,
        active_count(schedule_outcome(v, now).0.downloads) == (if active_count(v.downloads)
            >= v.config.max_concurrent_downloads {
            active_count(v.downloads) as int
        } else if active_count(v.downloads) + v.queue.len() < v.config.max_concurrent_downloads {
            (active_count(v.downloads) + v.queue.len()) as int
        } else {
            v.config.max_concurrent_downloads as int
        }),
        active_count(schedule_outcome(v, now).0.downloads) + schedule_outcome(v, now).0.queue.len()
            == active_count(v.downloads) + v.queue.len(),
    decreases v.queue.len(),
{
    if v.queue.len() > 0 && active_count(v.downloads) < v.config.max_concurrent_downloads {
        let id = v.queue[0];
        let v1 = CoreView { queue: without(v.queue, id), ..v };
        lemma_without_front(v.queue);
        lemma_begin_front(v, now);
        let b = begin_outcome(v1, id, now).0;
        lemma_schedule_fills(b, now);
    }
}

/// Committing the records `ds` one after the other, starting from `v`.
pub open spec fn enqueue_series(v: CoreView, ds: Seq<DownloadView>, now: u64) -> CoreView
    decreases ds.len(),
{
    if ds.len() == 0 {
        v
    } else {
        commit_outcome(enqueue_series(v, ds.drop_last(), now), ds.last(), now).0
    }
}

/// The smaller of two counts.
pub open spec fn min_count(a: int, b: int) -> int {
    if a < b {
        a
    } else {
        b
    }
}

proof fn lemma_series(v: CoreView, ds: Seq<DownloadView>, now: u64)
    requires
        v.downloads.len() == 0,
        v.queue.len() == 0,
        forall|i: int| 0 <= i < ds.len() ==> (#[trigger] ds[i]).state == DownloadState::Queued,
        forall|a: int, b: int| 0 <= a < b < ds.len() ==> #[trigger] ds[a].id != #[trigger] ds[b].id,
    ensures
        only_enqueued(enqueue_series(v, ds, now)),
        ids_of(enqueue_series(v, ds, now).downloads) == ids_of(ds),
        enqueue_series(v, ds, now).config == v.config,
        active_count(enqueue_series(v, ds, now).downloads) == min_count(
            v.config.max_concurrent_downloads as int,
            ds.len() as int,
        ),
        enqueue_series(v, ds, now).queue.len() == ds.len() - min_count(
            v.config.max_concurrent_downloads as int,
            ds.len() as int,
        ),
    decreases ds.len(),
{
    let lim = v.config.max_concurrent_downloads as int;
    if ds.len() == 0 {
        assert(ids_of(v.downloads) =~= ids_of(ds));
        assert(v.downloads =~= Seq::<DownloadView>::empty());
    } else {
        let dp = ds.drop_last();
        assert forall|i: int| 0 <= i < dp.len() implies (#[trigger] dp[i]).state == DownloadState::Queued by {
            assert(dp[i] == ds[i]);
        }
        assert forall|a: int, b: int| 0 <= a < b < dp.len() implies #[trigger] dp[a].id != #[trigger] dp[b].id by {
            assert(dp[a] == ds[a] && dp[b] == ds[b]);
        }
        lemma_series(v, dp, now);
        let w = enqueue_series(v, dp, now);
        let d = ds.last();
        let s = w.downloads;
        assert(d == ds[ds.len() - 1]);
        assert(ids_of(s).len() == s.len());
        assert(ids_of(dp).len() == dp.len());
        // the new id is not tracked yet
        lemma_index_of(s, d.id);
        if index_of(s, d.id) >= 0 {
            let k = index_of(s, d.id);
            assert(ids_of(s)[k] == s[k].id);
            assert(ids_of(dp)[k] == dp[k].id);
            assert(dp[k] == ds[k]);
            assert(false);
        }
        let p = s.push(d);
        assert(put(s, d) == p);
        assert(p.drop_last() =~= s);
        assert(p.last() == d);
        let c1 = CoreView { downloads: p, queue: w.queue.push(d.id), ..w };
        lemma_put_distinct(s, d);
        let cq = c1.queue;
        assert forall|i: int| 0 <= i < w.queue.len() implies #[trigger] w.queue[i] != d.id by {
            assert(state_of(w, w.queue[i]) == Some(DownloadState::Queued));
        }
        assert forall|a: int, b: int| 0 <= a < b < cq.len() implies #[trigger] cq[a] != #[trigger] cq[b] by {
            if b == w.queue.len() {
                assert(cq[a] == w.queue[a]);
            } else {
                assert(cq[a] == w.queue[a] && cq[b] == w.queue[b]);
            }
        }
        assert forall|i: int| 0 <= i < cq.len() implies state_of(c1, #[trigger] cq[i]) == Some(DownloadState::Queued) by {
            if i < w.queue.len() {
                let x = w.queue[i];
                assert(cq[i] == x);
                assert(state_of(w, x) == Some(DownloadState::Queued));
                lemma_put_finds(s, d, x);
            } else {
                lemma_put_finds(s, d, d.id);
            }
        }
        assert forall|j: int| 0 <= j < p.len() implies (#[trigger] p[j]).state == DownloadState::Queued
            || p[j].state == DownloadState::Starting by {
            if j < s.len() {
                assert(p[j] == s[j]);
            }
        }
        assert(queued_count(p) == queued_count(s) + 1);
        assert(active_count(p) == active_count(s));
        assert(only_enqueued(c1));
        lemma_schedule_fills(c1, now);
        assert(enqueue_series(v, ds, now) == schedule_outcome(c1, now).0);
        assert(ids_of(p) =~= ids_of(s).push(d.id));
        assert(ids_of(ds) =~= ids_of(dp).push(d.id));
    }
}

/// Enqueuing downloads one after the other on a fresh manager starts them
/// up to the concurrency limit: after `n` enqueues, exactly the smaller of
/// the limit and `n` are active and the rest wait in the queue, in order.
pub proof fn law_enqueues_fill_up_to_the_limit(v: CoreView, ds: Seq<DownloadView>, now: u64)
    requires
        v.downloads.len() == 0,
        v.queue.len() == 0,
        forall|i: int| 0 <= i < ds.len() ==> (#[trigger] ds[i]).state == DownloadState::Queued,
        forall|a: int, b: int| 0 <= a < b < ds.len() ==> #[trigger] ds[a].id != #[trigger] ds[b].id,
    ensures
        active_count(enqueue_series(v, ds, now).downloads) == min_count(
            v.config.max_concurrent_downloads as int,
            ds.len() as int,
        ),
        enqueue_series(v, ds, now).queue.len() == ds.len() - min_count(
            v.config.max_concurrent_downloads as int,
            ds.len() as int,
        ),
        enqueue_series(v, ds, now).downloads.len() == ds.len(),
{
    lemma_series(v, ds, now);
    let w = enqueue_series(v, ds, now);
    assert(ids_of(w.downloads).len() == w.downloads.len());
    assert(ids_of(ds).len() == ds.len());
}

/// Every progress report of a tracked download is recorded: afterwards its
/// record holds the report's byte count (and the reported total, when the
/// report has one), whatever state the download was in, and it keeps its
/// place.
pub proof fn law_progress_is_recorded(v: CoreView, id: DownloadId, downloaded: u64, total: Option<u64>, now: u64)
    requires
        index_of(v.downloads, id) >= 0,
    ensures
        index_of(progress_outcome(v, id, downloaded, total, now).0.downloads, id) == index_of(v.downloads, id),
        progress_outcome(v, id, downloaded, total, now).0.downloads[index_of(v.downloads, id)].downloaded_bytes
            == downloaded,
        progress_outcome(v, id, downloaded, total, now).0.downloads[index_of(v.downloads, id)].id == id,
        total is Some ==> progress_outcome(v, id, downloaded, total, now).0.downloads[index_of(
            v.downloads,
            id,
        )].total_bytes == total,
{
    let s = v.downloads;
    let i = index_of(s, id);
    lemma_index_of(s, id);
    let nd = progressed(s[i], downloaded, total, now);
    lemma_index_of_update(s, i, nd, id);
}

/// Cancelling a download that is queued, paused or failed succeeds and
/// leaves it cancelled, recording that the user cancelled it and announcing
/// the cancellation.
pub proof fn law_cancel_settles_waiting_downloads(v: CoreView, id: DownloadId, now: u64)
    requires
        state_of(v, id) == Some(DownloadState::Queued) || state_of(v, id) == Some(DownloadState::Paused)
            || state_of(v, id) == Some(DownloadState::Failed),
    ensures
        cancel_outcome(v, id, now).2 is None,
        state_of(cancel_outcome(v, id, now).0, id) == Some(DownloadState::Cancelled),
        cancel_outcome(v, id, now).0.downloads[index_of(cancel_outcome(v, id, now).0.downloads, id)].error
            == Some("cancelled by user"@),
        cancel_outcome(v, id, now).1.contains(EffectView::Publish(EventView::Cancelled(id))),
        !cancel_outcome(v, id, now).0.queue.contains(id),
{
    let v1 = CoreView { queue: without(v.queue, id), ..v };
    let s = v.downloads;
    let i = index_of(s, id);
    lemma_index_of(s, id);
    let t = transition_outcome(v1, id, DownloadState::Cancelled, Some("cancelled by user"@), now);
    assert(t.2 is None);
    lemma_transition_states(v1, id, DownloadState::Cancelled, Some("cancelled by user"@), now, id);
    let nd = transitioned(s[i], DownloadState::Cancelled, Some("cancelled by user"@), now);
    lemma_index_of_update(s, i, nd, id);
    let es = t.1 + seq![EffectView::Publish(EventView::Cancelled(id))];
    assert(es[es.len() - 1] == EffectView::Publish(EventView::Cancelled(id)));
    crate::queue::law_remove_keeps_others(v.queue, id);
}

/// After recovery, every download left queued (one stored as queued, or
/// one found in flight and queued again by the policy) is in the queue,
/// so the scheduler will start it.
pub proof fn law_recovered_queued_downloads_are_queued(v: CoreView, rows: Seq<DownloadView>, now: u64, j: int)
    requires
        0 <= j < rows.len(),
        forall|a: int, b: int| 0 <= a < b < rows.len() ==> rows[a].id != rows[b].id,
    ensures
        state_of(recover_outcome(v, rows, now).0, rows[j].id) == Some(DownloadState::Queued)
            ==> recover_outcome(v, rows, now).0.queue.contains(rows[j].id),
    decreases rows.len(),
{
    let n = rows.len();
    let front = rows.drop_last();
    let a = recover_outcome(v, front, now);
    let d = rows.last();
    let b = recover_step(a.0, d, now);
    assert(recover_outcome(v, rows, now).0 == b.0);
    let x = rows[j].id;
    let e = match crate::manager::recovered(d, a.0.config.recover_interrupted, now) {
        Some(nd) => nd,
        None => d,
    };
    assert(e.id == d.id);
    assert(b.0.downloads == put(a.0.downloads, e));
    assert(b.0.queue == (if e.state == DownloadState::Queued {
        a.0.queue.push(e.id)
    } else {
        a.0.queue
    }));
    if j == n - 1 {
        lemma_put_finds(a.0.downloads, e, x);
        if e.state == DownloadState::Queued {
            assert(b.0.queue[a.0.queue.len() as int] == x);
        }
    } else {
        assert(front[j] == rows[j]);
        assert forall|p: int, q: int| 0 <= p < q < front.len() implies front[p].id != front[q].id by {
            assert(front[p] == rows[p]);
            assert(front[q] == rows[q]);
        }
        law_recovered_queued_downloads_are_queued(v, front, now, j);
        assert(x != d.id);
        lemma_put_finds(a.0.downloads, e, x);
        lemma_index_of(a.0.downloads, x);
        if state_of(b.0, x) == Some(DownloadState::Queued) {
            assert(state_of(a.0, x) == Some(DownloadState::Queued));
            let w = choose|w: int| 0 <= w < a.0.queue.len() && a.0.queue[w] == x;
            assert(b.0.queue[w] == x);
        }
    }
}

} // verus!
