//! The FIFO download queue and the scheduler that reads it.
//!
//! The queue holds the ids of downloads that are queued and not yet handed to
//! a backend, in enqueue order. The scheduler decides how many of them may
//! start now.

use std::collections::VecDeque;

use vstd::prelude::*;

use crate::backend::DownloadId;

verus! {

broadcast use vstd::std_specs::vecdeque::group_vec_dequeue_axioms;

/// `s` with every occurrence of `id` removed, order kept.
pub open spec fn without(s: Seq<DownloadId>, id: DownloadId) -> Seq<DownloadId>
    decreases s.len(),
{
    if s.len() == 0 {
        s
    } else if s.last() == id {
        without(s.drop_last(), id)
    } else {
        without(s.drop_last(), id).push(s.last())
    }
}

/// An ordered queue of queued download ids.
pub struct Queue {
    order: VecDeque<DownloadId>,
}

impl View for Queue {
    type V = Seq<DownloadId>;

    closed spec fn view(&self) -> Seq<DownloadId> {
        self.order@
    }
}

impl Queue {
    /// Creates an empty queue.
    pub fn new() -> (q: Queue)
        ensures
            q@ == Seq::<DownloadId>::empty(),
    {
        Queue { order: VecDeque::new() }
    }

    /// Appends `id` to the back of the queue.
    pub fn enqueue(&mut self, id: DownloadId)
        ensures
            final(self)@ == old(self)@.push(id),
    {
        self.order.push_back(id);
    }

    /// Removes and returns the id at the front of the queue, if any.
    pub fn dequeue(&mut self) -> (r: Option<DownloadId>)
        ensures
            old(self)@.len() == 0 ==> r is None && final(self)@ == old(self)@,
            old(self)@.len() > 0 ==> r == Some(old(self)@[0]) && final(self)@ == old(
                self,
            )@.drop_first(),
    {
        let r = self.order.pop_front();
        assert(old(self)@.len() > 0 ==> old(self)@.subrange(1, old(self)@.len() as int) =~= old(
            self,
        )@.drop_first());
        r
    }

    /// Removes `id` from anywhere in the queue; returns `true` if it was
    /// present.
    pub fn remove(&mut self, id: &DownloadId) -> (r: bool)
        ensures
            final(self)@ == without(old(self)@, *id),
            r == old(self)@.contains(*id),
    {
        let target = *id;
        let ghost s = self.order@;
        let mut kept: VecDeque<DownloadId> = VecDeque::new();
        let mut found = false;
        let n = self.order.len();
        assert(s.take(0) =~= Seq::<DownloadId>::empty());
        for i in 0..n
            invariant
                n == s.len(),
                s == self.order@,
                kept@ == without(s.take(i as int), target),
                found == s.take(i as int).contains(target),
        {
            let x = self.order[i];
            assert(s.take(i + 1).drop_last() =~= s.take(i as int));
            assert(s.take(i + 1).last() == x);
            if x == target {
                found = true;
                assert(s.take(i + 1)[i as int] == target);
            } else {
                kept.push_back(x);
                assert(s.take(i + 1).contains(target) ==> s.take(i as int).contains(target)) by {
                    if s.take(i + 1).contains(target) {
                        let j = choose|j: int| 0 <= j < i + 1 && #[trigger] s.take(i + 1)[j] == target;
                        assert(j != i);
                        assert(s.take(i as int)[j] == target);
                    }
                }
            }
            assert(s.take(i as int).contains(target) ==> s.take(i + 1).contains(target)) by {
                if s.take(i as int).contains(target) {
                    let j = choose|j: int| 0 <= j < i && #[trigger] s.take(i as int)[j] == target;
                    assert(s.take(i + 1)[j] == target);
                }
            }
        }
        assert(s.take(n as int) =~= s);
        self.order = kept;
        found
    }

    /// The number of queued downloads.
    pub fn len(&self) -> (r: usize)
        ensures
            r == self@.len(),
    {
        self.order.len()
    }

    /// Returns `true` if the queue is empty.
    pub fn is_empty(&self) -> (r: bool)
        ensures
            r == (self@.len() == 0),
    {
        self.order.len() == 0
    }

    /// The queued ids in enqueue order.
    pub fn iter(&self) -> (r: Vec<DownloadId>)
        ensures
            r@ == self@,
    {
        let mut out: Vec<DownloadId> = Vec::new();
        let n = self.order.len();
        for i in 0..n
            invariant
                n == self.order@.len(),
                out@ == self.order@.take(i as int),
        {
            out.push(self.order[i]);
            assert(self.order@.take(i + 1) =~= self.order@.take(i as int).push(self.order@[i as int]));
        }
        assert(self.order@.take(n as int) =~= self.order@);
        out
    }
}

/// How many downloads may start: the room under `limit` left by `active`.
pub open spec fn capacity(active: nat, limit: nat) -> nat {
    if limit > active {
        (limit - active) as nat
    } else {
        0
    }
}

/// The ids the scheduler starts: the first ones of the queue, as many as
/// there is room for.
pub open spec fn selection(queue: Seq<DownloadId>, active: nat, limit: nat) -> Seq<DownloadId> {
    let c = capacity(active, limit);
    if c < queue.len() {
        queue.take(c as int)
    } else {
        queue
    }
}

/// Returns up to `limit - active_count` queued download ids, in queue order.
///
/// If `active_count` already meets or exceeds `limit`, the result is empty.
pub fn select_for_start(queue: &Queue, active_count: usize, limit: usize) -> (r: Vec<DownloadId>)
    ensures
        r@ == selection(queue@, active_count as nat, limit as nat),
{
    let cap = if limit > active_count {
        limit - active_count
    } else {
        0
    };
    let ids = queue.iter();
    let n = if cap < ids.len() {
        cap
    } else {
        ids.len()
    };
    let mut r: Vec<DownloadId> = Vec::new();
    for i in 0..n
        invariant
            n <= ids@.len(),
            r@ == ids@.take(i as int),
    {
        r.push(ids[i]);
        assert(ids@.take(i + 1) =~= ids@.take(i as int).push(ids@[i as int]));
    }
    assert(ids@.take(ids@.len() as int) =~= ids@);
    r
}

/// Removing an id leaves no occurrence of it and keeps every other id, in
/// order.
pub proof fn law_remove_keeps_others(s: Seq<DownloadId>, id: DownloadId)
    ensures
        !without(s, id).contains(id),
        without(s, id).len() <= s.len(),
        !s.contains(id) ==> without(s, id) == s,
        forall|x: DownloadId| x != id ==> (without(s, id).contains(x) <==> s.contains(x)),
    decreases s.len(),
{
    if s.len() > 0 {
        let t = s.drop_last();
        law_remove_keeps_others(t, id);
        assert forall|x: DownloadId| x != id implies (without(s, id).contains(x) <==> s.contains(
            x,
        )) by {
            if s.contains(x) {
                let j = choose|j: int| 0 <= j < s.len() && s[j] == x;
                if j < s.len() - 1 {
                    assert(t[j] == x);
                    assert(t.contains(x));
                    assert(without(t, id).contains(x));
                    let k = choose|k: int| 0 <= k < without(t, id).len() && without(t, id)[k] == x;
                    if s.last() != id {
                        assert(without(s, id)[k] == x);
                    } else {
                        assert(without(s, id)[k] == x);
                    }
                } else {
                    assert(s.last() == x);
                    assert(without(s, id).last() == x);
                    assert(without(s, id)[without(s, id).len() - 1] == x);
                }
            }
            if without(s, id).contains(x) {
                if s.last() != id && without(s, id).last() == x {
                    assert(s[s.len() - 1] == x);
                } else {
                    let j = choose|j: int|
                        0 <= j < without(s, id).len() && without(s, id)[j] == x;
                    if s.last() != id {
                        if j < without(t, id).len() {
                            assert(without(t, id)[j] == x);
                        }
                    } else {
                        assert(without(t, id)[j] == x);
                    }
                    assert(t.contains(x));
                    let k = choose|k: int| 0 <= k < t.len() && t[k] == x;
                    assert(s[k] == x);
                }
            }
        }
        if !s.contains(id) {
            assert(!t.contains(id)) by {
                if t.contains(id) {
                    let k = choose|k: int| 0 <= k < t.len() && t[k] == id;
                    assert(s[k] == id);
                }
            }
            assert(s.last() != id) by {
                assert(s[s.len() - 1] == s.last());
            }
            assert(t.push(s.last()) =~= s);
        }
        if without(s, id).contains(id) {
            let j = choose|j: int| 0 <= j < without(s, id).len() && without(s, id)[j] == id;
            if s.last() != id && j == without(s, id).len() - 1 {
            } else {
                assert(without(t, id)[j] == id);
            }
        }
    }
}

/// The scheduler never starts more downloads than the room under the limit,
/// and starts them in queue order.
pub proof fn law_selection_respects_limit(queue: Seq<DownloadId>, active: nat, limit: nat)
    ensures
        active + selection(queue, active, limit).len() <= limit || selection(
            queue,
            active,
            limit,
        ).len() == 0,
        selection(queue, active, limit).len() <= queue.len(),
        forall|i: int|
            0 <= i < selection(queue, active, limit).len() ==> selection(queue, active, limit)[i]
                == queue[i],
{
}

} // verus!
