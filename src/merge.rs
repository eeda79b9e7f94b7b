use crate::event::{ts_sorted, Event};
use crate::rangefilter::into_reversed;
use vstd::prelude::*;

verus! {

/// Merges several timestamp-ordered event streams into one.
///
/// Each input hands over batches in order (`push_batch`) and finally ends
/// (`end_input`). `next_batch` moves events out, always the one with the
/// least timestamp among the inputs' heads, the lower input index first on
/// equal timestamps, and stops when the batch is full or when some input
/// that has not ended has nothing queued (its next batch could hold smaller
/// timestamps).
pub struct Merger {
    /// Queued events of each input, newest first: the head is the last element.
    pub queues: Vec<Vec<Event>>,
    /// The input has ended.
    pub ended: Vec<bool>,
    /// The input ended with its range complete.
    pub complete: Vec<bool>,
    /// Timestamp of the newest event received from each input.
    pub last_in: Vec<u64>,
    /// Timestamp of the latest emitted event.
    pub floor: u64,
    pub out_max_len: usize,
}

/// Timestamps never increase along `q`.
pub open spec fn rev_sorted(q: Seq<Event>) -> bool {
    forall|i: int, j: int| 0 <= i <= j < q.len() ==> q[j].ts <= q[i].ts
}

/// Sum of the queue lengths.
pub open spec fn total_len(qs: Seq<Vec<Event>>) -> nat
    decreases qs.len(),
{
    if qs.len() == 0 {
        0
    } else {
        total_len(qs.drop_last()) + qs.last()@.len()
    }
}

proof fn lemma_total_len_update(qs: Seq<Vec<Event>>, k: int, q: Vec<Event>)
    requires
        0 <= k < qs.len(),
    ensures
        total_len(qs.update(k, q)) + qs[k]@.len() == total_len(qs) + q@.len(),
    decreases qs.len(),
{
    if k < qs.len() - 1 {
        lemma_total_len_update(qs.drop_last(), k, q);
        assert(qs.update(k, q).drop_last() =~= qs.drop_last().update(k, q));
    } else {
        assert(qs.update(k, q).drop_last() =~= qs.drop_last());
    }
}

/// The queues' contents.
pub open spec fn qviews(qs: Seq<Vec<Event>>) -> Seq<Seq<Event>> {
    qs.map_values(|v: Vec<Event>| v@)
}

/// The input whose head goes out next, scanning inputs from `i` on with
/// `best` the choice so far: the least head timestamp, the lower index on
/// equal timestamps. `None` when an input that has not ended has nothing
/// queued, or when nothing is queued at all.
pub open spec fn pick_from(qs: Seq<Seq<Event>>, ended: Seq<bool>, i: int, best: Option<int>) -> Option<int>
    decreases qs.len() - i,
{
    if i >= qs.len() || i < 0 {
        best
    } else if qs[i].len() == 0 {
        if !ended[i] {
            None
        } else {
            pick_from(qs, ended, i + 1, best)
        }
    } else {
        match best {
            None => pick_from(qs, ended, i + 1, Some(i)),
            Some(j) => if qs[i].last().ts < qs[j].last().ts {
                pick_from(qs, ended, i + 1, Some(i))
            } else {
                pick_from(qs, ended, i + 1, best)
            },
        }
    }
}

/// Up to `room` heads moved out in merge order: the queues left, and the
/// events in the order they go out.
pub open spec fn merge_run(qs: Seq<Seq<Event>>, ended: Seq<bool>, room: nat) -> (Seq<Seq<Event>>, Seq<Event>)
    decreases room,
{
    if room == 0 {
        (qs, Seq::empty())
    } else {
        match pick_from(qs, ended, 0, None) {
            None => (qs, Seq::empty()),
            Some(j) => {
                let (rest, out) = merge_run(qs.update(j, qs[j].drop_last()), ended, (room - 1) as nat);
                (rest, seq![qs[j].last()] + out)
            },
        }
    }
}

impl Merger {
    pub open spec fn n(&self) -> nat {
        self.queues@.len()
    }

    pub open spec fn queue(&self, k: int) -> Seq<Event> {
        self.queues@[k]@
    }

    pub open spec fn floor_ts(&self) -> u64 {
        self.floor
    }

    pub open spec fn is_ended(&self, k: int) -> bool {
        self.ended@[k]
    }

    pub open spec fn newest_in(&self, k: int) -> u64 {
        self.last_in@[k]
    }

    pub open spec fn queued(&self) -> nat {
        total_len(self.queues@)
    }

    pub open spec fn max_len(&self) -> nat {
        self.out_max_len as nat
    }

    /// What holds of input `k`: its queue is in order, its head is at or after
    /// `floor`, and if it has not ended and has nothing queued, what it sends
    /// next cannot come before `floor`.
    pub open spec fn input_ok(&self, k: int) -> bool {
        &&& rev_sorted(self.queue(k))
        &&& self.queue(k).len() > 0 ==> self.queue(k).last().ts >= self.floor && self.queue(k)[0].ts
            <= self.last_in@[k]
        &&& !self.ended@[k] && self.queue(k).len() == 0 ==> self.last_in@[k] >= self.floor
    }

    /// The merger's invariant.
    pub open spec fn wf(&self) -> bool {
        &&& self.ended@.len() == self.n()
        &&& self.complete@.len() == self.n()
        &&& self.last_in@.len() == self.n()
        &&& self.out_max_len > 0
        &&& forall|k: int| 0 <= k < self.n() ==> #[trigger] self.input_ok(k)
    }

    /// Input `k` has ended with its range complete and nothing is queued.
    pub open spec fn input_done(&self, k: int) -> bool {
        self.ended@[k] && self.complete@[k] && self.queue(k).len() == 0
    }

    /// Input `k` has not ended and has nothing queued.
    pub open spec fn input_waits(&self, k: int) -> bool {
        !self.ended@[k] && self.queue(k).len() == 0
    }

    /// Some input that has not ended has nothing queued.
    pub open spec fn blocked(&self) -> bool {
        exists|k: int| 0 <= k < self.n() && #[trigger] self.input_waits(k)
    }

    /// A merger over `n` inputs that emits batches of at most `out_max_len` events.
    pub fn new(n: usize, out_max_len: usize) -> (r: Merger)
        requires
            out_max_len > 0,
        ensures
            r.wf(),
            r.n() == n,
            r.floor_ts() == 0,
            r.queued() == 0,
            forall|k: int| 0 <= k < n ==> !r.is_ended(k) && r.newest_in(k) == 0,
    {
        let mut queues: Vec<Vec<Event>> = Vec::new();
        let mut ended: Vec<bool> = Vec::new();
        let mut complete: Vec<bool> = Vec::new();
        let mut last_in: Vec<u64> = Vec::new();
        let mut i: usize = 0;
        while i < n
            invariant
                i <= n,
                queues@.len() == i,
                ended@.len() == i,
                complete@.len() == i,
                last_in@.len() == i,
                forall|k: int| 0 <= k < i ==> (#[trigger] queues@[k])@.len() == 0,
                forall|k: int| 0 <= k < i ==> !(#[trigger] ended@[k]) && last_in@[k] == 0,
                total_len(queues@) == 0,
            decreases n - i,
        {
            let ghost before = queues@;
            queues.push(Vec::new());
            assert(queues@.drop_last() =~= before);
            ended.push(false);
            complete.push(false);
            last_in.push(0);
            i = i + 1;
        }
        Merger { queues, ended, complete, last_in, floor: 0, out_max_len }
    }

    /// Number of inputs.
    pub fn inputs(&self) -> (r: usize)
        ensures
            r == self.n(),
    {
        self.queues.len()
    }

    /// The input has ended or still has events queued: it need not be polled.
    pub fn wants_input(&self, k: usize) -> (r: bool)
        requires
            self.wf(),
            k < self.n(),
        ensures
            r == (!self.is_ended(k as int) && self.queue(k as int).len() == 0),
    {
        !self.ended[k] && self.queues[k].len() == 0
    }

    /// Queues a batch from input `k`. The batch must be in timestamp order and
    /// must not start before the newest event the input sent earlier.
    pub fn push_batch(&mut self, k: usize, batch: Vec<Event>)
        requires
            old(self).wf(),
            k < old(self).n(),
            !old(self).is_ended(k as int),
            ts_sorted(batch@),
            batch@.len() > 0 ==> batch@[0].ts >= old(self).newest_in(k as int),
        ensures
            final(self).wf(),
            final(self).n() == old(self).n(),
            final(self).floor_ts() == old(self).floor_ts(),
            final(self).queued() == old(self).queued() + batch@.len(),
            final(self).queue(k as int) == batch@.reverse() + old(self).queue(k as int),
            forall|j: int| 0 <= j < old(self).n() && j != k ==> final(self).queue(j) == old(self).queue(j),
            final(self).ended@ == old(self).ended@,
            final(self).complete@ == old(self).complete@,
            final(self).out_max_len == old(self).out_max_len,
            final(self).last_in@ == (if batch@.len() > 0 {
                old(self).last_in@.update(k as int, batch@.last().ts)
            } else {
                old(self).last_in@
            }),
    {
        let blen = batch.len();
        if blen == 0 {
            assert(batch@.reverse() + self.queue(k as int) =~= self.queue(k as int));
            return;
        }
        let newest = batch[blen - 1].ts;
        let mut q = into_reversed(batch);
        let mut old_q: Vec<Event> = Vec::new();
        std::mem::swap(&mut self.queues[k], &mut old_q);
        let ghost oq = old_q@;
        let ghost rq = q@;
        q.append(&mut old_q);
        proof {
            assert(q@ == rq + oq);
            lemma_total_len_update(old(self).queues@, k as int, q);
            assert(self.queues@.update(k as int, q) =~= old(self).queues@.update(k as int, q));
        }
        std::mem::swap(&mut self.queues[k], &mut q);
        self.last_in.set(k, newest);
        proof {
            let nq = self.queue(k as int);
            assert(nq == rq + oq);
            assert(old(self).input_ok(k as int));
            assert forall|i: int, j: int| 0 <= i <= j < nq.len() implies nq[j].ts <= nq[i].ts by {
                if j < rq.len() {
                    assert(nq[i] == batch@[batch@.len() - 1 - i]);
                    assert(nq[j] == batch@[batch@.len() - 1 - j]);
                } else if i >= rq.len() {
                    assert(nq[i] == oq[i - rq.len()]);
                    assert(nq[j] == oq[j - rq.len()]);
                } else {
                    assert(nq[i] == batch@[batch@.len() - 1 - i]);
                    assert(batch@[0].ts <= nq[i].ts);
                    assert(nq[j] == oq[j - rq.len()]);
                    assert(oq[j - rq.len()].ts <= oq[0].ts);
                }
            }
            assert(nq[0] == batch@[batch@.len() - 1]);
            if oq.len() > 0 {
                assert(nq.last() == oq.last());
            } else {
                assert(nq.last() == batch@[0]);
            }
            assert forall|j: int| 0 <= j < self.n() implies #[trigger] self.input_ok(j) by {
                if j != k {
                    assert(old(self).input_ok(j));
                    assert(old(self).queue(j) == self.queue(j));
                }
            }
        }
    }

    /// Input `k` has ended; `range_complete` tells whether it reported its
    /// range complete.
    pub fn end_input(&mut self, k: usize, range_complete: bool)
        requires
            old(self).wf(),
            k < old(self).n(),
        ensures
            final(self).wf(),
            final(self).n() == old(self).n(),
            final(self).floor_ts() == old(self).floor_ts(),
            final(self).queued() == old(self).queued(),
            forall|j: int| 0 <= j < old(self).n() ==> final(self).queue(j) == old(self).queue(j),
            final(self).ended@ == old(self).ended@.update(k as int, true),
            final(self).complete@ == old(self).complete@.update(k as int, range_complete),
            final(self).last_in@ == old(self).last_in@,
            final(self).out_max_len == old(self).out_max_len,
    {
        self.ended.set(k, true);
        self.complete.set(k, range_complete);
        proof {
            assert forall|j: int| 0 <= j < self.n() implies #[trigger] self.input_ok(j) by {
                assert(old(self).input_ok(j));
                assert(old(self).queue(j) == self.queue(j));
            }
        }
    }

    /// All inputs ended with their range complete, and nothing is queued.
    pub fn range_complete(&self) -> (r: bool)
        requires
            self.wf(),
        ensures
            r == (forall|k: int| 0 <= k < self.n() ==> #[trigger] self.input_done(k)),
    {
        let n = self.queues.len();
        let mut i: usize = 0;
        while i < n
            invariant
                i <= n,
                n == self.n(),
                self.wf(),
                forall|k: int| 0 <= k < i ==> #[trigger] self.input_done(k),
            decreases n - i,
        {
            if !self.ended[i] || !self.complete[i] || self.queues[i].len() > 0 {
                assert(!self.input_done(i as int));
                return false;
            }
            assert(self.input_done(i as int));
            i = i + 1;
        }
        true
    }

    /// The input whose head comes first: least timestamp, then least index.
    /// `None` when nothing is queued or when some input that has not ended
    /// has nothing queued.
    fn pick(&self) -> (r: Option<usize>)
        requires
            self.wf(),
        ensures
            r is None ==> pick_from(qviews(self.queues@), self.ended@, 0, None) is None,
            r matches Some(j) ==> pick_from(qviews(self.queues@), self.ended@, 0, None) == Some(j as int),
            r is None ==> self.blocked() || forall|k: int|
                0 <= k < self.n() ==> #[trigger] self.queue(k).len() == 0,
            r matches Some(j) ==> {
                &&& j < self.n()
                &&& !self.blocked()
                &&& self.queue(j as int).len() > 0
                &&& forall|k: int|
                    0 <= k < self.n() && #[trigger] self.queue(k).len() > 0 ==> self.queue(
                        j as int,
                    ).last().ts <= self.queue(k).last().ts
                &&& forall|k: int|
                    0 <= k < j && #[trigger] self.queue(k).len() > 0 ==> self.queue(
                        j as int,
                    ).last().ts < self.queue(k).last().ts
            },
    {
        let n = self.queues.len();
        let mut best: Option<usize> = None;
        let mut i: usize = 0;
        let ghost vs = qviews(self.queues@);
        assert(vs.len() == n);
        while i < n
            invariant
                i <= n,
                n == self.n(),
                self.wf(),
                forall|k: int| 0 <= k < i ==> (self.ended@[k] || #[trigger] self.queue(k).len() > 0),
                best is None ==> forall|k: int| 0 <= k < i ==> #[trigger] self.queue(k).len() == 0,
                vs == qviews(self.queues@),
                vs.len() == n,
                pick_from(qviews(self.queues@), self.ended@, 0, None) == pick_from(
                    qviews(self.queues@),
                    self.ended@,
                    i as int,
                    match best {
                        Some(j) => Some(j as int),
                        None => None,
                    },
                ),
                best matches Some(j) ==> {
                    &&& j < i
                    &&& self.queue(j as int).len() > 0
                    &&& forall|k: int|
                        0 <= k < i && #[trigger] self.queue(k).len() > 0 ==> self.queue(
                            j as int,
                        ).last().ts <= self.queue(k).last().ts
                    &&& forall|k: int|
                        0 <= k < j && #[trigger] self.queue(k).len() > 0 ==> self.queue(
                            j as int,
                        ).last().ts < self.queue(k).last().ts
                },
            decreases n - i,
        {
            let ql = self.queues[i].len();
            assert(vs[i as int] == self.queue(i as int));
            if ql == 0 {
                if !self.ended[i] {
                    assert(self.input_waits(i as int));
                    return None;
                }
                assert(self.queue(i as int).len() == 0);
            } else {
                assert(self.queue(i as int).len() > 0);
                let ts = self.queues[i][ql - 1].ts;
                match best {
                    None => {
                        best = Some(i);
                    },
                    Some(j) => {
                        let bl = self.queues[j].len();
                        assert(vs[j as int] == self.queue(j as int));
                        if ts < self.queues[j][bl - 1].ts {
                            best = Some(i);
                        }
                    },
                }
            }
            i = i + 1;
        }
        best
    }

    /// Moves up to `out_max_len` events out, in merge order.
    pub fn next_batch(&mut self) -> (out: Vec<Event>)
        requires
            old(self).wf(),
        ensures
            final(self).wf(),
            final(self).n() == old(self).n(),
            ts_sorted(out@),
            forall|i: int| 0 <= i < out@.len() ==> #[trigger] out@[i].ts >= old(self).floor_ts(),
            out@.len() > 0 ==> final(self).floor_ts() == out@.last().ts,
            out@.len() == 0 ==> final(self).floor_ts() == old(self).floor_ts(),
            out@.len() <= old(self).max_len(),
            final(self).queued() + out@.len() == old(self).queued(),
            out@.len() < old(self).max_len() ==> final(self).blocked() || final(self).queued() == 0,
            forall|j: int| 0 <= j < old(self).n() ==> final(self).is_ended(j) == old(self).is_ended(j),
            forall|j: int| 0 <= j < old(self).n() ==> final(self).newest_in(j) == old(self).newest_in(j),
            final(self).ended@ == old(self).ended@,
            final(self).complete@ == old(self).complete@,
            final(self).last_in@ == old(self).last_in@,
            final(self).out_max_len == old(self).out_max_len,
            merge_run(qviews(old(self).queues@), old(self).ended@, old(self).max_len()) == (
                qviews(final(self).queues@),
                out@,
            ),
    {
        let mut out: Vec<Event> = Vec::new();
        let ghost floor0 = self.floor;
        while out.len() < self.out_max_len
            invariant
                self.wf(),
                self.n() == old(self).n(),
                self.out_max_len == old(self).out_max_len,
                self.ended@ == old(self).ended@,
                self.complete@ == old(self).complete@,
                self.last_in@ == old(self).last_in@,
                floor0 == old(self).floor,
                merge_run(qviews(old(self).queues@), old(self).ended@, old(self).max_len()) == ({
                    let (rq, ro) = merge_run(
                        qviews(self.queues@),
                        self.ended@,
                        (self.out_max_len - out@.len()) as nat,
                    );
                    (rq, out@ + ro)
                }),
                ts_sorted(out@),
                forall|i: int| 0 <= i < out@.len() ==> #[trigger] out@[i].ts >= floor0,
                out@.len() > 0 ==> self.floor == out@.last().ts,
                out@.len() == 0 ==> self.floor == floor0,
                out@.len() <= self.out_max_len,
                self.queued() + out@.len() == old(self).queued(),
            decreases self.queued(),
        {
            match self.pick() {
                None => {
                    proof {
                        assert(out@ + Seq::<Event>::empty() =~= out@);
                        if !self.blocked() {
                            assert forall|k: int| 0 <= k < self.queues@.len() implies (
                            #[trigger] self.queues@[k])@.len() == 0 by {
                                assert(self.queue(k).len() == 0);
                            }
                            lemma_total_len_zero(self.queues@);
                        }
                    }
                    return out;
                },
                Some(j) => {
                    let ghost before = *self;
                    let ghost q_before = self.queue(j as int);
                    let mut q: Vec<Event> = Vec::new();
                    std::mem::swap(&mut self.queues[j], &mut q);
                    let e = q.pop().unwrap();
                    proof {
                        assert(q_before =~= q@.push(e));
                        lemma_total_len_update(before.queues@, j as int, q);
                    }
                    let ghost popped_q = q;
                    std::mem::swap(&mut self.queues[j], &mut q);
                    self.floor = e.ts;
                    proof {
                        assert(self.queues@ =~= before.queues@.update(j as int, popped_q));
                        assert(qviews(self.queues@) =~= qviews(before.queues@).update(
                            j as int,
                            qviews(before.queues@)[j as int].drop_last(),
                        ));
                        let nq = self.queue(j as int);
                        assert(nq == q_before.drop_last());
                        assert(before.input_ok(j as int));
                        assert(e == q_before.last());
                        assert forall|k: int| 0 <= k < self.n() implies #[trigger] self.input_ok(k)
                            && (self.queue(k).len() > 0 ==> self.queue(k).last().ts >= e.ts) by {
                            assert(before.input_ok(k));
                            if k == j {
                                assert forall|a: int, b: int| 0 <= a <= b < nq.len() implies nq[b].ts
                                    <= nq[a].ts by {
                                    assert(nq[a] == q_before[a]);
                                    assert(nq[b] == q_before[b]);
                                }
                                if nq.len() > 0 {
                                    assert(nq.last() == q_before[nq.len() - 1]);
                                    assert(nq[0] == q_before[0]);
                                } else {
                                    assert(q_before[0] == e);
                                }
                            } else {
                                assert(before.queue(k) == self.queue(k));
                                if self.queue(k).len() == 0 {
                                    assert(!before.input_waits(k));
                                } else {
                                    assert(before.queue(k).len() > 0);
                                }
                            }
                        }
                    }
                    let ghost out_before = out@;
                    out.push(e);
                    proof {
                        assert(out@ == out_before.push(e));
                        let (rq, ro) = merge_run(
                            qviews(self.queues@),
                            self.ended@,
                            (self.out_max_len - out@.len()) as nat,
                        );
                        assert(out_before + (seq![e] + ro) =~= out@ + ro);
                        if out_before.len() > 0 {
                            assert(out_before.last().ts == before.floor);
                        }
                        assert forall|a: int, b: int| 0 <= a <= b < out@.len() implies out@[a].ts
                            <= out@[b].ts by {
                            if b == out@.len() - 1 && a < b {
                                assert(out_before[a].ts <= out_before[out_before.len() - 1].ts);
                            } else if b < out@.len() - 1 {
                                assert(out_before[a].ts <= out_before[b].ts);
                            }
                        }
                        assert forall|i: int| 0 <= i < out@.len() implies #[trigger] out@[i].ts >= floor0 by {
                            if i < out_before.len() {
                                assert(out_before[i].ts >= floor0);
                            } else if out_before.len() > 0 {
                                assert(out_before[0].ts >= floor0);
                                assert(out_before[0].ts <= out_before[out_before.len() - 1].ts);
                            }
                        }
                    }
                },
            }
        }
        out
    }
}

proof fn lemma_total_len_zero(qs: Seq<Vec<Event>>)
    requires
        forall|k: int| 0 <= k < qs.len() ==> (#[trigger] qs[k])@.len() == 0,
    ensures
        total_len(qs) == 0,
    decreases qs.len(),
{
    if qs.len() > 0 {
        lemma_total_len_zero(qs.drop_last());
    }
}

/// The emitted batches of a merger, each with the floor before and after it.
/// `floors_before[k]` is at least `floors_after[k - 1]`: the floor only changes
/// through `next_batch`.
pub open spec fn merger_trace(
    outs: Seq<Seq<Event>>,
    floors_before: Seq<u64>,
    floors_after: Seq<u64>,
) -> bool {
    &&& outs.len() == floors_before.len() && outs.len() == floors_after.len()
    &&& forall|k: int|
        0 <= k < outs.len() ==> {
            &&& ts_sorted(#[trigger] outs[k])
            &&& forall|i: int| 0 <= i < outs[k].len() ==> outs[k][i].ts >= floors_before[k]
            &&& outs[k].len() > 0 ==> floors_after[k] == outs[k].last().ts
            &&& outs[k].len() == 0 ==> floors_after[k] == floors_before[k]
        }
    &&& forall|k: int| 0 < k < outs.len() ==> floors_after[k - 1] <= #[trigger] floors_before[k]
}

proof fn lemma_floor_monotone(
    outs: Seq<Seq<Event>>,
    floors_before: Seq<u64>,
    floors_after: Seq<u64>,
    k: int,
    l: int,
)
    requires
        merger_trace(outs, floors_before, floors_after),
        0 <= k < l < outs.len(),
    ensures
        floors_after[k] <= floors_before[l],
    decreases l - k,
{
    assert(floors_after[l - 1] <= floors_before[l]);
    if k < l - 1 {
        lemma_floor_monotone(outs, floors_before, floors_after, k, l - 1);
        let o = outs[l - 1];
        assert(ts_sorted(o));
        if o.len() > 0 {
            assert(o[0].ts >= floors_before[l - 1]);
        }
    }
}

/// Batches that a merger emits one after another are each in timestamp order,
/// and no event of a later batch comes before an event of an earlier one.
pub proof fn lemma_merged_batches_sorted(
    outs: Seq<Seq<Event>>,
    floors_before: Seq<u64>,
    floors_after: Seq<u64>,
)
    requires
        merger_trace(outs, floors_before, floors_after),
    ensures
        crate::event::batches_sorted(outs),
{
    assert forall|k: int, l: int, i: int, j: int|
        #![trigger outs[k][i], outs[l][j]]
        0 <= k < l < outs.len() && 0 <= i < outs[k].len() && 0 <= j < outs[l].len() implies outs[k][i].ts
        <= outs[l][j].ts by {
        lemma_floor_monotone(outs, floors_before, floors_after, k, l);
        assert(ts_sorted(outs[k]));
        assert(outs[k][i].ts <= outs[k].last().ts);
        assert(outs[l][j].ts >= floors_before[l]);
    }
    assert forall|k: int| 0 <= k < outs.len() implies ts_sorted(#[trigger] outs[k]) by {}
}

} // verus!
