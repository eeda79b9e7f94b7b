use crate::event::Event;
use vstd::prelude::*;

verus! {

/// Restricts a stream of events to the half-open range `[beg, end)`.
///
/// With `expand`, the last event before `beg` is kept back and emitted ahead
/// of the first later event, and the first event at or after `end` is emitted
/// too; after that the filter is complete and drops everything.
pub struct RangeFilter {
    pub beg: u64,
    pub end: u64,
    pub expand: bool,
    /// With `expand`, the first event at or after `end` is emitted too. A
    /// time-weighted query keeps only the event before `beg`, which seeds the
    /// step-interpolated signal, and leaves this off.
    pub post: bool,
    /// The latest event before `beg` seen so far, held back.
    pub pre: Option<Event>,
    /// An event at or after `beg` has been seen: nothing before `beg` is
    /// emitted any more.
    pub pre_done: bool,
    /// An event at or after `end` has been seen: the range is complete.
    pub done: bool,
}

/// The events that the held-back event contributes, if any.
pub open spec fn held(pre: Option<Event>) -> Seq<Event> {
    match pre {
        Some(e) => seq![e],
        None => Seq::empty(),
    }
}

/// One event through the filter: the new state and what is emitted.
pub open spec fn step(f: RangeFilter, e: Event) -> (RangeFilter, Seq<Event>) {
    if f.done {
        (f, Seq::empty())
    } else if e.ts < f.beg {
        if f.expand && !f.pre_done {
            (RangeFilter { pre: Some(e), ..f }, Seq::empty())
        } else {
            (f, Seq::empty())
        }
    } else if e.ts < f.end {
        (RangeFilter { pre: None, pre_done: true, ..f }, held(f.pre).push(e))
    } else {
        let out = if f.expand && f.post {
            held(f.pre).push(e)
        } else {
            held(f.pre)
        };
        (RangeFilter { pre: None, pre_done: true, done: true, ..f }, out)
    }
}

/// A sequence of events through the filter, in order.
pub open spec fn run(f: RangeFilter, evs: Seq<Event>) -> (RangeFilter, Seq<Event>)
    decreases evs.len(),
{
    if evs.len() == 0 {
        (f, Seq::empty())
    } else {
        let (f1, o1) = step(f, evs[0]);
        let (f2, o2) = run(f1, evs.drop_first());
        (f2, o1 + o2)
    }
}

/// What the filter emits when its input ends: a held-back event that no
/// later event has released.
pub open spec fn finish_spec(f: RangeFilter) -> (RangeFilter, Seq<Event>) {
    if f.done {
        (f, Seq::empty())
    } else {
        (RangeFilter { pre: None, pre_done: true, ..f }, held(f.pre))
    }
}

/// How many events of `s` lie before `beg`.
pub open spec fn count_before(s: Seq<Event>, beg: u64) -> nat
    decreases s.len(),
{
    if s.len() == 0 {
        0
    } else {
        (if s[0].ts < beg {
            1nat
        } else {
            0nat
        }) + count_before(s.drop_first(), beg)
    }
}

/// How many events of `s` lie at or after `end`.
pub open spec fn count_from(s: Seq<Event>, end: u64) -> nat
    decreases s.len(),
{
    if s.len() == 0 {
        0
    } else {
        (if s[0].ts >= end {
            1nat
        } else {
            0nat
        }) + count_from(s.drop_first(), end)
    }
}

/// Every event of `s` lies in `[beg, end)`.
pub open spec fn all_in_range(s: Seq<Event>, beg: u64, end: u64) -> bool {
    forall|i: int| 0 <= i < s.len() ==> beg <= #[trigger] s[i].ts < end
}

pub proof fn lemma_counts_add(a: Seq<Event>, b: Seq<Event>, beg: u64, end: u64)
    ensures
        count_before(a + b, beg) == count_before(a, beg) + count_before(b, beg),
        count_from(a + b, end) == count_from(a, end) + count_from(b, end),
    decreases a.len(),
{
    if a.len() > 0 {
        lemma_counts_add(a.drop_first(), b, beg, end);
        assert((a + b).drop_first() =~= a.drop_first() + b);
    }
}

/// What holds of a filter and of all it has emitted so far.
pub open spec fn filter_inv(f: RangeFilter, out: Seq<Event>) -> bool {
    &&& f.pre is Some ==> f.expand && f.pre->Some_0.ts < f.beg && !f.pre_done && !f.done
    &&& f.done ==> f.pre_done
    &&& !f.expand ==> all_in_range(out, f.beg, f.end)
    &&& !(f.expand && f.post) ==> count_from(out, f.end) == 0
    &&& count_before(out, f.beg) <= (if f.pre_done {
        1nat
    } else {
        0nat
    })
    &&& count_from(out, f.end) <= (if f.done {
        1nat
    } else {
        0nat
    })
}

proof fn lemma_held_counts(f: RangeFilter)
    requires
        f.pre is Some ==> f.pre->Some_0.ts < f.beg,
    ensures
        count_before(held(f.pre), f.beg) <= 1,
        count_from(held(f.pre), f.end) == 0 || f.end <= f.beg,
        f.pre is None ==> count_before(held(f.pre), f.beg) == 0 && count_from(held(f.pre), f.end)
            == 0,
{
    reveal_with_fuel(count_before, 2);
    reveal_with_fuel(count_from, 2);
}

proof fn lemma_single_counts(e: Event, beg: u64, end: u64)
    ensures
        count_before(seq![e], beg) == (if e.ts < beg {
            1nat
        } else {
            0nat
        }),
        count_from(seq![e], end) == (if e.ts >= end {
            1nat
        } else {
            0nat
        }),
{
    reveal_with_fuel(count_before, 2);
    reveal_with_fuel(count_from, 2);
}

/// The filter's invariant survives one more event.
proof fn lemma_step_inv(f: RangeFilter, out: Seq<Event>, e: Event)
    requires
        filter_inv(f, out),
        f.beg <= f.end,
    ensures
        ({
            let (f1, o1) = step(f, e);
            &&& filter_inv(f1, out + o1)
            &&& f1.beg == f.beg && f1.end == f.end && f1.expand == f.expand && f1.post == f.post
        }),
{
    let (f1, o1) = step(f, e);
    lemma_counts_add(out, o1, f.beg, f.end);
    lemma_held_counts(f);
    if !f.done && e.ts >= f.beg {
        let h = held(f.pre);
        lemma_counts_add(h, seq![e], f.beg, f.end);
        lemma_single_counts(e, f.beg, f.end);
        assert(h.push(e) =~= h + seq![e]);
        if f.pre is Some {
            assert(count_from(h, f.end) == 0) by {
                reveal_with_fuel(count_from, 2);
            }
        }
    }
    if !f.expand {
        assert(f.pre is None);
        if !f.done && f.beg <= e.ts < f.end {
            assert(o1 =~= seq![e]);
        } else {
            assert(o1 =~= Seq::<Event>::empty());
        }
        assert(out + o1 =~= out || (out + o1) =~= out.push(e));
    }
}

/// The invariant survives a whole run.
proof fn lemma_run_inv(f: RangeFilter, out: Seq<Event>, evs: Seq<Event>)
    requires
        filter_inv(f, out),
        f.beg <= f.end,
    ensures
        ({
            let (f2, o2) = run(f, evs);
            &&& filter_inv(f2, out + o2)
            &&& f2.beg == f.beg && f2.end == f.end && f2.expand == f.expand && f2.post == f.post
        }),
    decreases evs.len(),
{
    if evs.len() > 0 {
        let (f1, o1) = step(f, evs[0]);
        lemma_step_inv(f, out, evs[0]);
        lemma_run_inv(f1, out + o1, evs.drop_first());
        let (f2, o2) = run(f1, evs.drop_first());
        assert(out + o1 + o2 =~= out + (o1 + o2));
    }
}

/// A fresh filter over `[beg, end)`.
pub open spec fn fresh(beg: u64, end: u64, expand: bool) -> RangeFilter {
    RangeFilter { beg, end, expand, post: expand, pre: None, pre_done: false, done: false }
}

/// A fresh filter over `[beg, end)` for a time-weighted query: it keeps the
/// last event before `beg` and nothing at or after `end`.
pub open spec fn fresh_time_weighted(beg: u64, end: u64) -> RangeFilter {
    RangeFilter { beg, end, expand: true, post: false, pre: None, pre_done: false, done: false }
}

/// Whatever events come in, a time-weighted filter emits at most one event
/// before `beg` and none at or after `end`, in the run and in the flush.
pub proof fn lemma_time_weighted_filter(beg: u64, end: u64, evs: Seq<Event>)
    requires
        beg <= end,
    ensures
        ({
            let (f, o) = run(fresh_time_weighted(beg, end), evs);
            let (_, tail) = finish_spec(f);
            let out = o + tail;
            &&& count_before(out, beg) <= 1
            &&& count_from(out, end) == 0
        }),
{
    let f0 = fresh_time_weighted(beg, end);
    assert(filter_inv(f0, Seq::empty())) by {
        reveal_with_fuel(count_before, 1);
        reveal_with_fuel(count_from, 1);
    }
    lemma_run_inv(f0, Seq::empty(), evs);
    let (f, o) = run(f0, evs);
    assert(Seq::<Event>::empty() + o =~= o);
    let (_, tail) = finish_spec(f);
    lemma_counts_add(o, tail, beg, end);
    lemma_held_counts(f);
    if !f.done && f.pre is Some {
        reveal_with_fuel(count_from, 2);
    }
}

/// Whatever events come in: without `expand` every emitted event lies in
/// `[beg, end)`; with it, at most one emitted event lies before `beg` and at
/// most one at or after `end`. This holds of the run and of the flush at its end.
pub proof fn lemma_range_filter_correct(beg: u64, end: u64, expand: bool, evs: Seq<Event>)
    requires
        beg <= end,
    ensures
        ({
            let (f, o) = run(fresh(beg, end, expand), evs);
            let (_, tail) = finish_spec(f);
            let out = o + tail;
            &&& !expand ==> all_in_range(out, beg, end)
            &&& count_before(out, beg) <= 1
            &&& count_from(out, end) <= 1
        }),
{
    let f0 = fresh(beg, end, expand);
    assert(filter_inv(f0, Seq::empty())) by {
        reveal_with_fuel(count_before, 1);
        reveal_with_fuel(count_from, 1);
    }
    lemma_run_inv(f0, Seq::empty(), evs);
    let (f, o) = run(f0, evs);
    assert(Seq::<Event>::empty() + o =~= o);
    let (_, tail) = finish_spec(f);
    lemma_counts_add(o, tail, beg, end);
    lemma_held_counts(f);
    if !f.done && f.pre is Some {
        reveal_with_fuel(count_from, 2);
    }
    if !expand {
        assert(tail =~= Seq::<Event>::empty());
        assert(o + tail =~= o);
    }
}

/// Feeding two batches one after the other is one run over both: so what
/// holds of a run holds of the whole stream, however it is cut into batches.
pub proof fn lemma_run_append(f: RangeFilter, a: Seq<Event>, b: Seq<Event>)
    ensures
        ({
            let (f1, o1) = run(f, a);
            let (f2, o2) = run(f1, b);
            run(f, a + b) == (f2, o1 + o2)
        }),
    decreases a.len(),
{
    if a.len() == 0 {
        assert(a + b =~= b);
        let (f2, o2) = run(f, b);
        assert(Seq::<Event>::empty() + o2 =~= o2);
    } else {
        let (g, og) = step(f, a[0]);
        lemma_run_append(g, a.drop_first(), b);
        assert((a + b).drop_first() =~= a.drop_first() + b);
        assert((a + b)[0] == a[0]);
        let (f1, o1) = run(g, a.drop_first());
        let (f2, o2) = run(f1, b);
        assert(og + (o1 + o2) =~= (og + o1) + o2);
    }
}

/// The events of `v` in reverse order.
pub fn into_reversed(v: Vec<Event>) -> (r: Vec<Event>)
    ensures
        r@ == v@.reverse(),
{
    let mut v = v;
    let mut r: Vec<Event> = Vec::new();
    let ghost orig = v@;
    while v.len() > 0
        invariant
            orig.reverse() == r@ + v@.reverse(),
        decreases v@.len(),
    {
        let ghost before = v@;
        let e = v.pop().unwrap();
        proof {
            assert(before =~= v@.push(e));
            assert(before.reverse() =~= seq![e] + v@.reverse());
        }
        r.push(e);
        assert(orig.reverse() =~= r@ + v@.reverse());
    }
    assert(v@.reverse() =~= Seq::<Event>::empty());
    assert(r@ =~= r@ + v@.reverse());
    r
}

impl RangeFilter {
    /// A filter over `[beg, end)` that has seen nothing yet.
    pub fn new(beg: u64, end: u64, expand: bool) -> (r: RangeFilter)
        ensures
            r == fresh(beg, end, expand),
    {
        RangeFilter { beg, end, expand, post: expand, pre: None, pre_done: false, done: false }
    }

    /// A filter over `[beg, end)` for a time-weighted query, which has seen
    /// nothing yet.
    pub fn new_time_weighted(beg: u64, end: u64) -> (r: RangeFilter)
        ensures
            r == fresh_time_weighted(beg, end),
    {
        RangeFilter { beg, end, expand: true, post: false, pre: None, pre_done: false, done: false }
    }

    /// The filter has seen an event at or after `end`: nothing more can come.
    pub fn is_range_complete(&self) -> (r: bool)
        ensures
            r == self.done,
    {
        self.done
    }

    /// Passes one batch through the filter and returns what it emits.
    pub fn push(&mut self, batch: Vec<Event>) -> (out: Vec<Event>)
        ensures
            (*final(self), out@) == run(*old(self), batch@),
    {
        let ghost start = *self;
        let ghost all = batch@;
        let mut rev = into_reversed(batch);
        let mut out: Vec<Event> = Vec::new();
        proof {
            assert(rev@.reverse() =~= all);
        }
        while rev.len() > 0
            invariant
                run(start, all) == ({
                    let (f2, o2) = run(*self, rev@.reverse());
                    (f2, out@ + o2)
                }),
            decreases rev@.len(),
        {
            let ghost before = rev@;
            let e = rev.pop().unwrap();
            proof {
                assert(before =~= rev@.push(e));
                assert(before.reverse() =~= seq![e] + rev@.reverse());
                assert(before.reverse().drop_first() =~= rev@.reverse());
            }
            let ghost f_before = *self;
            let ghost out_before = out@;
            let emitted = self.step_one(e);
            proof {
                let (fa, oa) = run(*self, rev@.reverse());
                assert(out_before + (emitted@ + oa) =~= out_before + emitted@ + oa);
            }
            let mut emitted = emitted;
            out.append(&mut emitted);
        }
        proof {
            assert(rev@.reverse() =~= Seq::<Event>::empty());
            assert(out@ + Seq::<Event>::empty() =~= out@);
        }
        out
    }

    fn step_one(&mut self, e: Event) -> (out: Vec<Event>)
        ensures
            (*final(self), out@) == step(*old(self), e),
    {
        let mut out: Vec<Event> = Vec::new();
        if self.done {
            return out;
        }
        if e.ts < self.beg {
            if self.expand && !self.pre_done {
                self.pre = Some(e);
            }
            return out;
        }
        let keep = e.ts < self.end || (self.expand && self.post);
        if e.ts >= self.end {
            self.done = true;
        }
        let pre = self.pre.take();
        match pre {
            Some(p) => out.push(p),
            None => {},
        }
        self.pre_done = true;
        if keep {
            out.push(e);
        }
        proof {
            assert(out@ =~= step(*old(self), e).1);
        }
        out
    }

    /// Ends the input: a held-back event that nothing released is emitted.
    pub fn finish(&mut self) -> (out: Vec<Event>)
        ensures
            (*final(self), out@) == finish_spec(*old(self)),
    {
        let mut out: Vec<Event> = Vec::new();
        if self.done {
            return out;
        }
        let pre = self.pre.take();
        match pre {
            Some(p) => out.push(p),
            None => {},
        }
        self.pre_done = true;
        proof {
            assert(out@ =~= finish_spec(*old(self)).1);
        }
        out
    }
}

} // verus!
