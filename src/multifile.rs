use crate::event::Event;
use crate::netpod::NanoRange;
use crate::rangefilter::into_reversed;
use vstd::prelude::*;

verus! {

/// The decisions that the multi-file chunker takes on each batch of the
/// joined stream of its file sets.
pub struct MultifileGuard {
    pub range: NanoRange,
    pub expand: bool,
    /// Greatest timestamp of the batches let through so far.
    pub max_ts: u64,
    /// Some non-empty batch has been let through.
    pub seen: bool,
    /// A batch reached the end of the range: the remaining file sets are closed.
    pub range_final: bool,
}

/// What the guard did with one batch.
pub struct BatchOutcome {
    /// The events to pass on.
    pub events: Vec<Event>,
    /// The batch started before the greatest timestamp so far and was
    /// dropped; a warning is due.
    pub unordered: bool,
}

/// Least timestamp of a non-empty sequence.
pub open spec fn min_ts(s: Seq<Event>) -> u64
    decreases s.len(),
{
    if s.len() <= 1 {
        s[0].ts
    } else {
        let m = min_ts(s.drop_last());
        if s.last().ts < m {
            s.last().ts
        } else {
            m
        }
    }
}

/// Greatest timestamp of a non-empty sequence.
pub open spec fn max_ts(s: Seq<Event>) -> u64
    decreases s.len(),
{
    if s.len() <= 1 {
        s[0].ts
    } else {
        let m = max_ts(s.drop_last());
        if s.last().ts > m {
            s.last().ts
        } else {
            m
        }
    }
}

/// The events before `end`; with `expand`, also the first event at or after it.
pub open spec fn truncate_spec(s: Seq<Event>, end: u64, expand: bool) -> Seq<Event>
    decreases s.len(),
{
    if s.len() == 0 {
        Seq::empty()
    } else if s[0].ts < end {
        seq![s[0]] + truncate_spec(s.drop_first(), end, expand)
    } else if expand {
        seq![s[0]] + truncate_spec(s.drop_first(), end, false)
    } else {
        truncate_spec(s.drop_first(), end, false)
    }
}

/// One batch through the guard: the new state, what passes, and whether the
/// batch was dropped as unordered.
pub open spec fn accept_spec(g: MultifileGuard, b: Seq<Event>) -> (MultifileGuard, Seq<Event>, bool) {
    if g.range_final {
        (g, Seq::empty(), false)
    } else if b.len() == 0 {
        (g, b, false)
    } else if g.seen && min_ts(b) < g.max_ts {
        (g, Seq::empty(), true)
    } else {
        let mx = max_ts(b);
        if mx >= g.range.end {
            (
                MultifileGuard { max_ts: mx, seen: true, range_final: true, ..g },
                truncate_spec(b, g.range.end, g.expand),
                false,
            )
        } else {
            (MultifileGuard { max_ts: mx, seen: true, ..g }, b, false)
        }
    }
}

fn extrema(b: &Vec<Event>) -> (r: (u64, u64))
    requires
        b@.len() > 0,
    ensures
        r.0 == min_ts(b@),
        r.1 == max_ts(b@),
{
    let mut lo = b[0].ts;
    let mut hi = b[0].ts;
    let mut i: usize = 1;
    while i < b.len()
        invariant
            1 <= i <= b@.len(),
            lo == min_ts(b@.subrange(0, i as int)),
            hi == max_ts(b@.subrange(0, i as int)),
        decreases b@.len() - i,
    {
        let t = b[i].ts;
        proof {
            assert(b@.subrange(0, i + 1).drop_last() =~= b@.subrange(0, i as int));
        }
        if t < lo {
            lo = t;
        }
        if t > hi {
            hi = t;
        }
        i = i + 1;
    }
    assert(b@.subrange(0, b@.len() as int) =~= b@);
    (lo, hi)
}

fn truncate(b: Vec<Event>, end: u64, expand: bool) -> (r: Vec<Event>)
    ensures
        r@ == truncate_spec(b@, end, expand),
{
    let ghost all = b@;
    let mut rev = into_reversed(b);
    let mut out: Vec<Event> = Vec::new();
    let mut keep_post = expand;
    assert(rev@.reverse() =~= all);
    while rev.len() > 0
        invariant
            truncate_spec(all, end, expand) == out@ + truncate_spec(rev@.reverse(), end, keep_post),
        decreases rev@.len(),
    {
        let ghost before = rev@;
        let e = rev.pop().unwrap();
        proof {
            assert(before =~= rev@.push(e));
            assert(before.reverse() =~= seq![e] + rev@.reverse());
            assert(before.reverse().drop_first() =~= rev@.reverse());
        }
        let ghost out_before = out@;
        if e.ts < end {
            out.push(e);
            assert(out@ =~= out_before + seq![e]);
        } else if keep_post {
            out.push(e);
            keep_post = false;
            assert(out@ =~= out_before + seq![e]);
        }
        proof {
            assert(out_before + (seq![e] + truncate_spec(rev@.reverse(), end, keep_post)) =~= out_before
                + seq![e] + truncate_spec(rev@.reverse(), end, keep_post));
        }
    }
    assert(out@ + truncate_spec(rev@.reverse(), end, keep_post) =~= out@);
    out
}

impl MultifileGuard {
    /// A guard for `range` that has seen nothing yet.
    pub fn new(range: NanoRange, expand: bool) -> (r: MultifileGuard)
        ensures
            r.range == range,
            r.expand == expand,
            !r.seen,
            !r.range_final,
            r.max_ts == 0,
    {
        MultifileGuard { range, expand, max_ts: 0, seen: false, range_final: false }
    }

    /// Takes one batch: drops it when the range is already final or when it
    /// starts before the greatest timestamp so far; cuts it at the end
    /// of the range when it reaches that end, and then closes the range.
    pub fn accept(&mut self, batch: Vec<Event>) -> (r: BatchOutcome)
        ensures
            (*final(self), r.events@, r.unordered) == accept_spec(*old(self), batch@),
    {
        if self.range_final {
            return BatchOutcome { events: Vec::new(), unordered: false };
        }
        if batch.len() == 0 {
            return BatchOutcome { events: batch, unordered: false };
        }
        let (lo, hi) = extrema(&batch);
        if self.seen && lo < self.max_ts {
            return BatchOutcome { events: Vec::new(), unordered: true };
        }
        self.max_ts = hi;
        self.seen = true;
        if hi >= self.range.end {
            self.range_final = true;
            let events = truncate(batch, self.range.end, self.expand);
            BatchOutcome { events, unordered: false }
        } else {
            BatchOutcome { events: batch, unordered: false }
        }
    }
}

proof fn lemma_min_max(s: Seq<Event>)
    requires
        s.len() > 0,
    ensures
        forall|i: int| 0 <= i < s.len() ==> min_ts(s) <= #[trigger] s[i].ts <= max_ts(s),
    decreases s.len(),
{
    if s.len() > 1 {
        lemma_min_max(s.drop_last());
        assert forall|i: int| 0 <= i < s.len() implies min_ts(s) <= #[trigger] s[i].ts <= max_ts(s) by {
            if i < s.len() - 1 {
                assert(s[i] == s.drop_last()[i]);
            }
        }
    }
}

proof fn lemma_truncate_from(s: Seq<Event>, end: u64, expand: bool)
    ensures
        forall|i: int|
            0 <= i < truncate_spec(s, end, expand).len() ==> exists|j: int|
                0 <= j < s.len() && #[trigger] truncate_spec(s, end, expand)[i] == s[j],
    decreases s.len(),
{
    if s.len() > 0 {
        let rest_expand = if s[0].ts < end {
            expand
        } else {
            false
        };
        lemma_truncate_from(s.drop_first(), end, rest_expand);
        let t = truncate_spec(s, end, expand);
        let r = truncate_spec(s.drop_first(), end, rest_expand);
        assert forall|i: int| 0 <= i < t.len() implies exists|j: int|
            0 <= j < s.len() && #[trigger] t[i] == s[j] by {
            if s[0].ts < end || expand {
                if i == 0 {
                    assert(t[0] == s[0]);
                } else {
                    assert(t[i] == r[i - 1]);
                    let j = choose|j: int| 0 <= j < s.drop_first().len() && r[i - 1] == s.drop_first()[j];
                    assert(t[i] == s[j + 1]);
                }
            } else {
                assert(t[i] == r[i]);
                let j = choose|j: int| 0 <= j < s.drop_first().len() && r[i] == s.drop_first()[j];
                assert(t[i] == s[j + 1]);
            }
        }
    }
}

/// Every event the guard passes on lies at or after the greatest timestamp
/// let through before, and at or before the greatest one after: so the
/// batches it emits, one after another, never go back in time.
pub proof fn lemma_guard_monotone(g: MultifileGuard, b: Seq<Event>)
    ensures
        ({
            let (g1, out, _) = accept_spec(g, b);
            &&& forall|i: int| 0 <= i < out.len() ==> g.seen ==> (#[trigger] out[i]).ts >= g.max_ts
            &&& forall|i: int| 0 <= i < out.len() ==> (#[trigger] out[i]).ts <= g1.max_ts
            &&& g.seen ==> g1.seen && g1.max_ts >= g.max_ts
        }),
{
    let (g1, out, _) = accept_spec(g, b);
    if !g.range_final && b.len() > 0 && !(g.seen && min_ts(b) < g.max_ts) {
        lemma_min_max(b);
        if max_ts(b) >= g.range.end {
            lemma_truncate_from(b, g.range.end, g.expand);
            assert forall|i: int| 0 <= i < out.len() implies (g.seen ==> (#[trigger] out[i]).ts >= g.max_ts)
                && out[i].ts <= g1.max_ts by {
                let j = choose|j: int| 0 <= j < b.len() && out[i] == b[j];
                assert(min_ts(b) <= b[j].ts <= max_ts(b));
            }
        }
        assert(b[0].ts <= max_ts(b));
    }
}

} // verus!
