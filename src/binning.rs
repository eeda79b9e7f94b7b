use vstd::arithmetic::div_mod::lemma_fundamental_div_mod;
use vstd::arithmetic::mul::{lemma_mul_inequality, lemma_mul_is_distributive_add_other_way};
use crate::items::{fits_spec, Fits, FitsInside, RangeOverlapInfo, TimeBins, WithLen};
use crate::netpod::NanoRange;
use vstd::prelude::*;

verus! {

/// `bin_count` bins of equal width over `[beg, end)`.
#[derive(PartialEq, Eq, Structural, Clone, Copy, Debug)]
pub struct BinnedRange {
    pub beg: u64,
    pub end: u64,
    pub bin_count: u64,
}

/// The width of each bin.
pub open spec fn bin_len_spec(r: BinnedRange) -> nat {
    ((r.end - r.beg) / r.bin_count as int) as nat
}

/// Lower edge of bin `b`.
pub open spec fn edge(r: BinnedRange, b: int) -> int {
    r.beg + b * bin_len_spec(r)
}

/// How many of the timestamps lie in `[a, b)`.
pub open spec fn count_in(s: Seq<u64>, a: int, b: int) -> nat
    decreases s.len(),
{
    if s.len() == 0 {
        0
    } else {
        count_in(s.drop_last(), a, b) + (if a <= s.last() < b {
            1nat
        } else {
            0nat
        })
    }
}

/// Least value of the events with timestamp in `[a, b)`; `None` when there is none.
pub open spec fn min_in(s: Seq<u64>, v: Seq<i64>, a: int, b: int) -> Option<i64>
    decreases s.len(),
{
    if s.len() == 0 {
        None
    } else {
        let rest = min_in(s.drop_last(), v.drop_last(), a, b);
        if a <= s.last() < b {
            match rest {
                Some(m) => Some(if v.last() < m {
                    v.last()
                } else {
                    m
                }),
                None => Some(v.last()),
            }
        } else {
            rest
        }
    }
}

/// Greatest value of the events with timestamp in `[a, b)`; `None` when there is none.
pub open spec fn max_in(s: Seq<u64>, v: Seq<i64>, a: int, b: int) -> Option<i64>
    decreases s.len(),
{
    if s.len() == 0 {
        None
    } else {
        let rest = max_in(s.drop_last(), v.drop_last(), a, b);
        if a <= s.last() < b {
            match rest {
                Some(m) => Some(if v.last() > m {
                    v.last()
                } else {
                    m
                }),
                None => Some(v.last()),
            }
        } else {
            rest
        }
    }
}

/// Sum of the values of the events with timestamp in `[a, b)`.
pub open spec fn sum_in(s: Seq<u64>, v: Seq<i64>, a: int, b: int) -> int
    decreases s.len(),
{
    if s.len() == 0 {
        0
    } else {
        sum_in(s.drop_last(), v.drop_last(), a, b) + (if a <= s.last() < b {
            v.last() as int
        } else {
            0
        })
    }
}

/// Sum of a sequence of counts.
pub open spec fn total(c: Seq<u64>) -> int
    decreases c.len(),
{
    if c.len() == 0 {
        0
    } else {
        total(c.drop_last()) + c.last()
    }
}

/// The bins of one binned result: edges, counts, and the extrema and sum of
/// the values in each bin. The mean of a bin is its sum over its count; a bin
/// with count zero has no extrema.
pub struct MinMaxAvgBins {
    pub ts1s: Vec<u64>,
    pub ts2s: Vec<u64>,
    pub counts: Vec<u64>,
    pub mins: Vec<Option<i64>>,
    pub maxs: Vec<Option<i64>>,
    pub sums: Vec<i128>,
}

/// The bins are exactly those of `r` over the events `(s, v)`.
pub open spec fn bins_of(out: MinMaxAvgBins, r: BinnedRange, s: Seq<u64>, v: Seq<i64>) -> bool {
    let n = r.bin_count as int;
    &&& out.ts1s@.len() == n && out.ts2s@.len() == n && out.counts@.len() == n
    &&& out.mins@.len() == n && out.maxs@.len() == n && out.sums@.len() == n
    &&& forall|b: int|
        0 <= b < n ==> {
            &&& #[trigger] out.ts1s@[b] == edge(r, b)
            &&& out.ts2s@[b] == edge(r, b + 1)
            &&& out.counts@[b] == count_in(s, edge(r, b), edge(r, b + 1))
            &&& out.mins@[b] == min_in(s, v, edge(r, b), edge(r, b + 1))
            &&& out.maxs@[b] == max_in(s, v, edge(r, b), edge(r, b + 1))
            &&& out.sums@[b] == sum_in(s, v, edge(r, b), edge(r, b + 1))
        }
}

impl BinnedRange {
    /// A valid range: non-empty, with at least one nanosecond per bin.
    pub open spec fn wf(&self) -> bool {
        &&& self.beg < self.end
        &&& 0 < self.bin_count <= self.end - self.beg
        &&& (self.end - self.beg) % (self.bin_count as int) == 0
    }

    /// The bins over `[beg, end)`; `None` unless `beg < end`,
    /// `0 < bin_count <= end - beg`, and the bins tile the range exactly
    /// (`bin_count` divides `end - beg`).
    pub fn new(beg: u64, end: u64, bin_count: u64) -> (r: Option<BinnedRange>)
        ensures
            r matches Some(x) ==> x.wf() && x.beg == beg && x.end == end && x.bin_count == bin_count,
            r is None <==> !(beg < end && 0 < bin_count <= end - beg && (end - beg) % (bin_count as int)
                == 0),
    {
        if beg < end && 0 < bin_count && bin_count <= end - beg && (end - beg) % bin_count == 0 {
            Some(BinnedRange { beg, end, bin_count })
        } else {
            None
        }
    }

    /// The width of each bin, `(end - beg) / bin_count`.
    pub fn bin_len(&self) -> (r: u64)
        requires
            self.wf(),
        ensures
            r == bin_len_spec(*self),
            r > 0,
    {
        proof {
            lemma_bin_len_pos(*self);
        }
        (self.end - self.beg) / self.bin_count
    }
}

proof fn lemma_bin_len_pos(r: BinnedRange)
    requires
        r.wf(),
    ensures
        bin_len_spec(r) > 0,
{
    let x = (r.end - r.beg) as int;
    let d = r.bin_count as int;
    lemma_fundamental_div_mod(x, d);
    let q = x / d;
    assert(q >= 1) by (nonlinear_arith)
        requires
            x == d * q + x % d,
            0 <= x % d < d,
            d <= x,
    ;
}

proof fn lemma_edges(r: BinnedRange, b: int)
    requires
        r.wf(),
        0 <= b <= r.bin_count,
    ensures
        r.beg <= edge(r, b) <= edge(r, r.bin_count as int) <= r.end,
        bin_len_spec(r) > 0,
{
    let len = bin_len_spec(r) as int;
    let n = r.bin_count as int;
    lemma_fundamental_div_mod((r.end - r.beg) as int, n);
    lemma_bin_len_pos(r);
    lemma_mul_inequality(b, n, len);
    assert(b * len >= 0) by (nonlinear_arith)
        requires
            b >= 0,
            len >= 0,
    ;
    assert(n * len == len * n) by (nonlinear_arith);
}

/// A timestamp lies in bin `b` exactly when `(t - beg) / len == b`.
proof fn lemma_bin_of(r: BinnedRange, t: int, b: int)
    requires
        r.wf(),
        t >= r.beg,
        0 <= b,
    ensures
        (edge(r, b) <= t < edge(r, b + 1)) <==> (t - r.beg) / (bin_len_spec(r) as int) == b,
{
    let len = bin_len_spec(r) as int;
    lemma_edges(r, 0);
    let d = t - r.beg;
    lemma_fundamental_div_mod(d, len);
    let q = d / len;
    let m = d % len;
    lemma_mul_is_distributive_add_other_way(len, b, 1);
    if q == b {
        assert(b * len <= d < (b + 1) * len) by (nonlinear_arith)
            requires
                d == len * q + m,
                0 <= m < len,
                q == b,
        ;
    }
    if b * len <= d < (b + 1) * len {
        assert(q == b) by (nonlinear_arith)
            requires
                d == len * q + m,
                0 <= m < len,
                b * len <= d < (b + 1) * len,
                len > 0,
        ;
    }
}

proof fn lemma_total_update(c: Seq<u64>, k: int, x: u64)
    requires
        0 <= k < c.len(),
    ensures
        total(c.update(k, x)) == total(c) - c[k] + x,
    decreases c.len(),
{
    if k < c.len() - 1 {
        lemma_total_update(c.drop_last(), k, x);
        assert(c.update(k, x).drop_last() =~= c.drop_last().update(k, x));
    } else {
        assert(c.update(k, x).drop_last() =~= c.drop_last());
    }
}

proof fn lemma_total_zeros(c: Seq<u64>)
    requires
        forall|i: int| 0 <= i < c.len() ==> c[i] == 0,
    ensures
        total(c) == 0,
    decreases c.len(),
{
    if c.len() > 0 {
        lemma_total_zeros(c.drop_last());
    }
}

proof fn lemma_sum_bound(s: Seq<u64>, v: Seq<i64>, a: int, b: int)
    requires
        s.len() == v.len(),
    ensures
        -0x8000_0000_0000_0000 * s.len() <= sum_in(s, v, a, b) <= 0x8000_0000_0000_0000 * s.len(),
    decreases s.len(),
{
    if s.len() > 0 {
        lemma_sum_bound(s.drop_last(), v.drop_last(), a, b);
    }
}

proof fn lemma_count_bound(s: Seq<u64>, a: int, b: int)
    ensures
        count_in(s, a, b) <= s.len(),
    decreases s.len(),
{
    if s.len() > 0 {
        lemma_count_bound(s.drop_last(), a, b);
    }
}

/// Bin `k` holds what the events `(s, v)` give it.
pub open spec fn bin_ok(
    r: BinnedRange,
    s: Seq<u64>,
    v: Seq<i64>,
    k: int,
    counts: Seq<u64>,
    mins: Seq<Option<i64>>,
    maxs: Seq<Option<i64>>,
    sums: Seq<i128>,
) -> bool {
    let a = edge(r, k);
    let b = edge(r, k + 1);
    &&& counts[k] == count_in(s, a, b)
    &&& mins[k] == min_in(s, v, a, b)
    &&& maxs[k] == max_in(s, v, a, b)
    &&& sums[k] == sum_in(s, v, a, b)
}

/// One more event changes the aggregates of `[a, b)` only if it lies there.
proof fn lemma_push_event(s: Seq<u64>, v: Seq<i64>, t: u64, x: i64, a: int, b: int)
    requires
        s.len() == v.len(),
    ensures
        ({
            let s1 = s.push(t);
            let v1 = v.push(x);
            &&& !(a <= t < b) ==> count_in(s1, a, b) == count_in(s, a, b) && min_in(s1, v1, a, b)
                == min_in(s, v, a, b) && max_in(s1, v1, a, b) == max_in(s, v, a, b) && sum_in(
                s1,
                v1,
                a,
                b,
            ) == sum_in(s, v, a, b)
            &&& (a <= t < b) ==> count_in(s1, a, b) == count_in(s, a, b) + 1 && sum_in(s1, v1, a, b)
                == sum_in(s, v, a, b) + x && min_in(s1, v1, a, b) == (match min_in(s, v, a, b) {
                Some(m) => Some(if x < m {
                    x
                } else {
                    m
                }),
                None => Some(x),
            }) && max_in(s1, v1, a, b) == (match max_in(s, v, a, b) {
                Some(m) => Some(if x > m {
                    x
                } else {
                    m
                }),
                None => Some(x),
            })
        }),
{
    assert(s.push(t).drop_last() =~= s);
    assert(v.push(x).drop_last() =~= v);
}

/// Folds events into the bins of `r`: bin `b` covers
/// `[beg + b * len, beg + (b + 1) * len)` with `len = (end - beg) / bin_count`,
/// and gets the count, extrema and sum of the events in it. Every event that
/// lies in some bin is counted exactly once.
pub fn bin_events(r: &BinnedRange, tss: &[u64], vals: &[i64]) -> (out: MinMaxAvgBins)
    requires
        r.wf(),
        tss@.len() == vals@.len(),
    ensures
        bins_of(out, *r, tss@, vals@),
        total(out.counts@) == count_in(tss@, r.beg as int, edge(*r, r.bin_count as int)),
{
    let n = r.bin_count;
    let len = r.bin_len();
    proof {
        lemma_edges(*r, n as int);
    }
    let mut ts1s: Vec<u64> = Vec::new();
    let mut ts2s: Vec<u64> = Vec::new();
    let mut counts: Vec<u64> = Vec::new();
    let mut mins: Vec<Option<i64>> = Vec::new();
    let mut maxs: Vec<Option<i64>> = Vec::new();
    let mut sums: Vec<i128> = Vec::new();
    let mut b: u64 = 0;
    while b < n
        invariant
            r.wf(),
            n == r.bin_count,
            len == bin_len_spec(*r),
            b <= n,
            edge(*r, n as int) <= r.end,
            ts1s@.len() == b && ts2s@.len() == b && counts@.len() == b,
            mins@.len() == b && maxs@.len() == b && sums@.len() == b,
            forall|k: int|
                0 <= k < b ==> {
                    &&& #[trigger] ts1s@[k] == edge(*r, k)
                    &&& ts2s@[k] == edge(*r, k + 1)
                    &&& counts@[k] == 0
                    &&& mins@[k] is None
                    &&& maxs@[k] is None
                    &&& sums@[k] == 0
                },
        decreases n - b,
    {
        proof {
            lemma_edges(*r, b as int);
            lemma_edges(*r, b as int + 1);
            lemma_mul_is_distributive_add_other_way(len as int, b as int, 1);
        }
        ts1s.push(r.beg + b * len);
        ts2s.push(r.beg + (b + 1) * len);
        counts.push(0);
        mins.push(None);
        maxs.push(None);
        sums.push(0);
        b = b + 1;
    }
    proof {
        assert forall|k: int| 0 <= k < counts@.len() implies counts@[k] == 0 by {
            assert(ts1s@[k] == edge(*r, k));
        }
        lemma_total_zeros(counts@);
        assert(tss@.subrange(0, 0) =~= Seq::<u64>::empty());
        assert(vals@.subrange(0, 0) =~= Seq::<i64>::empty());
        assert forall|k: int| 0 <= k < n implies #[trigger] bin_ok(
            *r,
            tss@.subrange(0, 0),
            vals@.subrange(0, 0),
            k,
            counts@,
            mins@,
            maxs@,
            sums@,
        ) by {
            assert(ts1s@[k] == edge(*r, k));
        }
    }
    let m = tss.len();
    let mut i: usize = 0;
    while i < m
        invariant
            r.wf(),
            n == r.bin_count,
            len == bin_len_spec(*r),
            len > 0,
            m == tss@.len(),
            m == vals@.len(),
            i <= m,
            edge(*r, n as int) <= r.end,
            ts1s@.len() == n && ts2s@.len() == n && counts@.len() == n,
            mins@.len() == n && maxs@.len() == n && sums@.len() == n,
            forall|k: int|
                0 <= k < n ==> #[trigger] ts1s@[k] == edge(*r, k) && ts2s@[k] == edge(*r, k + 1),
            forall|k: int|
                0 <= k < n ==> #[trigger] bin_ok(
                    *r,
                    tss@.subrange(0, i as int),
                    vals@.subrange(0, i as int),
                    k,
                    counts@,
                    mins@,
                    maxs@,
                    sums@,
                ),
            total(counts@) == count_in(tss@.subrange(0, i as int), r.beg as int, edge(*r, n as int)),
        decreases m - i,
    {
        let t = tss[i];
        let x = vals[i];
        let ghost s0 = tss@.subrange(0, i as int);
        let ghost v0 = vals@.subrange(0, i as int);
        let ghost s1 = tss@.subrange(0, i + 1);
        let ghost v1 = vals@.subrange(0, i + 1);
        let ghost c0 = counts@;
        let ghost mn0 = mins@;
        let ghost mx0 = maxs@;
        let ghost sm0 = sums@;
        proof {
            assert(s1 =~= s0.push(t));
            assert(v1 =~= v0.push(x));
            lemma_push_event(s0, v0, t, x, r.beg as int, edge(*r, n as int));
        }
        if t >= r.beg && (t - r.beg) / len < n {
            let nb: usize = counts.len();
            let q: u64 = (t - r.beg) / len;
            assert(q < nb);
            let k = q as usize;
            assert(k as int == (t - r.beg) / (len as int));
            proof {
                lemma_bin_of(*r, t as int, k as int);
                lemma_edges(*r, k as int + 1);
                lemma_count_bound(s0, edge(*r, k as int), edge(*r, k as int + 1));
                lemma_sum_bound(s0, v0, edge(*r, k as int), edge(*r, k as int + 1));
                assert(0x8000_0000_0000_0000 * (i as int) <= 0x8000_0000_0000_0000 * 0xffff_ffff_ffff_ffffint)
                    by (nonlinear_arith)
                    requires
                        i <= 0xffff_ffff_ffff_ffffint,
                ;
                assert(bin_ok(*r, s0, v0, k as int, c0, mn0, mx0, sm0));
                lemma_total_update(counts@, k as int, (counts@[k as int] + 1) as u64);
                assert(edge(*r, k as int) >= r.beg);
            }
            let c = counts[k];
            counts.set(k, c + 1);
            let mn = match mins[k] {
                Some(a) => Some(if x < a {
                    x
                } else {
                    a
                }),
                None => Some(x),
            };
            mins.set(k, mn);
            let mx = match maxs[k] {
                Some(a) => Some(if x > a {
                    x
                } else {
                    a
                }),
                None => Some(x),
            };
            maxs.set(k, mx);
            let sm = sums[k];
            sums.set(k, sm + x as i128);
            proof {
                lemma_push_event(s0, v0, t, x, edge(*r, k as int), edge(*r, k as int + 1));
                assert forall|j: int| 0 <= j < n implies #[trigger] bin_ok(
                    *r,
                    s1,
                    v1,
                    j,
                    counts@,
                    mins@,
                    maxs@,
                    sums@,
                ) by {
                    assert(bin_ok(*r, s0, v0, j, c0, mn0, mx0, sm0));
                    lemma_bin_of(*r, t as int, j);
                    lemma_push_event(s0, v0, t, x, edge(*r, j), edge(*r, j + 1));
                    if j == k {
                        assert(edge(*r, j) <= t < edge(*r, j + 1));
                        assert(counts@[j] == c0[j] + 1);
                    } else {
                        assert(counts@[j] == c0[j]);
                        assert(mins@[j] == mn0[j]);
                        assert(maxs@[j] == mx0[j]);
                        assert(sums@[j] == sm0[j]);
                    }
                }
            }
        } else {
            proof {
                assert forall|j: int| 0 <= j < n implies #[trigger] bin_ok(
                    *r,
                    s1,
                    v1,
                    j,
                    counts@,
                    mins@,
                    maxs@,
                    sums@,
                ) by {
                    assert(bin_ok(*r, s0, v0, j, c0, mn0, mx0, sm0));
                    if t >= r.beg {
                        lemma_bin_of(*r, t as int, j);
                    } else {
                        lemma_edges(*r, j);
                    }
                    lemma_push_event(s0, v0, t, x, edge(*r, j), edge(*r, j + 1));
                }
                if t >= r.beg {
                    let q = (t - r.beg) / (len as int);
                    assert(t >= edge(*r, n as int)) by {
                        lemma_fundamental_div_mod((t - r.beg) as int, len as int);
                        assert(len * q >= len * n) by (nonlinear_arith)
                            requires
                                q >= n,
                                len > 0,
                        ;
                        assert(len * n == n * len) by (nonlinear_arith);
                    }
                }
            }
        }
        i = i + 1;
    }
    proof {
        assert(tss@.subrange(0, m as int) =~= tss@);
        assert(vals@.subrange(0, m as int) =~= vals@);
        let out = MinMaxAvgBins { ts1s, ts2s, counts, mins, maxs, sums };
        assert forall|b: int| 0 <= b < n implies #[trigger] out.ts1s@[b] == edge(*r, b) && out.ts2s@[b]
            == edge(*r, b + 1) && out.counts@[b] == count_in(tss@, edge(*r, b), edge(*r, b + 1))
            && out.mins@[b] == min_in(tss@, vals@, edge(*r, b), edge(*r, b + 1)) && out.maxs@[b]
            == max_in(tss@, vals@, edge(*r, b), edge(*r, b + 1)) && out.sums@[b] == sum_in(
            tss@,
            vals@,
            edge(*r, b),
            edge(*r, b + 1),
        ) by {
            assert(bin_ok(*r, tss@, vals@, b, counts@, mins@, maxs@, sums@));
        }
    }
    MinMaxAvgBins { ts1s, ts2s, counts, mins, maxs, sums }
}

/// For every valid range: there are exactly
/// `bin_count` bins, each ends where the next begins, the first begins at
/// `beg` and the last ends at `end`, and the counts add up to the number of
/// events in `[beg, end)`.
pub proof fn lemma_bin_partition(
    r: BinnedRange,
    s: Seq<u64>,
    v: Seq<i64>,
    out: MinMaxAvgBins,
)
    requires
        r.wf(),
        bins_of(out, r, s, v),
        total(out.counts@) == count_in(s, r.beg as int, edge(r, r.bin_count as int)),
    ensures
        out.ts1s@.len() == r.bin_count && out.ts2s@.len() == r.bin_count,
        out.counts@.len() == r.bin_count,
        forall|b: int| 0 <= b < r.bin_count - 1 ==> out.ts2s@[b] == #[trigger] out.ts1s@[b + 1],
        out.ts1s@[0] == r.beg,
        out.ts2s@[r.bin_count - 1] == r.end,
        total(out.counts@) == count_in(s, r.beg as int, r.end as int),
{
    let n = r.bin_count as int;
    lemma_fundamental_div_mod((r.end - r.beg) as int, n);
    assert(n * bin_len_spec(r) == bin_len_spec(r) * n) by (nonlinear_arith);
    assert(edge(r, n) == r.end);
    assert(out.ts1s@[0] == edge(r, 0));
    assert(out.ts1s@[n - 1] == edge(r, n - 1));
    assert forall|b: int| 0 <= b < n - 1 implies out.ts2s@[b] == #[trigger] out.ts1s@[b + 1] by {
        assert(out.ts1s@[b] == edge(r, b));
    }
}

/// Length of `[a, b)` ∩ `[x, y)`.
pub open spec fn clip_len(a: int, b: int, x: int, y: int) -> int {
    let lo = if a > x {
        a
    } else {
        x
    };
    let hi = if b < y {
        b
    } else {
        y
    };
    if hi > lo {
        hi - lo
    } else {
        0
    }
}

/// Where the value of event `i` stops holding: at the next event, or for
/// the last event at `b` (or at its own timestamp if that is later).
pub open spec fn seg_end(s: Seq<u64>, i: int, b: int) -> int {
    if i + 1 < s.len() {
        s[i + 1] as int
    } else if b > s[i] {
        b
    } else {
        s[i] as int
    }
}

/// Integral over `[a, b)` of the signal that holds each event's value from
/// its timestamp to the next event's, over the first `k` events. Before the
/// first event the signal contributes nothing.
pub open spec fn tw_integral(s: Seq<u64>, v: Seq<i64>, a: int, b: int, k: int) -> int
    decreases k,
{
    if k <= 0 {
        0
    } else {
        tw_integral(s, v, a, b, k - 1) + v[k - 1] * clip_len(a, b, s[k - 1] as int, seg_end(s, k - 1, b))
    }
}

/// Timestamps never decrease.
pub open spec fn sorted_u64(s: Seq<u64>) -> bool {
    forall|i: int, j: int| 0 <= i <= j < s.len() ==> s[i] <= s[j]
}

proof fn lemma_clip_split(a: int, b: int, x: int, y: int, z: int)
    requires
        x <= y <= z,
    ensures
        clip_len(a, b, x, y) + clip_len(a, b, y, z) == clip_len(a, b, x, z),
{
}

/// The time-weighted integral of each bin of `r`: bin `b` gets
/// `tw_integral(tss, vals, edge(b), edge(b + 1), n)`. Its time-weighted mean
/// is that integral over the bin length. Events must be in time order; one
/// event before `beg` seeds the first bin.
pub fn time_weighted_integrals(r: &BinnedRange, tss: &[u64], vals: &[i64]) -> (out: Vec<i128>)
    requires
        r.wf(),
        tss@.len() == vals@.len(),
        sorted_u64(tss@),
    ensures
        out@.len() == r.bin_count,
        forall|b: int|
            0 <= b < r.bin_count ==> #[trigger] out@[b] == tw_integral(
                tss@,
                vals@,
                edge(*r, b),
                edge(*r, b + 1),
                tss@.len() as int,
            ),
{
    let n = r.bin_count;
    let len = r.bin_len();
    let m = tss.len();
    proof {
        lemma_edges(*r, n as int);
    }
    let mut out: Vec<i128> = Vec::new();
    let mut bi: u64 = 0;
    while bi < n
        invariant
            r.wf(),
            n == r.bin_count,
            len == bin_len_spec(*r),
            m == tss@.len(),
            m == vals@.len(),
            sorted_u64(tss@),
            bi <= n,
            edge(*r, n as int) <= r.end,
            out@.len() == bi,
            forall|b: int|
                0 <= b < bi ==> #[trigger] out@[b] == tw_integral(
                    tss@,
                    vals@,
                    edge(*r, b),
                    edge(*r, b + 1),
                    m as int,
                ),
        decreases n - bi,
    {
        proof {
            lemma_edges(*r, bi as int);
            lemma_edges(*r, bi as int + 1);
            lemma_mul_is_distributive_add_other_way(len as int, bi as int, 1);
        }
        let a = r.beg + bi * len;
        let b = r.beg + (bi + 1) * len;
        let mut acc: i128 = 0;
        let mut i: usize = 0;
        while i < m
            invariant
                m == tss@.len(),
                m == vals@.len(),
                sorted_u64(tss@),
                i <= m,
                a <= b,
                acc == tw_integral(tss@, vals@, a as int, b as int, i as int),
                m > 0 && i > 0 ==> -0x8000_0000_0000_0000 * clip_len(a as int, b as int, tss@[0] as int, seg_end(tss@, i - 1, b as int))
                    <= acc <= 0x8000_0000_0000_0000 * clip_len(a as int, b as int, tss@[0] as int, seg_end(tss@, i - 1, b as int)),
                i == 0 ==> acc == 0,
            decreases m - i,
        {
            let t = tss[i];
            let next: u64 = if i + 1 < m {
                tss[i + 1]
            } else if b > t {
                b
            } else {
                t
            };
            let lo = if a > t {
                a
            } else {
                t
            };
            let hi = if b < next {
                b
            } else {
                next
            };
            let overlap: u64 = if hi > lo {
                hi - lo
            } else {
                0
            };
            proof {
                let c = clip_len(a as int, b as int, t as int, next as int);
                assert(overlap == c);
                assert(c <= b - a);
                if i > 0 {
                    assert(seg_end(tss@, i - 1, b as int) == t as int);
                    assert(tss@[0] <= t);
                    lemma_clip_split(a as int, b as int, tss@[0] as int, t as int, next as int);
                } else {
                    assert(clip_len(a as int, b as int, tss@[0] as int, next as int) == c);
                }
                let whole = clip_len(a as int, b as int, tss@[0] as int, next as int);
                assert(whole <= b - a);
                assert(b - a <= 0xffff_ffff_ffff_ffff);
                let x = vals@[i as int] as int;
                assert(-0x8000_0000_0000_0000 * c <= x * c <= 0x8000_0000_0000_0000 * c) by (nonlinear_arith)
                    requires
                        -0x8000_0000_0000_0000 <= x < 0x8000_0000_0000_0000,
                        c >= 0,
                ;
                assert(0x8000_0000_0000_0000 * whole <= 0x8000_0000_0000_0000 * 0xffff_ffff_ffff_ffffint) by (nonlinear_arith)
                    requires
                        whole <= 0xffff_ffff_ffff_ffff,
                ;
                if i > 0 {
                    let prev = clip_len(a as int, b as int, tss@[0] as int, t as int);
                    assert(0x8000_0000_0000_0000 * prev + 0x8000_0000_0000_0000 * c == 0x8000_0000_0000_0000 * whole) by (nonlinear_arith)
                        requires
                            prev + c == whole,
                    ;
                }
            }
            acc = acc + (vals[i] as i128) * (overlap as i128);
            i = i + 1;
        }
        out.push(acc);
        bi = bi + 1;
    }
    out
}

impl WithLen for MinMaxAvgBins {
    fn len(&self) -> usize {
        self.ts1s.len()
    }
}

impl TimeBins for MinMaxAvgBins {
    fn ts1s(&self) -> &Vec<u64> {
        &self.ts1s
    }

    fn ts2s(&self) -> &Vec<u64> {
        &self.ts2s
    }
}

impl MinMaxAvgBins {
    /// How the bins lie against `range`: by the start of the first bin and
    /// the end of the last.
    pub fn fits(&self, range: &NanoRange) -> (r: Fits)
        requires
            self.ts1s@.len() == self.ts2s@.len(),
        ensures
            self.ts1s@.len() == 0 ==> r == Fits::Empty,
            self.ts1s@.len() > 0 ==> r == fits_spec(
                seq![
                    self.ts1s@[0],
                    if self.ts2s@.last() > 0 {
                        (self.ts2s@.last() - 1) as u64
                    } else {
                        0
                    },
                ],
                range.beg,
                range.end,
            ),
    {
        let n = self.ts1s.len();
        if n == 0 {
            return Fits::Empty;
        }
        let first = self.ts1s[0];
        let last_end = self.ts2s[n - 1];
        let last: u64 = if last_end > 0 {
            last_end - 1
        } else {
            0
        };
        let tss: Vec<u64> = vec![first, last];
        assert(tss@ =~= seq![
            self.ts1s@[0],
            if self.ts2s@.last() > 0 {
                (self.ts2s@.last() - 1) as u64
            } else {
                0
            },
        ]);
        crate::items::fits_tss(&tss, range)
    }
}

impl FitsInside for MinMaxAvgBins {
    fn fits_inside(&self, range: NanoRange) -> Fits {
        if self.ts1s.len() != self.ts2s.len() {
            return Fits::Empty;
        }
        self.fits(&range)
    }
}

impl RangeOverlapInfo for MinMaxAvgBins {
    fn ends_before(&self, range: NanoRange) -> bool {
        let n = self.ts2s.len();
        n > 0 && self.ts2s[n - 1] <= range.beg
    }

    fn ends_after(&self, range: NanoRange) -> bool {
        let n = self.ts2s.len();
        n > 0 && self.ts2s[n - 1] > range.end
    }

    fn starts_after(&self, range: NanoRange) -> bool {
        let n = self.ts1s.len();
        n > 0 && self.ts1s[0] >= range.end
    }
}

/// A waveform reduced to one bin: element count, extrema and sum. Its mean
/// is the sum over the count.
#[derive(PartialEq, Eq, Structural, Clone, Copy, Debug)]
pub struct XBin {
    pub count: u64,
    pub min: Option<i64>,
    pub max: Option<i64>,
    pub sum: i128,
}

/// Least element; `None` for an empty waveform.
pub open spec fn wave_min(w: Seq<i64>) -> Option<i64>
    decreases w.len(),
{
    if w.len() == 0 {
        None
    } else {
        match wave_min(w.drop_last()) {
            Some(m) => Some(if w.last() < m {
                w.last()
            } else {
                m
            }),
            None => Some(w.last()),
        }
    }
}

/// Greatest element; `None` for an empty waveform.
pub open spec fn wave_max(w: Seq<i64>) -> Option<i64>
    decreases w.len(),
{
    if w.len() == 0 {
        None
    } else {
        match wave_max(w.drop_last()) {
            Some(m) => Some(if w.last() > m {
                w.last()
            } else {
                m
            }),
            None => Some(w.last()),
        }
    }
}

/// Sum of the elements.
pub open spec fn wave_sum(w: Seq<i64>) -> int
    decreases w.len(),
{
    if w.len() == 0 {
        0
    } else {
        wave_sum(w.drop_last()) + w.last()
    }
}

proof fn lemma_wave_sum_bound(w: Seq<i64>)
    ensures
        -0x8000_0000_0000_0000 * w.len() <= wave_sum(w) <= 0x8000_0000_0000_0000 * w.len(),
    decreases w.len(),
{
    if w.len() > 0 {
        lemma_wave_sum_bound(w.drop_last());
    }
}

/// Reduces one waveform to a single bin.
pub fn x_bin_wave(w: &[i64]) -> (r: XBin)
    ensures
        r.count == w@.len(),
        r.min == wave_min(w@),
        r.max == wave_max(w@),
        r.sum == wave_sum(w@),
{
    let n = w.len();
    let mut mn: Option<i64> = None;
    let mut mx: Option<i64> = None;
    let mut sum: i128 = 0;
    let mut i: usize = 0;
    while i < n
        invariant
            i <= n,
            n == w@.len(),
            mn == wave_min(w@.subrange(0, i as int)),
            mx == wave_max(w@.subrange(0, i as int)),
            sum == wave_sum(w@.subrange(0, i as int)),
        decreases n - i,
    {
        let x = w[i];
        proof {
            let pre = w@.subrange(0, i as int);
            assert(w@.subrange(0, i + 1).drop_last() =~= pre);
            lemma_wave_sum_bound(pre);
            assert(0x8000_0000_0000_0000 * (i as int) <= 0x8000_0000_0000_0000 * 0xffff_ffff_ffff_ffffint)
                by (nonlinear_arith)
                requires
                    i <= 0xffff_ffff_ffff_ffffint,
            ;
        }
        mn = match mn {
            Some(a) => Some(if x < a {
                x
            } else {
                a
            }),
            None => Some(x),
        };
        mx = match mx {
            Some(a) => Some(if x > a {
                x
            } else {
                a
            }),
            None => Some(x),
        };
        sum = sum + x as i128;
        i = i + 1;
    }
    assert(w@.subrange(0, n as int) =~= w@);
    XBin { count: n as u64, min: mn, max: mx, sum }
}

/// Reduces each waveform of a batch to a single bin, in order.
pub fn x_bin_waves(waves: &Vec<Vec<i64>>) -> (r: Vec<XBin>)
    ensures
        r@.len() == waves@.len(),
        forall|k: int|
            0 <= k < waves@.len() ==> {
                let w = (#[trigger] waves@[k])@;
                &&& r@[k].count == w.len()
                &&& r@[k].min == wave_min(w)
                &&& r@[k].max == wave_max(w)
                &&& r@[k].sum == wave_sum(w)
            },
{
    let mut out: Vec<XBin> = Vec::new();
    let mut k: usize = 0;
    while k < waves.len()
        invariant
            k <= waves@.len(),
            out@.len() == k,
            forall|j: int|
                0 <= j < k ==> {
                    let w = (#[trigger] waves@[j])@;
                    &&& out@[j].count == w.len()
                    &&& out@[j].min == wave_min(w)
                    &&& out@[j].max == wave_max(w)
                    &&& out@[j].sum == wave_sum(w)
                },
        decreases waves@.len() - k,
    {
        let b = x_bin_wave(waves[k].as_slice());
        out.push(b);
        k = k + 1;
    }
    out
}

/// Element `j` of every waveform, in event order.
pub open spec fn column(ws: Seq<Vec<i64>>, j: int) -> Seq<i64> {
    Seq::new(ws.len(), |i: int| ws[i]@[j])
}

/// Time-bins waveform events element by element: entry `j` of the result
/// holds the bins of element `j` of every waveform, as `bin_events` gives
/// them. Each waveform has `n` elements.
pub fn bin_wave_events(r: &BinnedRange, tss: &[u64], waves: &Vec<Vec<i64>>, n: usize) -> (out: Vec<
    MinMaxAvgBins,
>)
    requires
        r.wf(),
        tss@.len() == waves@.len(),
        forall|i: int| 0 <= i < waves@.len() ==> (#[trigger] waves@[i])@.len() == n,
    ensures
        out@.len() == n,
        forall|j: int| 0 <= j < n ==> bins_of(#[trigger] out@[j], *r, tss@, column(waves@, j)),
{
    let mut out: Vec<MinMaxAvgBins> = Vec::new();
    let m = waves.len();
    let mut j: usize = 0;
    while j < n
        invariant
            j <= n,
            m == waves@.len(),
            tss@.len() == m,
            r.wf(),
            forall|i: int| 0 <= i < waves@.len() ==> (#[trigger] waves@[i])@.len() == n,
            out@.len() == j,
            forall|k: int| 0 <= k < j ==> bins_of(#[trigger] out@[k], *r, tss@, column(waves@, k)),
        decreases n - j,
    {
        let mut col: Vec<i64> = Vec::new();
        let mut i: usize = 0;
        while i < m
            invariant
                i <= m,
                m == waves@.len(),
                j < n,
                forall|k: int| 0 <= k < waves@.len() ==> (#[trigger] waves@[k])@.len() == n,
                col@ =~= column(waves@, j as int).subrange(0, i as int),
            decreases m - i,
        {
            col.push(waves[i][j]);
            i = i + 1;
        }
        assert(col@ =~= column(waves@, j as int));
        let b = bin_events(r, tss, col.as_slice());
        out.push(b);
        j = j + 1;
    }
    out
}

} // verus!
