use crate::endian::{le_nat, le_u64, push_le_u64, read_le_u32};
use crate::netpod::Channel;
use tiny_keccak::Hasher;
use vstd::prelude::*;

verus! {

/// Nanoseconds in one second.
pub const SEC: u64 = 1_000_000_000;

/// Nanoseconds in one minute.
pub const MIN: u64 = 60_000_000_000;

/// Nanoseconds in one hour.
pub const HOUR: u64 = 3_600_000_000_000;

/// Nanoseconds in one day.
pub const DAY: u64 = 86_400_000_000_000;

/// Canonical bin lengths, finest first. Each divides the next by a factor
/// between 2 and 20, so that bins align with wall-clock seconds, minutes,
/// hours and days.
pub open spec fn granularity_table() -> Seq<u64> {
    seq![SEC, 10_000_000_000u64, MIN, 600_000_000_000u64, HOUR, 21_600_000_000_000u64, DAY]
}

/// One patch: a run of `patch_len / bin_len` bins of length `bin_len`,
/// covering `[index * patch_len, (index + 1) * patch_len)`.
#[derive(PartialEq, Eq, Structural, Clone, Copy, Debug)]
pub struct PatchCoord {
    pub bin_len: u64,
    pub patch_len: u64,
    pub index: u64,
}

impl PatchCoord {
    /// Bin length positive, patch length a positive multiple of it, and the
    /// patch's end representable.
    pub open spec fn wf(&self) -> bool {
        &&& self.bin_len > 0
        &&& self.patch_len > 0
        &&& self.patch_len % self.bin_len == 0
        &&& (self.index + 1) * self.patch_len <= u64::MAX
    }

    pub open spec fn beg_spec(&self) -> int {
        self.index * self.patch_len
    }

    pub open spec fn end_spec(&self) -> int {
        (self.index + 1) * self.patch_len
    }

    /// The coordinate, if it is well formed.
    pub fn new(bin_len: u64, patch_len: u64, index: u64) -> (r: Option<PatchCoord>)
        ensures
            r matches Some(c) ==> c.wf() && c.bin_len == bin_len && c.patch_len == patch_len
                && c.index == index,
            r is None <==> !(PatchCoord { bin_len, patch_len, index }).wf(),
    {
        if bin_len == 0 || patch_len == 0 || patch_len % bin_len != 0 {
            return None;
        }
        if index >= u64::MAX / patch_len {
            proof {
                assert((index + 1) * patch_len > u64::MAX) by (nonlinear_arith)
                    requires
                        index >= u64::MAX / patch_len,
                        patch_len > 0,
                ;
            }
            return None;
        }
        proof {
            assert((index + 1) * patch_len <= u64::MAX) by (nonlinear_arith)
                requires
                    index < u64::MAX / patch_len,
                    patch_len > 0,
            ;
        }
        Some(PatchCoord { bin_len, patch_len, index })
    }

    /// Start of the patch's span.
    pub fn patch_beg(&self) -> (r: u64)
        requires
            self.wf(),
        ensures
            r == self.beg_spec(),
    {
        proof {
            assert(self.index * self.patch_len <= (self.index + 1) * self.patch_len) by (nonlinear_arith);
        }
        self.index * self.patch_len
    }

    /// End of the patch's span.
    pub fn patch_end(&self) -> (r: u64)
        requires
            self.wf(),
        ensures
            r == self.end_spec(),
    {
        proof {
            assert(self.index + 1 <= (self.index + 1) * self.patch_len) by (nonlinear_arith)
                requires
                    self.patch_len > 0,
            ;
        }
        (self.index + 1) * self.patch_len
    }

    /// Number of bins in the patch.
    pub fn bin_count(&self) -> (r: u64)
        requires
            self.wf(),
        ensures
            r == self.patch_len / self.bin_len,
    {
        self.patch_len / self.bin_len
    }
}

/// The SHA3-256 digest of a byte sequence.
pub uninterp spec fn sha3_256_of(b: Seq<u8>) -> Seq<u8>;

/// Relies on `tiny_keccak::Sha3::v256` with one `update` and `finalize`:
/// the SHA3-256 digest of `b`, a function of the bytes alone, 32 bytes long.
#[verifier::external_body]
fn sha3_256(b: &[u8]) -> (r: Vec<u8>)
    ensures
        r@ == sha3_256_of(b@),
        r@.len() == 32,
{
    let mut h = tiny_keccak::Sha3::v256();
    h.update(b);
    let mut out = [0u8; 32];
    h.finalize(&mut out);
    out.to_vec()
}

/// The bytes hashed to place a patch: backend, name, patch start, patch
/// end and bin length, the integers little-endian.
pub open spec fn placement_bytes(backend: Seq<u8>, name: Seq<u8>, c: PatchCoord) -> Seq<u8> {
    backend + name + le_u64(c.beg_spec() as u64) + le_u64(c.end_spec() as u64) + le_u64(c.bin_len)
}

/// The node that owns a patch: the first four digest bytes, little-endian,
/// modulo the node count.
pub open spec fn owner_spec(backend: Seq<u8>, name: Seq<u8>, c: PatchCoord, nodes: u32) -> nat {
    le_nat(sha3_256_of(placement_bytes(backend, name, c)).subrange(0, 4)) % (nodes as nat)
}

/// Index of the node that owns patch `c` of `channel` in a cluster of
/// `node_count` nodes.
pub fn node_ix_for_patch(c: &PatchCoord, channel: &Channel, node_count: u32) -> (r: u32)
    requires
        c.wf(),
        node_count > 0,
    ensures
        r == owner_spec(
            vstd::utf8::encode_utf8(channel.backend@),
            vstd::utf8::encode_utf8(channel.name@),
            *c,
            node_count,
        ),
        r < node_count,
{
    let mut buf: Vec<u8> = Vec::new();
    let b = channel.backend.as_str().as_bytes();
    let n = channel.name.as_str().as_bytes();
    append_bytes(&mut buf, b);
    append_bytes(&mut buf, n);
    push_le_u64(&mut buf, c.patch_beg());
    push_le_u64(&mut buf, c.patch_end());
    push_le_u64(&mut buf, c.bin_len);
    let digest = sha3_256(buf.as_slice());
    let word = read_le_u32(digest.as_slice(), 0);
    word % node_count
}

/// Appends the bytes of `b`.
pub fn append_bytes(out: &mut Vec<u8>, b: &[u8])
    ensures
        final(out)@ == old(out)@ + b@,
{
    let mut i: usize = 0;
    while i < b.len()
        invariant
            i <= b@.len(),
            out@ == old(out)@ + b@.subrange(0, i as int),
        decreases b@.len() - i,
    {
        out.push(b[i]);
        i = i + 1;
        assert(out@ =~= old(out)@ + b@.subrange(0, i as int));
    }
    assert(b@.subrange(0, b@.len() as int) =~= b@);
}

/// Placing the same patch of the same channel in the same cluster gives the
/// same node every time, and a node of the cluster.
pub proof fn lemma_patch_assignment_stable(
    backend: Seq<u8>,
    name: Seq<u8>,
    c: PatchCoord,
    d: PatchCoord,
    nodes: u32,
)
    requires
        c == d,
        nodes > 0,
    ensures
        owner_spec(backend, name, c, nodes) == owner_spec(backend, name, d, nodes),
        owner_spec(backend, name, c, nodes) < nodes,
{
}

/// `h` can refine bin length `g`: it divides `g` and `g / h` lies in `[2, 200]`.
pub open spec fn refines(h: u64, g: u64) -> bool {
    h > 0 && g % h == 0 && 2 <= g / h <= 200
}

/// The first entry of `t` that refines `g`.
pub open spec fn first_refining(t: Seq<u64>, g: u64) -> Option<u64>
    decreases t.len(),
{
    if t.len() == 0 {
        None
    } else if refines(t[0], g) {
        Some(t[0])
    } else {
        first_refining(t.drop_first(), g)
    }
}

proof fn lemma_first_refining(t: Seq<u64>, g: u64, i: int)
    requires
        0 <= i <= t.len(),
        forall|j: int| 0 <= j < i ==> !refines(#[trigger] t[j], g),
    ensures
        first_refining(t, g) == first_refining(t.subrange(i, t.len() as int), g),
    decreases i,
{
    if i > 0 {
        assert(!refines(t[0], g));
        let d = t.drop_first();
        assert forall|j: int| 0 <= j < i - 1 implies !refines(#[trigger] d[j], g) by {
            assert(d[j] == t[j + 1]);
        }
        lemma_first_refining(d, g, i - 1);
        assert(d.subrange(i - 1, d.len() as int) =~= t.subrange(i, t.len() as int));
    } else {
        assert(t.subrange(0, t.len() as int) =~= t);
    }
}

proof fn lemma_first_refining_fits(t: Seq<u64>, g: u64)
    ensures
        first_refining(t, g) matches Some(h) ==> refines(h, g),
    decreases t.len(),
{
    if t.len() > 0 && !refines(t[0], g) {
        lemma_first_refining_fits(t.drop_first(), g);
    }
}

/// The canonical bin lengths.
pub fn granularities() -> (r: Vec<u64>)
    ensures
        r@ == granularity_table(),
{
    let r: Vec<u64> = vec![SEC, 10_000_000_000u64, MIN, 600_000_000_000u64, HOUR, 21_600_000_000_000u64, DAY];
    assert(r@ =~= granularity_table());
    r
}

/// The finest canonical bin length that refines `g`, if any.
pub fn finer_granularity(g: u64) -> (r: Option<u64>)
    ensures
        r == first_refining(granularity_table(), g),
{
    let t = granularities();
    let mut i: usize = 0;
    while i < t.len()
        invariant
            t@ == granularity_table(),
            i <= t@.len(),
            forall|j: int| 0 <= j < i ==> !refines(#[trigger] t@[j], g),
        decreases t@.len() - i,
    {
        let h = t[i];
        if h > 0 && g % h == 0 && 2 <= g / h && g / h <= 200 {
            proof {
                lemma_first_refining(t@, g, i as int);
            }
            return Some(h);
        }
        i = i + 1;
    }
    proof {
        lemma_first_refining(t@, g, i as int);
    }
    None
}

/// Whether a request may read the cache, and whether it writes what it computes.
#[derive(PartialEq, Eq, Structural, Clone, Copy, Debug)]
pub enum CacheUsage {
    Use,
    Ignore,
    Recompute,
}

/// Where the bins of a patch come from.
#[derive(PartialEq, Eq, Structural, Clone, Copy, Debug)]
pub enum PatchSource {
    /// The complete cache file.
    Cached,
    /// `count` patches of the finer bin length `bin_len`, with indices from
    /// `first_index` on, each `patch_len` long: together they cover the patch.
    Finer { bin_len: u64, patch_len: u64, first_index: u64, count: u64 },
    /// Raw events of `[beg, end)`, binned into `bin_count` bins.
    Raw { beg: u64, end: u64, bin_count: u64 },
}

/// What serving patch `c` draws on.
pub open spec fn plan_spec(c: PatchCoord, usage: CacheUsage, cached_complete: bool) -> PatchSource {
    if usage == CacheUsage::Use && cached_complete {
        PatchSource::Cached
    } else {
        match first_refining(granularity_table(), c.bin_len) {
            Some(h) => {
                let ratio = c.bin_len / h;
                PatchSource::Finer {
                    bin_len: h,
                    patch_len: (c.patch_len / ratio) as u64,
                    first_index: (c.index * ratio) as u64,
                    count: ratio as u64,
                }
            },
            None => PatchSource::Raw {
                beg: c.beg_spec() as u64,
                end: c.end_spec() as u64,
                bin_count: (c.patch_len / c.bin_len) as u64,
            },
        }
    }
}

/// Decides where the bins of patch `c` come from: the cache file when the
/// request may use it and it is complete; else the finest canonical bin
/// length that refines the patch's; else the raw events.
pub fn serve_plan(c: &PatchCoord, usage: CacheUsage, cached_complete: bool) -> (r: PatchSource)
    requires
        c.wf(),
    ensures
        r == plan_spec(*c, usage, cached_complete),
        r matches PatchSource::Finer { bin_len, patch_len, first_index, count } ==> {
            &&& 2 <= count <= 200
            &&& first_index * patch_len == c.beg_spec()
            &&& (first_index + count) * patch_len == c.end_spec()
            &&& patch_len % bin_len == 0
        },
{
    if usage == CacheUsage::Use && cached_complete {
        return PatchSource::Cached;
    }
    let fg = finer_granularity(c.bin_len);
    proof {
        lemma_first_refining_fits(granularity_table(), c.bin_len);
    }
    match fg {
        Some(h) => {
            let ratio = c.bin_len / h;
            let g = c.bin_len;
            let pl = c.patch_len;
            let ix = c.index;
            proof {
                vstd::arithmetic::div_mod::lemma_fundamental_div_mod(g as int, h as int);
                vstd::arithmetic::div_mod::lemma_fundamental_div_mod(pl as int, g as int);
                let k = pl / g;
                assert(pl == g * k);
                assert(k >= 1) by (nonlinear_arith)
                    requires
                        pl == g * k,
                        pl > 0,
                        g > 0,
                ;
                assert(pl == k * ratio * h) by (nonlinear_arith)
                    requires
                        g == h * ratio,
                        pl == g * k + pl % g,
                        pl % g == 0,
                ;
                assert((k * h) * ratio == pl) by (nonlinear_arith)
                    requires
                        pl == k * ratio * h,
                ;
                vstd::arithmetic::div_mod::lemma_div_multiples_vanish(k * h, ratio as int);
                assert(ratio * (k * h) == pl) by (nonlinear_arith)
                    requires
                        (k * h) * ratio == pl,
                ;
                assert(pl / ratio == k * h);
                assert((ix * ratio) * (k * h) == ix * pl) by (nonlinear_arith)
                    requires
                        pl == k * ratio * h,
                ;
                assert((ix * ratio + ratio) * (k * h) == (ix + 1) * pl) by (nonlinear_arith)
                    requires
                        pl == k * ratio * h,
                ;
                assert(ix * ratio <= ix * pl) by (nonlinear_arith)
                    requires
                        pl == k * ratio * h,
                        k >= 1,
                        h >= 1,
                ;
                assert(ix * pl <= (ix + 1) * pl) by (nonlinear_arith)
                    requires
                        pl > 0,
                ;
                assert((k * h) % (h as int) == 0) by {
                    vstd::arithmetic::div_mod::lemma_mod_multiples_basic(k as int, h as int);
                    assert(k * h == h * k) by (nonlinear_arith);
                }
            }
            PatchSource::Finer {
                bin_len: h,
                patch_len: pl / ratio,
                first_index: ix * ratio,
                count: ratio,
            }
        },
        None => PatchSource::Raw {
            beg: c.patch_beg(),
            end: c.patch_end(),
            bin_count: c.bin_count(),
        },
    }
}

/// The request writes what it computes to the cache.
pub fn writes_cache(usage: CacheUsage) -> (r: bool)
    ensures
        r == (usage != CacheUsage::Ignore),
{
    match usage {
        CacheUsage::Ignore => false,
        _ => true,
    }
}

} // verus!
