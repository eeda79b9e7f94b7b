use crate::frame::{
    check_frame, frame_bytes, lemma_frame_prefix, make_frame, parse_frame, FrameCheck, FrameError,
    FrameParse, FRAME_TYPE_TERM,
};
use crate::patch::{plan_spec, CacheUsage, PatchCoord, PatchSource};
use vstd::prelude::*;

verus! {

/// The frames of a cache record before its terminator: one per payload, in order.
pub open spec fn record_body(ty: u32, ps: Seq<Seq<u8>>) -> Seq<u8>
    decreases ps.len(),
{
    if ps.len() == 0 {
        Seq::empty()
    } else {
        record_body(ty, ps.drop_last()) + frame_bytes(ty, ps.last())
    }
}

/// A whole cache record: the frames of the payloads and a terminator frame.
pub open spec fn patch_record(ty: u32, ps: Seq<Seq<u8>>) -> Seq<u8> {
    record_body(ty, ps) + frame_bytes(FRAME_TYPE_TERM, Seq::empty())
}

/// `b` is a run of valid frames whose last, and only last, is a terminator
/// that ends exactly at the end of `b`.
pub open spec fn record_complete(b: Seq<u8>, cap: nat) -> bool
    decreases b.len(),
{
    match check_frame(b, cap) {
        FrameCheck::Whole(ty, _, total) => {
            if ty == FRAME_TYPE_TERM {
                total == b.len()
            } else if 0 < total <= b.len() {
                record_complete(b.subrange(total as int, b.len() as int), cap)
            } else {
                false
            }
        },
        _ => false,
    }
}

proof fn lemma_body_front(ty: u32, ps: Seq<Seq<u8>>)
    requires
        ps.len() > 0,
    ensures
        record_body(ty, ps) == frame_bytes(ty, ps[0]) + record_body(ty, ps.drop_first()),
    decreases ps.len(),
{
    if ps.len() > 1 {
        lemma_body_front(ty, ps.drop_last());
        assert(ps.drop_last().drop_first() =~= ps.drop_first().drop_last());
        assert(ps.drop_first().last() == ps.last());
    } else {
        assert(ps.drop_last() =~= Seq::<Seq<u8>>::empty());
        assert(ps.drop_first() =~= Seq::<Seq<u8>>::empty());
    }
}

proof fn lemma_frame_len(ty: u32, p: Seq<u8>)
    requires
        p.len() <= u32::MAX,
    ensures
        frame_bytes(ty, p).len() == p.len() + 24,
{
    crate::frame::lemma_frame_layout(ty, p);
}

/// A record made of payloads within the cap is complete.
pub proof fn lemma_record_complete(ty: u32, ps: Seq<Seq<u8>>, cap: nat)
    requires
        ty != FRAME_TYPE_TERM,
        forall|i: int| 0 <= i < ps.len() ==> (#[trigger] ps[i]).len() <= cap && ps[i].len() <= u32::MAX,
    ensures
        record_complete(patch_record(ty, ps), cap),
    decreases ps.len(),
{
    let term = frame_bytes(FRAME_TYPE_TERM, Seq::empty());
    if ps.len() == 0 {
        lemma_frame_prefix(FRAME_TYPE_TERM, Seq::empty(), Seq::empty(), cap);
        assert(term + Seq::<u8>::empty() =~= term);
        assert(patch_record(ty, ps) =~= term);
        lemma_frame_len(FRAME_TYPE_TERM, Seq::empty());
    } else {
        lemma_body_front(ty, ps);
        let f = frame_bytes(ty, ps[0]);
        let rest = patch_record(ty, ps.drop_first());
        assert(patch_record(ty, ps) =~= f + rest);
        lemma_frame_prefix(ty, ps[0], rest, cap);
        lemma_frame_len(ty, ps[0]);
        assert((f + rest).subrange(f.len() as int, (f + rest).len() as int) =~= rest);
        assert forall|i: int| 0 <= i < ps.drop_first().len() implies (#[trigger] ps.drop_first()[i]).len()
            <= cap && ps.drop_first()[i].len() <= u32::MAX by {
            assert(ps.drop_first()[i] == ps[i + 1]);
        }
        lemma_record_complete(ty, ps.drop_first(), cap);
    }
}

/// Frames the payloads of a patch as one cache record, terminator last.
pub fn encode_patch(ty: u32, payloads: &Vec<Vec<u8>>) -> (r: Result<Vec<u8>, FrameError>)
    ensures
        ({
            let ps = payloads@.map_values(|p: Vec<u8>| p@);
            &&& (forall|i: int| 0 <= i < ps.len() ==> (#[trigger] ps[i]).len() <= u32::MAX) ==> (
            r matches Ok(b) && b@ == patch_record(ty, ps))
            &&& (exists|i: int| 0 <= i < ps.len() && (#[trigger] ps[i]).len() > u32::MAX) ==> r
                == Err::<Vec<u8>, FrameError>(FrameError::PayloadTooLarge)
        }),
{
    let ghost ps = payloads@.map_values(|p: Vec<u8>| p@);
    let mut out: Vec<u8> = Vec::new();
    let mut i: usize = 0;
    while i < payloads.len()
        invariant
            i <= payloads@.len(),
            ps == payloads@.map_values(|p: Vec<u8>| p@),
            out@ == record_body(ty, ps.subrange(0, i as int)),
            forall|j: int| 0 <= j < i ==> (#[trigger] ps[j]).len() <= u32::MAX,
        decreases payloads@.len() - i,
    {
        let f = make_frame(ty, payloads[i].as_slice());
        match f {
            Ok(bytes) => {
                let mut bytes = bytes;
                proof {
                    assert(ps.subrange(0, i + 1).drop_last() =~= ps.subrange(0, i as int));
                    assert(ps.subrange(0, i + 1).last() == payloads@[i as int]@);
                }
                out.append(&mut bytes);
            },
            Err(e) => {
                assert(ps[i as int].len() > u32::MAX);
                return Err(e);
            },
        }
        i = i + 1;
    }
    assert(ps.subrange(0, i as int) =~= ps);
    let empty: Vec<u8> = Vec::new();
    let term = make_frame(FRAME_TYPE_TERM, empty.as_slice());
    match term {
        Ok(t) => {
            let mut t = t;
            out.append(&mut t);
            Ok(out)
        },
        Err(e) => Err(e),
    }
}

/// Whether `buf` holds a complete cache record: valid frames, the last a
/// terminator that ends the buffer. A partly written file is not complete.
pub fn is_record_complete(buf: &[u8], cap: u32) -> (r: bool)
    ensures
        r == record_complete(buf@, cap as nat),
{
    let len = buf.len();
    let mut off: usize = 0;
    assert(buf@.subrange(0, len as int) =~= buf@);
    while off < len
        invariant
            off <= len,
            len == buf@.len(),
            record_complete(buf@, cap as nat) == record_complete(buf@.subrange(off as int, len as int), cap as nat),
        decreases len - off,
    {
        let rest = &buf[off..len];
        match parse_frame(rest, cap) {
            Ok(FrameParse::Complete(f, total)) => {
                if f.frame_type == FRAME_TYPE_TERM {
                    return total == len - off;
                }
                if total == 0 || total > len - off {
                    return false;
                }
                proof {
                    assert(rest@.subrange(total as int, rest@.len() as int) =~= buf@.subrange(
                        off + total,
                        len as int,
                    ));
                }
                off = off + total;
            },
            _ => {
                return false;
            },
        }
    }
    proof {
        assert(check_frame(buf@.subrange(off as int, len as int), cap as nat) is Short);
    }
    false
}

/// What a cache file serves: all of its bytes, when it is a complete record.
pub open spec fn served_from_cache(b: Seq<u8>, cap: nat) -> Option<Seq<u8>> {
    if record_complete(b, cap) {
        Some(b)
    } else {
        None
    }
}

/// The bytes a cache file serves: a copy of the whole file when it is a
/// complete record, `None` when it is partial or damaged and must be
/// recomputed.
pub fn serve_from_cache(file: &[u8], cap: u32) -> (r: Option<Vec<u8>>)
    ensures
        match served_from_cache(file@, cap as nat) {
            Some(b) => (r matches Some(v) && v@ == b),
            None => r is None,
        },
{
    if is_record_complete(file, cap) {
        let n = file.len();
        Some(crate::chunker::copy_range(file, 0, n))
    } else {
        None
    }
}

/// Serving a patch cold and then again yields the same bytes. The cold
/// path serves, and writes to the cache, the record of the computed
/// payloads (`encode_patch`); that record is complete, so the next request
/// that uses the cache is planned from it and served those very bytes.
pub proof fn lemma_cache_idempotent(c: PatchCoord, ty: u32, ps: Seq<Seq<u8>>, cap: nat)
    requires
        ty != FRAME_TYPE_TERM,
        forall|i: int| 0 <= i < ps.len() ==> (#[trigger] ps[i]).len() <= cap && ps[i].len() <= u32::MAX,
    ensures
        record_complete(patch_record(ty, ps), cap),
        plan_spec(c, CacheUsage::Use, record_complete(patch_record(ty, ps), cap)) == PatchSource::Cached,
        served_from_cache(patch_record(ty, ps), cap) == Some(patch_record(ty, ps)),
{
    lemma_record_complete(ty, ps, cap);
}

/// A patch of a channel, as the key of a computation in flight.
pub struct PatchKey {
    pub coord: PatchCoord,
    pub backend: String,
    pub name: String,
}

/// What identifies a key.
pub open spec fn key_view(k: PatchKey) -> (PatchCoord, Seq<char>, Seq<char>) {
    (k.coord, k.backend@, k.name@)
}

/// Some key of `s` is `k`.
pub open spec fn contains_key(s: Seq<PatchKey>, k: (PatchCoord, Seq<char>, Seq<char>)) -> bool {
    exists|i: int| 0 <= i < s.len() && key_view(#[trigger] s[i]) == k
}

/// What a request for a patch does.
#[derive(PartialEq, Eq, Structural, Clone, Copy, Debug)]
pub enum Claim {
    /// No computation of the patch is in flight: this request builds it.
    Build,
    /// A computation is in flight: this request waits for its result.
    Attach,
}

/// The patches whose computation is in flight on this node.
pub struct InFlight {
    pub keys: Vec<PatchKey>,
}

impl InFlight {
    /// A computation for `k` is in flight.
    pub open spec fn has(&self, k: (PatchCoord, Seq<char>, Seq<char>)) -> bool {
        contains_key(self.keys@, k)
    }

    /// What `begin` promises: `Build` exactly when nothing for the key was in
    /// flight, and afterwards the key is in flight; no other key changes.
    pub open spec fn begin_post(
        before: InFlight,
        k: (PatchCoord, Seq<char>, Seq<char>),
        after: InFlight,
        c: Claim,
    ) -> bool {
        &&& c == (if before.has(k) {
            Claim::Attach
        } else {
            Claim::Build
        })
        &&& after.has(k)
        &&& forall|j: (PatchCoord, Seq<char>, Seq<char>)| j != k ==> (after.has(j) == before.has(j))
    }

    /// No computation in flight.
    pub fn new() -> (r: InFlight)
        ensures
            forall|k: (PatchCoord, Seq<char>, Seq<char>)| !r.has(k),
    {
        InFlight { keys: Vec::new() }
    }

    fn find(&self, key: &PatchKey) -> (r: Option<usize>)
        ensures
            r is None <==> !self.has(key_view(*key)),
            r matches Some(i) ==> i < self.keys@.len() && key_view(self.keys@[i as int]) == key_view(
                *key,
            ),
    {
        let mut i: usize = 0;
        while i < self.keys.len()
            invariant
                i <= self.keys@.len(),
                forall|j: int| 0 <= j < i ==> key_view(#[trigger] self.keys@[j]) != key_view(*key),
            decreases self.keys@.len() - i,
        {
            let k = &self.keys[i];
            if k.coord == key.coord && k.backend == key.backend && k.name == key.name {
                return Some(i);
            }
            i = i + 1;
        }
        None
    }

    /// A request for the patch `key`: the first one builds, later ones attach
    /// to the computation in flight.
    pub fn begin(&mut self, key: PatchKey) -> (c: Claim)
        ensures
            InFlight::begin_post(*old(self), key_view(key), *final(self), c),
    {
        match self.find(&key) {
            Some(_) => Claim::Attach,
            None => {
                let ghost kv = key_view(key);
                let ghost before = self.keys@;
                self.keys.push(key);
                proof {
                    assert(key_view(self.keys@[before.len() as int]) == kv);
                    assert forall|j: (PatchCoord, Seq<char>, Seq<char>)| j != kv implies (self.has(j)
                        == old(self).has(j)) by {
                        if old(self).has(j) {
                            let i = choose|i: int| 0 <= i < before.len() && key_view(#[trigger] before[i]) == j;
                            assert(self.keys@[i] == before[i]);
                        }
                        if self.has(j) {
                            let i = choose|i: int| 0 <= i < self.keys@.len() && key_view(#[trigger] self.keys@[i]) == j;
                            assert(i < before.len());
                            assert(self.keys@[i] == before[i]);
                        }
                    }
                }
                Claim::Build
            },
        }
    }

    /// The computation of `key` has ended: the next request builds anew.
    pub fn finish(&mut self, key: &PatchKey)
        ensures
            !final(self).has(key_view(*key)),
            forall|j: (PatchCoord, Seq<char>, Seq<char>)|
                j != key_view(*key) ==> (final(self).has(j) == old(self).has(j)),
    {
        let mut kept: Vec<PatchKey> = Vec::new();
        let ghost orig = self.keys@;
        let ghost kv = key_view(*key);
        while self.keys.len() > 0
            invariant
                kv == key_view(*key),
                forall|j: (PatchCoord, Seq<char>, Seq<char>)|
                    j != kv ==> (#[trigger] contains_key(orig, j) == (contains_key(self.keys@, j)
                        || contains_key(kept@, j))),
                forall|i: int| 0 <= i < kept@.len() ==> key_view(#[trigger] kept@[i]) != kv,
            decreases self.keys@.len(),
        {
            let ghost before_keys = self.keys@;
            let ghost before_kept = kept@;
            let k = self.keys.pop().unwrap();
            let same_coord = k.coord == key.coord;
            let same_backend = k.backend == key.backend;
            let same_name = k.name == key.name;
            let same = same_coord && same_backend && same_name;
            proof {
                assert(before_keys =~= self.keys@.push(k));
                assert(same == (key_view(k) == kv));
            }
            if !same {
                kept.push(k);
            }
            proof {
                assert forall|j: (PatchCoord, Seq<char>, Seq<char>)| j != kv implies (
                #[trigger] contains_key(orig, j) == (contains_key(self.keys@, j) || contains_key(
                    kept@,
                    j,
                ))) by {
                    assert(contains_key(orig, j) == (contains_key(before_keys, j) || contains_key(
                        before_kept,
                        j,
                    )));
                    if contains_key(before_keys, j) {
                        let i = choose|i: int| 0 <= i < before_keys.len() && key_view(#[trigger] before_keys[i]) == j;
                        if i < self.keys@.len() {
                            assert(self.keys@[i] == before_keys[i]);
                        } else {
                            assert(before_keys[i] == k);
                            assert(!same);
                            assert(kept@[kept@.len() - 1] == k);
                        }
                    }
                    if contains_key(self.keys@, j) {
                        let i = choose|i: int| 0 <= i < self.keys@.len() && key_view(#[trigger] self.keys@[i]) == j;
                        assert(before_keys[i] == self.keys@[i]);
                    }
                    if contains_key(kept@, j) {
                        let i = choose|i: int| 0 <= i < kept@.len() && key_view(#[trigger] kept@[i]) == j;
                        if i < before_kept.len() {
                            assert(kept@[i] == before_kept[i]);
                        } else {
                            assert(before_keys[before_keys.len() - 1] == k);
                        }
                    }
                    if contains_key(before_kept, j) {
                        let i = choose|i: int| 0 <= i < before_kept.len() && key_view(#[trigger] before_kept[i]) == j;
                        assert(kept@[i] == before_kept[i]);
                    }
                }
                assert forall|i: int| 0 <= i < kept@.len() implies key_view(#[trigger] kept@[i]) != kv by {
                    if i < before_kept.len() {
                        assert(kept@[i] == before_kept[i]);
                    } else {
                        assert(!same);
                        assert(kept@[i] == k);
                    }
                }
            }
        }
        proof {
            assert forall|j: (PatchCoord, Seq<char>, Seq<char>)| j != kv implies contains_key(kept@, j)
                == #[trigger] contains_key(orig, j) by {
                assert(!contains_key(self.keys@, j));
            }
        }
        self.keys = kept;
    }
}

/// Two requests for the same patch with no finish between them start the
/// computation at most once, and exactly once when none was in flight.
pub proof fn lemma_coalescing(
    t0: InFlight,
    t1: InFlight,
    t2: InFlight,
    k: (PatchCoord, Seq<char>, Seq<char>),
    c1: Claim,
    c2: Claim,
)
    requires
        InFlight::begin_post(t0, k, t1, c1),
        InFlight::begin_post(t1, k, t2, c2),
    ensures
        !(c1 == Claim::Build && c2 == Claim::Build),
        !t0.has(k) ==> c1 == Claim::Build && c2 == Claim::Attach,
        t0.has(k) ==> c1 == Claim::Attach && c2 == Claim::Attach,
{
}

} // verus!
