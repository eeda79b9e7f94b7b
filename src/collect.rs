use vstd::prelude::*;

verus! {

/// Gathers incoming byte chunks until at least `need_min` bytes are at hand.
pub struct NeedMinBuffer {
    pub left: Vec<u8>,
    pub need_min: usize,
}

impl NeedMinBuffer {
    /// An empty buffer that hands out any non-empty amount.
    pub fn new() -> (r: NeedMinBuffer)
        ensures
            r.left@.len() == 0,
            r.need_min == 1,
    {
        NeedMinBuffer { left: Vec::new(), need_min: 1 }
    }

    /// Sets how many bytes the next hand-out must hold at least.
    pub fn set_need_min(&mut self, need_min: usize)
        ensures
            final(self).need_min == need_min,
            final(self).left@ == old(self).left@,
    {
        self.need_min = need_min;
    }

    /// Returns bytes that the consumer could not use yet; they come first
    /// in the next hand-out.
    pub fn put_back(&mut self, buf: Vec<u8>)
        ensures
            final(self).left@ == buf@ + old(self).left@,
            final(self).need_min == old(self).need_min,
    {
        let mut buf = buf;
        let mut rest: Vec<u8> = Vec::new();
        std::mem::swap(&mut rest, &mut self.left);
        buf.append(&mut rest);
        self.left = buf;
    }

    /// Adds a chunk; hands out everything gathered once it reaches `need_min`.
    pub fn push(&mut self, chunk: Vec<u8>) -> (r: Option<Vec<u8>>)
        ensures
            final(self).need_min == old(self).need_min,
            (old(self).left@ + chunk@).len() >= old(self).need_min ==> (r matches Some(b) && b@ == old(
                self,
            ).left@ + chunk@ && final(self).left@.len() == 0),
            (old(self).left@ + chunk@).len() < old(self).need_min ==> r is None && final(self).left@
                == old(self).left@ + chunk@,
    {
        let mut chunk = chunk;
        self.left.append(&mut chunk);
        if self.left.len() >= self.need_min {
            let mut out: Vec<u8> = Vec::new();
            std::mem::swap(&mut out, &mut self.left);
            Some(out)
        } else {
            None
        }
    }
}

/// Accumulates the facts that the final response reports.
pub struct Collector {
    /// Events or bins received.
    pub count: u64,
    /// Bytes read by the producers, as their statistics reported them.
    pub bytes_read: u64,
    /// Some producer declared its range complete.
    pub range_complete_seen: bool,
    /// An error item arrived.
    pub errored: bool,
    /// The watchdog fired.
    pub timed_out: bool,
    /// Bins the query asked for; zero for an events query.
    pub bins_expected: u64,
}

impl Collector {
    /// A collector for a query that expects `bins_expected` bins.
    pub fn new(bins_expected: u64) -> (r: Collector)
        ensures
            r.count == 0,
            r.bytes_read == 0,
            !r.range_complete_seen,
            !r.errored,
            !r.timed_out,
            r.bins_expected == bins_expected,
    {
        Collector {
            count: 0,
            bytes_read: 0,
            range_complete_seen: false,
            errored: false,
            timed_out: false,
            bins_expected,
        }
    }

    /// A data item of `n` events or bins; the count saturates.
    pub fn ingest_data(&mut self, n: u64)
        ensures
            final(self).count == (if old(self).count + n > u64::MAX {
                u64::MAX as int
            } else {
                old(self).count + n
            }),
            final(self).bytes_read == old(self).bytes_read,
            final(self).range_complete_seen == old(self).range_complete_seen,
            final(self).errored == old(self).errored,
            final(self).timed_out == old(self).timed_out,
            final(self).bins_expected == old(self).bins_expected,
    {
        if n > u64::MAX - self.count {
            self.count = u64::MAX;
        } else {
            self.count = self.count + n;
        }
    }

    /// Read statistics of `bytes` bytes; the total saturates.
    pub fn ingest_bytes_read(&mut self, bytes: u64)
        ensures
            final(self).bytes_read == (if old(self).bytes_read + bytes > u64::MAX {
                u64::MAX as int
            } else {
                old(self).bytes_read + bytes
            }),
            final(self).count == old(self).count,
            final(self).range_complete_seen == old(self).range_complete_seen,
            final(self).errored == old(self).errored,
            final(self).timed_out == old(self).timed_out,
            final(self).bins_expected == old(self).bins_expected,
    {
        if bytes > u64::MAX - self.bytes_read {
            self.bytes_read = u64::MAX;
        } else {
            self.bytes_read = self.bytes_read + bytes;
        }
    }

    /// The range-complete signal.
    pub fn ingest_range_complete(&mut self)
        ensures
            *final(self) == (Collector { range_complete_seen: true, ..*old(self) }),
    {
        self.range_complete_seen = true;
    }

    /// An error item.
    pub fn ingest_error(&mut self)
        ensures
            *final(self) == (Collector { errored: true, ..*old(self) }),
    {
        self.errored = true;
    }

    /// The watchdog's deadline passed.
    pub fn set_timed_out(&mut self)
        ensures
            *final(self) == (Collector { timed_out: true, ..*old(self) }),
    {
        self.timed_out = true;
    }

    /// The range is final: it was declared complete and no error came.
    pub fn range_final(&self) -> (r: bool)
        ensures
            r == (self.range_complete_seen && !self.errored),
    {
        self.range_complete_seen && !self.errored
    }

    /// Bins asked for that did not arrive.
    pub fn missing_bins(&self) -> (r: u64)
        ensures
            r == (if self.bins_expected > self.count {
                self.bins_expected - self.count
            } else {
                0
            }),
    {
        if self.bins_expected > self.count {
            self.bins_expected - self.count
        } else {
            0
        }
    }
}

/// What becomes of a peer's failure in a cluster-wide query.
#[derive(PartialEq, Eq, Structural, Clone, Copy, Debug)]
pub enum PeerFailure {
    /// Other peers still answer: the failure is logged and they go on.
    Log,
    /// Every peer has failed: the failure is logged and the stream ends in error.
    LogAndError,
}

/// Which peers of a cluster-wide query have failed.
pub struct Fanout {
    pub failed: Vec<bool>,
}

impl Fanout {
    /// No peer has failed.
    pub open spec fn none_failed(&self) -> bool {
        forall|k: int| 0 <= k < self.failed@.len() ==> !#[trigger] self.failed@[k]
    }

    /// Every peer has failed.
    pub open spec fn all_failed(&self) -> bool {
        forall|k: int| 0 <= k < self.failed@.len() ==> #[trigger] self.failed@[k]
    }

    /// A query over `n` peers, none failed.
    pub fn new(n: usize) -> (r: Fanout)
        ensures
            r.failed@.len() == n,
            r.none_failed(),
    {
        let mut failed: Vec<bool> = Vec::new();
        let mut i: usize = 0;
        while i < n
            invariant
                i <= n,
                failed@.len() == i,
                forall|k: int| 0 <= k < i ==> !#[trigger] failed@[k],
            decreases n - i,
        {
            failed.push(false);
            i = i + 1;
        }
        Fanout { failed }
    }

    /// Peer `k` failed: the stream ends in error only once all have.
    pub fn peer_failed(&mut self, k: usize) -> (r: PeerFailure)
        requires
            k < old(self).failed@.len(),
        ensures
            final(self).failed@ == old(self).failed@.update(k as int, true),
            r == (if final(self).all_failed() {
                PeerFailure::LogAndError
            } else {
                PeerFailure::Log
            }),
    {
        self.failed.set(k, true);
        let n = self.failed.len();
        let mut i: usize = 0;
        while i < n
            invariant
                i <= n,
                n == self.failed@.len(),
                k < n,
                self.failed@ == old(self).failed@.update(k as int, true),
                forall|j: int| 0 <= j < i ==> #[trigger] self.failed@[j],
            decreases n - i,
        {
            if !self.failed[i] {
                assert(!self.failed@[i as int]);
                return PeerFailure::Log;
            }
            i = i + 1;
        }
        PeerFailure::LogAndError
    }

    /// The response may claim a final range only when no peer failed.
    pub fn range_final_allowed(&self) -> (r: bool)
        ensures
            r == self.none_failed(),
    {
        let n = self.failed.len();
        let mut i: usize = 0;
        while i < n
            invariant
                i <= n,
                n == self.failed@.len(),
                forall|j: int| 0 <= j < i ==> !#[trigger] self.failed@[j],
            decreases n - i,
        {
            if self.failed[i] {
                return false;
            }
            i = i + 1;
        }
        true
    }
}

} // verus!
