use vstd::prelude::*;

verus! {

/// What a merge over storage sources of decreasing priority does next.
#[derive(Debug)]
pub enum StorageDecision {
    /// Source `k` has not ended and holds no item: it must be polled first.
    NeedInput(usize),
    /// Every source has ended.
    Done,
    /// Emit the head of `source`; drop the heads of the sources in `discard`,
    /// which are of lower priority and carry the same timestamp.
    Emit { source: usize, discard: Vec<usize> },
}

/// Source `k` has not ended and has no head item.
pub open spec fn waits(heads: Seq<Option<u64>>, completed: Seq<bool>, k: int) -> bool {
    !completed[k] && heads[k] is None
}

/// Timestamp of the head of source `k`.
pub open spec fn head_of(heads: Seq<Option<u64>>, k: int) -> u64 {
    heads[k]->Some_0
}

/// Source `j` wins: it has not ended, and its head comes first, before those
/// of all sources of higher priority and no later than the rest.
pub open spec fn wins(heads: Seq<Option<u64>>, completed: Seq<bool>, j: int) -> bool {
    &&& 0 <= j < heads.len()
    &&& !completed[j] && heads[j] is Some
    &&& forall|k: int|
        0 <= k < heads.len() && !completed[k] && #[trigger] heads[k] is Some ==> {
            &&& head_of(heads, j) <= head_of(heads, k)
            &&& k < j ==> head_of(heads, j) < head_of(heads, k)
        }
}

/// Decides the next step of a merge over sources listed by decreasing
/// priority, from the timestamp of each source's head item (`None`: none
/// held) and whether the source has ended.
pub fn decide_next_item(heads: &Vec<Option<u64>>, completed: &Vec<bool>) -> (r: StorageDecision)
    requires
        heads@.len() == completed@.len(),
    ensures
        r matches StorageDecision::NeedInput(k) ==> k < heads@.len() && waits(heads@, completed@, k as int)
            && forall|i: int| 0 <= i < k ==> !waits(heads@, completed@, i),
        r is Done <==> forall|i: int| 0 <= i < heads@.len() ==> #[trigger] completed@[i],
        r matches StorageDecision::Emit { source, discard } ==> {
            &&& forall|i: int| 0 <= i < heads@.len() ==> !waits(heads@, completed@, i)
            &&& wins(heads@, completed@, source as int)
            &&& forall|i: int|
                0 <= i < discard@.len() ==> source < #[trigger] discard@[i] < heads@.len()
                    && !completed@[discard@[i] as int] && head_of(heads@, discard@[i] as int)
                    == head_of(heads@, source as int)
            &&& forall|i: int, k: int| 0 <= i < k < discard@.len() ==> discard@[i] < discard@[k]
            &&& forall|k: int|
                source < k < heads@.len() && !completed@[k] && head_of(heads@, k) == head_of(
                    heads@,
                    source as int,
                ) ==> discard@.contains(k as usize)
        },
{
    let n = heads.len();
    let mut i: usize = 0;
    while i < n
        invariant
            i <= n,
            n == heads@.len(),
            n == completed@.len(),
            forall|k: int| 0 <= k < i ==> !waits(heads@, completed@, k),
        decreases n - i,
    {
        if !completed[i] && heads[i].is_none() {
            return StorageDecision::NeedInput(i);
        }
        i = i + 1;
    }
    let mut best: Option<usize> = None;
    let mut i: usize = 0;
    while i < n
        invariant
            i <= n,
            n == heads@.len(),
            n == completed@.len(),
            forall|k: int| 0 <= k < n ==> !waits(heads@, completed@, k),
            best is None ==> forall|k: int| 0 <= k < i ==> #[trigger] completed@[k],
            best matches Some(j) ==> {
                &&& j < i
                &&& !completed@[j as int] && heads@[j as int] is Some
                &&& forall|k: int|
                    0 <= k < i && !completed@[k] && #[trigger] heads@[k] is Some ==> {
                        &&& head_of(heads@, j as int) <= head_of(heads@, k)
                        &&& k < j ==> head_of(heads@, j as int) < head_of(heads@, k)
                    }
            },
        decreases n - i,
    {
        assert(!waits(heads@, completed@, i as int));
        if !completed[i] {
            match heads[i] {
                Some(t) => {
                    match best {
                        None => {
                            best = Some(i);
                        },
                        Some(j) => {
                            match heads[j] {
                                Some(bt) => {
                                    if t < bt {
                                        best = Some(i);
                                    }
                                },
                                None => {},
                            }
                        },
                    }
                },
                None => {},
            }
        }
        i = i + 1;
    }
    match best {
        None => StorageDecision::Done,
        Some(j) => {
            let t = match heads[j] {
                Some(t) => t,
                None => 0,
            };
            let mut discard: Vec<usize> = Vec::new();
            let mut k: usize = j + 1;
            while k < n
                invariant
                    j < k <= n,
                    n == heads@.len(),
                    n == completed@.len(),
                    heads@[j as int] == Some(t),
                    forall|i: int|
                        0 <= i < discard@.len() ==> j < #[trigger] discard@[i] < k && !completed@[discard@[i] as int]
                            && head_of(heads@, discard@[i] as int) == t,
                    forall|i: int, l: int| 0 <= i < l < discard@.len() ==> discard@[i] < discard@[l],
                    forall|m: int|
                        j < m < k && !completed@[m] && head_of(heads@, m) == t ==> discard@.contains(
                            m as usize,
                        ),
                    forall|m: int| 0 <= m < n ==> !waits(heads@, completed@, m),
                decreases n - k,
            {
                assert(!waits(heads@, completed@, k as int));
                if !completed[k] {
                    match heads[k] {
                        Some(u) => {
                            if u == t {
                                let ghost before = discard@;
                                discard.push(k);
                                proof {
                                    assert forall|m: int|
                                        j < m < k + 1 && !completed@[m] && head_of(heads@, m) == t implies discard@.contains(
                                        m as usize,
                                    ) by {
                                        if m < k {
                                            assert(before.contains(m as usize));
                                            let w = choose|w: int| 0 <= w < before.len() && before[w] == m as usize;
                                            assert(discard@[w] == m as usize);
                                        } else {
                                            assert(discard@[before.len() as int] == k);
                                        }
                                    }
                                }
                            }
                        },
                        None => {},
                    }
                }
                k = k + 1;
            }
            proof {
                assert(!(forall|i: int| 0 <= i < heads@.len() ==> #[trigger] completed@[i])) by {
                    assert(!completed@[j as int]);
                }
            }
            StorageDecision::Emit { source: j, discard }
        },
    }
}

/// Source `i` has ended and reported its range complete.
pub open spec fn source_done(completed: Seq<bool>, reported: Seq<bool>, i: int) -> bool {
    completed[i] && reported[i]
}

/// The merged stream's range is complete exactly when every source has
/// ended and reported its own range complete.
pub fn storage_range_complete(completed: &Vec<bool>, reported: &Vec<bool>) -> (r: bool)
    requires
        completed@.len() == reported@.len(),
    ensures
        r == (forall|i: int| 0 <= i < completed@.len() ==> #[trigger] source_done(completed@, reported@, i)),
{
    let n = completed.len();
    let mut i: usize = 0;
    while i < n
        invariant
            i <= n,
            n == completed@.len(),
            n == reported@.len(),
            forall|j: int| 0 <= j < i ==> #[trigger] source_done(completed@, reported@, j),
        decreases n - i,
    {
        if !completed[i] || !reported[i] {
            assert(!source_done(completed@, reported@, i as int));
            return false;
        }
        assert(source_done(completed@, reported@, i as int));
        i = i + 1;
    }
    true
}

} // verus!
