use vstd::prelude::*;

verus! {

/// One event of a channel: timestamp in nanoseconds, pulse id, and the value
/// bytes as they stood in the container file.
pub struct Event {
    pub ts: u64,
    pub pulse: u64,
    pub value: Vec<u8>,
}

/// The timestamps of a sequence of events.
pub open spec fn tss_of(s: Seq<Event>) -> Seq<u64> {
    s.map_values(|e: Event| e.ts)
}

/// Timestamps never decrease along the sequence.
pub open spec fn ts_sorted(s: Seq<Event>) -> bool {
    forall|i: int, j: int| 0 <= i <= j < s.len() ==> s[i].ts <= s[j].ts
}

/// Timestamps never decrease across a sequence of batches, inside each batch
/// and from the last event of one batch to the first of the next.
pub open spec fn batches_sorted(bs: Seq<Seq<Event>>) -> bool {
    &&& forall|k: int| 0 <= k < bs.len() ==> ts_sorted(#[trigger] bs[k])
    &&& forall|k: int, l: int, i: int, j: int|
        #![trigger bs[k][i], bs[l][j]]
        0 <= k < l < bs.len() && 0 <= i < bs[k].len() && 0 <= j < bs[l].len() ==> bs[k][i].ts
            <= bs[l][j].ts
}

impl Event {
    /// An event with the given timestamp, pulse id and value bytes.
    pub fn new(ts: u64, pulse: u64, value: Vec<u8>) -> (r: Event)
        ensures
            r.ts == ts,
            r.pulse == pulse,
            r.value == value,
    {
        Event { ts, pulse, value }
    }
}

} // verus!
