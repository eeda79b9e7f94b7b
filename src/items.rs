use crate::netpod::NanoRange;
use std::marker::PhantomData;
use vstd::prelude::*;

verus! {

/// Nanoseconds in one millisecond.
pub const MS: u64 = 1_000_000;

/// Nanoseconds in one second.
pub const SEC: u64 = 1_000_000_000;

/// `true` exactly when `j` is `false`.
pub fn bool_is_false(j: &bool) -> (r: bool)
    ensures
        r == !*j,
{
    *j == false
}

/// The severity of a log item.
#[derive(PartialEq, Eq, Structural, Clone, Copy, Debug)]
pub enum Level {
    Error,
    Warn,
    Info,
    Debug,
    Trace,
}

/// A data item, or the signal that the producer's range is complete.
pub enum RangeCompletableItem<T> {
    RangeComplete,
    Data(T),
}

/// Bytes parsed from event files.
#[derive(PartialEq, Eq, Structural, Clone, Copy, Debug)]
pub struct EventDataReadStats {
    pub parsed_bytes: u64,
}

/// Events the range filter let through and held back.
#[derive(PartialEq, Eq, Structural, Clone, Copy, Debug)]
pub struct RangeFilterStats {
    pub events_pre: u64,
    pub events_post: u64,
    pub events_unordered: u64,
}

/// Durations of disk operations, in nanoseconds.
#[derive(PartialEq, Eq, Structural, Clone, Copy, Debug)]
pub enum DiskStats {
    OpenStats(u64),
    SeekStats(u64),
    ReadStats(u64),
    ReadExactStats(u64),
}

/// Statistics that travel with a stream.
#[derive(PartialEq, Eq, Structural, Clone, Copy, Debug)]
pub enum StatsItem {
    EventDataReadStats(EventDataReadStats),
    RangeFilterStats(RangeFilterStats),
    DiskStats(DiskStats),
}

/// One element of a stream: data, a log line, or statistics.
pub enum StreamItem<T> {
    DataItem(T),
    Log(LogItem),
    Stats(StatsItem),
}

/// A log line that travels with a stream, with the index of the node that wrote it.
pub struct LogItem {
    pub node_ix: u32,
    pub level: Level,
    pub msg: String,
}

/// Node index that `LogItem::quick` records.
pub const QUICK_LOG_NODE_IX: u32 = 42;

impl LogItem {
    /// A log line of the given level, attributed to no particular node.
    pub fn quick(level: Level, msg: String) -> (r: LogItem)
        ensures
            r.level == level,
            r.msg == msg,
            r.node_ix == QUICK_LOG_NODE_IX,
    {
        LogItem { level, msg, node_ix: QUICK_LOG_NODE_IX }
    }
}

/// Why a stream ended with an error.
pub struct ItemError {
    pub msg: String,
}

/// A stream item: data, completion, log or statistics, or the error that ends it.
pub type Sitemty<T> = Result<StreamItem<RangeCompletableItem<T>>, ItemError>;

/// How a batch of timestamps lies against a range.
#[derive(PartialEq, Eq, Structural, Clone, Copy, Debug)]
pub enum Fits {
    Empty,
    Lower,
    Greater,
    Inside,
    PartlyLower,
    PartlyGreater,
    PartlyLowerAndGreater,
}

/// A container of some number of items.
pub trait WithLen {
    fn len(&self) -> usize;
}

/// A container whose items carry timestamps.
pub trait WithTimestamps {
    fn ts(&self, ix: usize) -> u64;
}

/// A rough size in bytes.
pub trait ByteEstimate {
    fn byte_estimate(&self) -> u64;
}

/// Where a container's timestamps lie against a range.
pub trait RangeOverlapInfo {
    fn ends_before(&self, range: NanoRange) -> bool;

    fn ends_after(&self, range: NanoRange) -> bool;

    fn starts_after(&self, range: NanoRange) -> bool;
}

/// Classifies a container against a range.
pub trait FitsInside {
    fn fits_inside(&self, range: NanoRange) -> Fits;
}

/// Keeps the part of a container that lies in a range.
pub trait FilterFittingInside: Sized {
    fn filter_fitting_inside(self, fit_range: NanoRange) -> Option<Self>;
}

/// Copies one item of another container of the same kind.
pub trait PushableIndex {
    fn push_index(&mut self, src: &Self, ix: usize);
}

/// A container that can take all items of another of its kind.
pub trait Appendable: WithLen + Sized {
    fn empty_like_self(&self) -> Self;

    fn append(&mut self, src: &Self);
}

/// A container that can be emptied.
pub trait Clearable {
    fn clear(&mut self);
}

/// A container that can take one more event.
pub trait EventAppendable where Self: Sized {
    type Value;

    fn append_event(ret: Option<Self>, ts: u64, pulse: u64, value: Self::Value) -> Self;
}

/// Data in time-binned form.
pub trait TimeBins: WithLen {
    fn ts1s(&self) -> &Vec<u64>;

    fn ts2s(&self) -> &Vec<u64>;
}

/// A container whose timestamps can be looked at one by one.
pub trait TimestampInspectable: WithTimestamps + WithLen {

}

/// The one-byte code of a scalar type, which typed frame types add to their base.
pub trait SubFrId {
    fn sub() -> u32;
}

impl SubFrId for i8 {
    fn sub() -> u32 {
        2
    }
}

impl SubFrId for u8 {
    fn sub() -> u32 {
        3
    }
}

impl SubFrId for i16 {
    fn sub() -> u32 {
        4
    }
}

impl SubFrId for u16 {
    fn sub() -> u32 {
        5
    }
}

impl SubFrId for i32 {
    fn sub() -> u32 {
        7
    }
}

impl SubFrId for u32 {
    fn sub() -> u32 {
        8
    }
}

impl SubFrId for i64 {
    fn sub() -> u32 {
        9
    }
}

impl SubFrId for u64 {
    fn sub() -> u32 {
        10
    }
}

impl SubFrId for bool {
    fn sub() -> u32 {
        14
    }
}

/// The frame type of a data container, as a value.
pub trait SitemtyFrameType {
    fn frame_type_id(&self) -> u32;
}

/// The frame type of a data container, as a property of its type.
pub trait FrameTypeStatic {
    fn frame_type_id_static() -> u32;
}

/// The frame type of a stream item, and whether it is an error.
pub trait FrameType {
    fn frame_type_id(&self) -> u32;

    fn is_err(&self) -> bool;
}

/// The frame type a value is sent as.
pub trait ProvidesFrameType {
    fn frame_type_id(&self) -> u32;
}

/// Frame type of a batch of whole events.
pub const EVENT_FULL_FRAME_TYPE_ID: u32 = 0x2200;

/// A batch of whole events of one channel, in columns: timestamps, pulse ids
/// and the value bytes of each event.
pub struct EventFull {
    pub tss: Vec<u64>,
    pub pulses: Vec<u64>,
    pub blobs: Vec<Vec<u8>>,
}

impl EventFull {
    /// The columns have one entry per event.
    pub open spec fn wf(&self) -> bool {
        self.tss@.len() == self.pulses@.len() && self.tss@.len() == self.blobs@.len()
    }

    /// An empty batch.
    pub fn dummy() -> (r: EventFull)
        ensures
            r.wf(),
            r.tss@.len() == 0,
    {
        EventFull { tss: Vec::new(), pulses: Vec::new(), blobs: Vec::new() }
    }

    /// Appends one event.
    pub fn add_event(&mut self, ts: u64, pulse: u64, blob: Vec<u8>)
        requires
            old(self).wf(),
        ensures
            final(self).wf(),
            final(self).tss@ == old(self).tss@.push(ts),
            final(self).pulses@ == old(self).pulses@.push(pulse),
            final(self).blobs@ == old(self).blobs@.push(blob),
    {
        self.tss.push(ts);
        self.pulses.push(pulse);
        self.blobs.push(blob);
    }
}

impl WithLen for EventFull {
    fn len(&self) -> usize {
        self.tss.len()
    }
}

impl WithTimestamps for EventFull {
    fn ts(&self, ix: usize) -> u64 {
        if ix < self.tss.len() {
            self.tss[ix]
        } else {
            0
        }
    }
}

impl TimestampInspectable for EventFull {

}

impl Clearable for EventFull {
    fn clear(&mut self) {
        self.tss.clear();
        self.pulses.clear();
        self.blobs.clear();
    }
}

impl ByteEstimate for EventFull {
    fn byte_estimate(&self) -> u64 {
        let n = self.tss.len() as u64;
        if n <= 0x1_0000_0000 {
            n * 16
        } else {
            u64::MAX
        }
    }
}

impl FrameTypeStatic for EventFull {
    fn frame_type_id_static() -> u32 {
        EVENT_FULL_FRAME_TYPE_ID
    }
}

impl SitemtyFrameType for EventFull {
    fn frame_type_id(&self) -> u32 {
        EVENT_FULL_FRAME_TYPE_ID
    }
}

/// How the timestamps of a sorted batch lie against `[beg, end)`.
pub open spec fn fits_spec(tss: Seq<u64>, beg: u64, end: u64) -> Fits {
    if tss.len() == 0 {
        Fits::Empty
    } else {
        let first = tss[0];
        let last = tss.last();
        if last < beg {
            Fits::Lower
        } else if first >= end {
            Fits::Greater
        } else if first >= beg && last < end {
            Fits::Inside
        } else if first < beg && last >= end {
            Fits::PartlyLowerAndGreater
        } else if first < beg {
            Fits::PartlyLower
        } else {
            Fits::PartlyGreater
        }
    }
}

/// Classifies timestamps, first and last taken as their extent, against a range.
pub fn fits_tss(tss: &Vec<u64>, range: &NanoRange) -> (r: Fits)
    ensures
        r == fits_spec(tss@, range.beg, range.end),
{
    let n = tss.len();
    if n == 0 {
        return Fits::Empty;
    }
    let first = tss[0];
    let last = tss[n - 1];
    if last < range.beg {
        Fits::Lower
    } else if first >= range.end {
        Fits::Greater
    } else if first >= range.beg && last < range.end {
        Fits::Inside
    } else if first < range.beg && last >= range.end {
        Fits::PartlyLowerAndGreater
    } else if first < range.beg {
        Fits::PartlyLower
    } else {
        Fits::PartlyGreater
    }
}

impl FitsInside for EventFull {
    fn fits_inside(&self, range: NanoRange) -> Fits {
        fits_tss(&self.tss, &range)
    }
}

impl RangeOverlapInfo for EventFull {
    fn ends_before(&self, range: NanoRange) -> bool {
        let n = self.tss.len();
        n > 0 && self.tss[n - 1] < range.beg
    }

    fn ends_after(&self, range: NanoRange) -> bool {
        let n = self.tss.len();
        n > 0 && self.tss[n - 1] >= range.end
    }

    fn starts_after(&self, range: NanoRange) -> bool {
        let n = self.tss.len();
        n > 0 && self.tss[0] >= range.end
    }
}

/// The compact timestamp encoding of a collected result: the anchor second
/// (of the first timestamp, 0 when there is none), and for each timestamp its
/// whole milliseconds after the anchor and the nanoseconds beyond those.
pub open spec fn ts_offs_spec(tss: Seq<u64>) -> (u64, Seq<u64>, Seq<u64>) {
    let anchor = if tss.len() == 0 {
        0
    } else {
        tss[0] / SEC
    };
    let base = anchor * SEC;
    (
        anchor as u64,
        Seq::new(tss.len(), |i: int| ((tss[i] - base) / MS as int) as u64),
        Seq::new(tss.len(), |i: int| ((tss[i] - base) % MS as int) as u64),
    )
}

/// Splits absolute timestamps into an anchor second and per-row offsets.
/// No timestamp may lie before the anchor second.
pub fn ts_offs_from_abs(tss: &[u64]) -> (r: (u64, Vec<u64>, Vec<u64>))
    requires
        tss@.len() > 0 ==> forall|i: int| 0 <= i < tss@.len() ==> #[trigger] tss@[i] >= tss@[0] / SEC * SEC,
    ensures
        r.0 == ts_offs_spec(tss@).0,
        r.1@ == ts_offs_spec(tss@).1,
        r.2@ == ts_offs_spec(tss@).2,
{
    let n = tss.len();
    let anchor: u64 = if n == 0 {
        0
    } else {
        tss[0] / SEC
    };
    let base = anchor * SEC;
    let mut ms: Vec<u64> = Vec::new();
    let mut ns: Vec<u64> = Vec::new();
    let mut i: usize = 0;
    while i < n
        invariant
            i <= n,
            n == tss@.len(),
            anchor == ts_offs_spec(tss@).0,
            base == anchor * SEC,
            n > 0 ==> forall|j: int| 0 <= j < n ==> #[trigger] tss@[j] >= base,
            ms@ =~= ts_offs_spec(tss@).1.subrange(0, i as int),
            ns@ =~= ts_offs_spec(tss@).2.subrange(0, i as int),
        decreases n - i,
    {
        let d = tss[i] - base;
        ms.push(d / MS);
        ns.push(d % MS);
        i = i + 1;
    }
    (anchor, ms, ns)
}

/// The pulse ids as an anchor (the first, 0 when there is none) and offsets from it.
pub fn pulse_offs_from_abs(pulse: &[u64]) -> (r: (u64, Vec<u64>))
    requires
        pulse@.len() > 0 ==> forall|i: int| 0 <= i < pulse@.len() ==> #[trigger] pulse@[i] >= pulse@[0],
    ensures
        r.0 == (if pulse@.len() == 0 {
            0
        } else {
            pulse@[0]
        }),
        r.1@.len() == pulse@.len(),
        forall|i: int| 0 <= i < pulse@.len() ==> #[trigger] r.1@[i] == pulse@[i] - r.0,
{
    let n = pulse.len();
    let anchor: u64 = if n == 0 {
        0
    } else {
        pulse[0]
    };
    let mut off: Vec<u64> = Vec::new();
    let mut i: usize = 0;
    while i < n
        invariant
            i <= n,
            n == pulse@.len(),
            n > 0 ==> anchor == pulse@[0],
            n > 0 ==> forall|j: int| 0 <= j < n ==> #[trigger] pulse@[j] >= pulse@[0],
            off@.len() == i,
            forall|j: int| 0 <= j < i ==> #[trigger] off@[j] == pulse@[j] - anchor,
        decreases n - i,
    {
        off.push(pulse[i] - anchor);
        i = i + 1;
    }
    (anchor, off)
}

/// A collector of min-max-avg bins of value type `NTY`, before any bin came in.
pub struct MinMaxAvgBinsCollected<NTY> {
    _m1: PhantomData<NTY>,
}

impl<NTY> MinMaxAvgBinsCollected<NTY> {
    pub fn new() -> Self {
        MinMaxAvgBinsCollected { _m1: PhantomData }
    }
}

} // verus!
