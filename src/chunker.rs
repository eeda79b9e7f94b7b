use crate::endian::{be_nat, read_be_uint};
use crate::event::Event;
use vstd::prelude::*;

verus! {

/// Bytes of an event record before its value: length, sequence number,
/// timestamp and pulse id.
pub const EVENT_RECORD_FIXED: usize = 28;

/// Why a container file could not be parsed.
#[derive(PartialEq, Eq, Structural, Clone, Copy, Debug)]
pub enum ChunkError {
    BadFileHeader,
    BadEventLength,
    /// The file ends inside a record.
    Incomplete,
}

/// What the start of a container file holds.
pub enum HeaderParse {
    /// At least this many bytes are needed before the header can be judged.
    Need(u64),
    /// The header takes `consumed` bytes and names `channel`.
    Header { consumed: usize, channel: Vec<u8> },
}

/// The spec-level outcome of reading a file header.
pub enum HeaderSpec {
    Need(nat),
    Header(nat, Seq<u8>),
}

/// Big-endian unsigned value of the `n` bytes at `off`.
pub open spec fn be_at(b: Seq<u8>, off: int, n: int) -> nat {
    be_nat(b.subrange(off, off + n))
}

/// The file header: a version word that must be zero, a length `L`, the
/// channel metadata, and `L` repeated at the end. The header takes `L + 2`
/// bytes; `L` is at least 8, the bytes of the two length words.
pub open spec fn header_spec(b: Seq<u8>) -> Result<HeaderSpec, ChunkError> {
    if b.len() < 6 {
        Ok(HeaderSpec::Need(6))
    } else if be_at(b, 0, 2) != 0 {
        Err(ChunkError::BadFileHeader)
    } else {
        let l = be_at(b, 2, 4) as int;
        if l < 8 {
            Err(ChunkError::BadFileHeader)
        } else if b.len() < l + 2 {
            Ok(HeaderSpec::Need((l + 2) as nat))
        } else if be_at(b, l - 2, 4) != l {
            Err(ChunkError::BadFileHeader)
        } else {
            Ok(HeaderSpec::Header((l + 2) as nat, b.subrange(6, l - 2)))
        }
    }
}

/// Reads the header of a container file from the start of `buf`.
pub fn parse_file_header(buf: &[u8]) -> (r: Result<HeaderParse, ChunkError>)
    ensures
        match header_spec(buf@) {
            Ok(HeaderSpec::Need(n)) => (r matches Ok(HeaderParse::Need(m)) && m == n),
            Ok(HeaderSpec::Header(c, ch)) => (r matches Ok(HeaderParse::Header { consumed, channel })
                && consumed == c && channel@ == ch),
            Err(e) => r == Err::<HeaderParse, ChunkError>(e),
        },
{
    let len = buf.len();
    if len < 6 {
        return Ok(HeaderParse::Need(6));
    }
    let version = read_be_uint(buf, 0, 2);
    if version != 0 {
        return Err(ChunkError::BadFileHeader);
    }
    let l = read_be_uint(buf, 2, 4);
    if l < 8 {
        return Err(ChunkError::BadFileHeader);
    }
    proof {
        crate::endian::lemma_be_nat_bound(buf@.subrange(2, 6));
        crate::endian::lemma_pow256_4();
    }
    if (len as u64) < l + 2 {
        return Ok(HeaderParse::Need(l + 2));
    }
    let lu = l as usize;
    let l2 = read_be_uint(buf, lu - 2, 4);
    if l2 != l {
        return Err(ChunkError::BadFileHeader);
    }
    let channel = copy_range(buf, 6, lu - 2);
    Ok(HeaderParse::Header { consumed: lu + 2, channel })
}

/// A copy of `buf[a..b]`.
pub fn copy_range(buf: &[u8], a: usize, b: usize) -> (r: Vec<u8>)
    requires
        a <= b <= buf@.len(),
    ensures
        r@ == buf@.subrange(a as int, b as int),
{
    let mut out: Vec<u8> = Vec::new();
    let mut i: usize = a;
    while i < b
        invariant
            a <= i <= b,
            b <= buf@.len(),
            out@ == buf@.subrange(a as int, i as int),
        decreases b - i,
    {
        out.push(buf[i]);
        i = i + 1;
        assert(out@ =~= buf@.subrange(a as int, i as int));
    }
    out
}

/// An event as the record at `off` of length `m` states it.
pub open spec fn record_at(b: Seq<u8>, off: int, m: int) -> (u64, u64, Seq<u8>) {
    (be_at(b, off + 12, 8) as u64, be_at(b, off + 20, 8) as u64, b.subrange(off + 28, off + m))
}

/// The timestamp, pulse id and value bytes of an event.
pub open spec fn event_view(e: Event) -> (u64, u64, Seq<u8>) {
    (e.ts, e.pulse, e.value@)
}

/// The outcome of scanning event records.
pub struct ScanSpec {
    pub events: Seq<(u64, u64, Seq<u8>)>,
    pub consumed: nat,
    pub need: nat,
    pub error: Option<ChunkError>,
}

/// Event records read from `off` on, at most `room` of them: each record is a
/// 4-byte length `M` (itself included) and nothing past `M` is read. Stops at
/// a record that is not whole yet (then `need` is its length, or 4 for the
/// length word), at a length under 28 (an error), or when `room` is used up.
pub open spec fn scan(b: Seq<u8>, off: int, room: nat) -> ScanSpec
    decreases room,
{
    if room == 0 || b.len() - off < 4 {
        ScanSpec { events: Seq::empty(), consumed: off as nat, need: 4, error: None }
    } else {
        let m = be_at(b, off, 4) as int;
        if m < 28 {
            ScanSpec {
                events: Seq::empty(),
                consumed: off as nat,
                need: 4,
                error: Some(ChunkError::BadEventLength),
            }
        } else if b.len() - off < m {
            ScanSpec { events: Seq::empty(), consumed: off as nat, need: m as nat, error: None }
        } else {
            let rest = scan(b, off + m, (room - 1) as nat);
            ScanSpec { events: seq![record_at(b, off, m)] + rest.events, ..rest }
        }
    }
}

/// What one parse of a buffer of event records gave.
pub struct EventsParse {
    pub events: Vec<Event>,
    /// Bytes taken from the front of the buffer.
    pub consumed: usize,
    /// Bytes that must be buffered before the next parse can progress.
    pub need_min: u64,
    /// A malformed record stopped the parse; the events before it stand.
    pub error: Option<ChunkError>,
}

/// Parses up to `max_events` event records from the start of `buf`.
pub fn parse_events(buf: &[u8], max_events: usize) -> (r: EventsParse)
    ensures
        ({
            let s = scan(buf@, 0, max_events as nat);
            &&& r.events@.map_values(|e: Event| event_view(e)) == s.events
            &&& r.consumed == s.consumed
            &&& r.need_min == s.need
            &&& r.error == s.error
        }),
{
    let len = buf.len();
    let mut events: Vec<Event> = Vec::new();
    let mut off: usize = 0;
    let ghost whole = scan(buf@, 0, max_events as nat);
    loop
        invariant
            off <= len,
            len == buf@.len(),
            events@.len() <= max_events,
            whole == scan(buf@, 0, max_events as nat),
            ({
                let rest = scan(buf@, off as int, (max_events - events@.len()) as nat);
                &&& whole.events == events@.map_values(|e: Event| event_view(e)) + rest.events
                &&& whole.consumed == rest.consumed
                &&& whole.need == rest.need
                &&& whole.error == rest.error
            }),
        decreases len - off,
    {
        let room = max_events - events.len();
        if room == 0 || len - off < 4 {
            assert(events@.map_values(|e: Event| event_view(e)) + Seq::empty() =~= events@.map_values(
                |e: Event| event_view(e),
            ));
            return EventsParse { events, consumed: off, need_min: 4, error: None };
        }
        let m = read_be_uint(buf, off, 4);
        if m < 28 {
            assert(events@.map_values(|e: Event| event_view(e)) + Seq::empty() =~= events@.map_values(
                |e: Event| event_view(e),
            ));
            return EventsParse {
                events,
                consumed: off,
                need_min: 4,
                error: Some(ChunkError::BadEventLength),
            };
        }
        if ((len - off) as u64) < m {
            assert(events@.map_values(|e: Event| event_view(e)) + Seq::empty() =~= events@.map_values(
                |e: Event| event_view(e),
            ));
            return EventsParse { events, consumed: off, need_min: m, error: None };
        }
        let mu = m as usize;
        let ts = read_be_uint(buf, off + 12, 8);
        let pulse = read_be_uint(buf, off + 20, 8);
        let value = copy_range(buf, off + 28, off + mu);
        let ghost before = events@;
        events.push(Event { ts, pulse, value });
        proof {
            let rest = scan(buf@, (off + mu) as int, (max_events - events@.len()) as nat);
            assert(events@.map_values(|e: Event| event_view(e)) =~= before.map_values(
                |e: Event| event_view(e),
            ).push(record_at(buf@, off as int, mu as int)));
            assert(whole.events =~= events@.map_values(|e: Event| event_view(e)) + rest.events);
        }
        off = off + mu;
    }
}

} // verus!
