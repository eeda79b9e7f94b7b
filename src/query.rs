use crate::netpod::{AggKind, Channel, NanoRange};
use std::marker::PhantomData;
use vstd::prelude::*;
use vstd::string::StringExecFns;

verus! {

/// Nanoseconds since the epoch of a date written as text, when it parses.
pub uninterp spec fn utc_nanos_of(s: Seq<char>) -> Option<i64>;

/// Relies on `str::parse::<chrono::DateTime<chrono::Utc>>` and
/// `DateTime::timestamp_nanos_opt`: the instant a relaxed RFC 3339 date
/// stands for, in nanoseconds since the epoch, when it parses and fits.
#[verifier::external_body]
fn parse_utc_nanos(s: &str) -> (r: Option<i64>)
    ensures
        r == utc_nanos_of(s@),
{
    match s.parse::<chrono::DateTime<chrono::Utc>>() {
        Ok(d) => d.timestamp_nanos_opt(),
        Err(_) => None,
    }
}

/// Backend of the test channels.
pub const TEST_BACKEND: &'static str = "testbackend-00";

/// A request for the raw events of one channel in a time range.
pub struct PlainEventsQuery {
    pub channel: Channel,
    pub range: NanoRange,
    /// Deliver pulse-id differences instead of values.
    pub pulse_id_diff: bool,
}

impl PlainEventsQuery {
    pub fn new(channel: Channel, range: NanoRange) -> (r: PlainEventsQuery)
        ensures
            r.channel == channel,
            r.range == range,
            !r.pulse_id_diff,
    {
        PlainEventsQuery { channel, range, pulse_id_diff: false }
    }

    /// The same query, for pulse-id differences.
    pub fn for_pulse_id_diff(self) -> (r: PlainEventsQuery)
        ensures
            r.channel == self.channel,
            r.range == self.range,
            r.pulse_id_diff,
    {
        PlainEventsQuery { pulse_id_diff: true, ..self }
    }

    pub fn channel(&self) -> (r: &Channel)
        ensures
            *r == self.channel,
    {
        &self.channel
    }

    pub fn range(&self) -> (r: &NanoRange)
        ensures
            *r == self.range,
    {
        &self.range
    }
}

/// Why a query could not be made.
#[derive(PartialEq, Eq, Structural, Clone, Copy, Debug)]
pub enum QueryError {
    BadDate,
}

/// What `make_query` gives for two parsed dates.
pub open spec fn query_range_spec(beg: Option<i64>, end: Option<i64>) -> Option<NanoRange> {
    match (beg, end) {
        (Some(b), Some(e)) => if b >= 0 && e >= 0 {
            Some(NanoRange { beg: b as u64, end: e as u64 })
        } else {
            None
        },
        _ => None,
    }
}

/// A pulse-id-difference query for the test channel `name` between two dates.
pub fn make_query(name: &str, beg_date: &str, end_date: &str) -> (r: Result<PlainEventsQuery, QueryError>)
    ensures
        match query_range_spec(utc_nanos_of(beg_date@), utc_nanos_of(end_date@)) {
            Some(range) => (r matches Ok(q) && q.range == range && q.pulse_id_diff && q.channel.name@
                == name@ && q.channel.backend@ == TEST_BACKEND@),
            None => r == Err::<PlainEventsQuery, QueryError>(QueryError::BadDate),
        },
{
    let beg = parse_utc_nanos(beg_date);
    let end = parse_utc_nanos(end_date);
    match (beg, end) {
        (Some(b), Some(e)) => {
            if b >= 0 && e >= 0 {
                let channel = Channel {
                    backend: String::from_str(TEST_BACKEND),
                    name: String::from_str(name),
                };
                let q = PlainEventsQuery::new(channel, NanoRange { beg: b as u64, end: e as u64 });
                Ok(q.for_pulse_id_diff())
            } else {
                Err(QueryError::BadDate)
            }
        },
        _ => Err(QueryError::BadDate),
    }
}

/// A request for events reduced along the waveform axis, not in time.
pub struct EventsQuery {
    pub channel: Channel,
    pub range: NanoRange,
    pub agg_kind: AggKind,
}

/// A request for `count` time bins of a channel.
pub struct Query {
    pub range: NanoRange,
    pub count: u64,
    pub agg_kind: AggKind,
    pub channel: Channel,
}

/// Scans the events of a query, up to `events_max` of them, within a timeout.
pub struct EvInfoFunc {
    pub query: PlainEventsQuery,
    pub timeout_ms: u64,
    pub events_max: u64,
    pub node_ix: u32,
}

impl EvInfoFunc {
    pub fn new(query: PlainEventsQuery, timeout_ms: u64, events_max: u64, node_ix: u32) -> (r: EvInfoFunc)
        ensures
            r.query == query,
            r.timeout_ms == timeout_ms,
            r.events_max == events_max,
            r.node_ix == node_ix,
    {
        EvInfoFunc { query, timeout_ms, events_max, node_ix }
    }

    pub fn channel(&self) -> (r: &Channel)
        ensures
            *r == self.query.channel,
    {
        self.query.channel()
    }

    pub fn range(&self) -> (r: &NanoRange)
        ensures
            *r == self.query.range,
    {
        self.query.range()
    }
}

/// Waveform events: a timestamp and a vector of values per event.
pub struct WaveEvents<NTY> {
    pub tss: Vec<u64>,
    pub vals: Vec<Vec<NTY>>,
}

impl<NTY> WaveEvents<NTY> {
    pub fn empty() -> (r: WaveEvents<NTY>)
        ensures
            r.tss@.len() == 0,
            r.vals@.len() == 0,
    {
        WaveEvents { tss: Vec::new(), vals: Vec::new() }
    }
}

/// Passes events through unchanged.
pub struct Identity<NTY> {
    _m1: PhantomData<NTY>,
}

/// Reduces each waveform to one bin.
pub struct WaveXBinner<NTY> {
    _m1: PhantomData<NTY>,
}

/// Reduces each waveform to `x_bin_count` bins.
pub struct WaveNBinner<NTY> {
    pub shape_bin_count: usize,
    pub x_bin_count: usize,
    _m1: PhantomData<NTY>,
}

/// Keeps waveforms as they are.
pub struct WavePlainProc<NTY> {
    _m1: PhantomData<NTY>,
}

/// A parse error with the length of the input left at that point.
pub struct E2 {
    pub inplen: usize,
    pub msg: String,
}

/// Why parsing failed.
pub enum ParseError {
    NomError(E2),
    Bad { msg: String },
}

/// The error `Bad` with the given message.
#[allow(non_snake_case)]
pub fn BadError<O>(msg: String) -> (r: Result<O, ParseError>)
    ensures
        r matches Err(ParseError::Bad { msg: m }) && m == msg,
{
    Err(ParseError::Bad { msg })
}

/// The kind of a file I/O error.
pub enum ErrorKindSimple {
    NotFound,
    PermissionDenied,
    AlreadyExists,
    Other(String),
}

/// A file I/O error and the path it concerns.
pub struct CIOError {
    pub kind: ErrorKindSimple,
    pub path: Option<String>,
}

/// An event that carries nothing, for streams that carry only statistics.
pub struct DummyEvent;

} // verus!
