use crate::chunker::{event_view, header_spec, parse_events, parse_file_header, scan, ChunkError, HeaderParse, HeaderSpec};
use crate::event::Event;
use crate::netpod::NanoRange;
use crate::rangefilter::{
    all_in_range, count_before, count_from, finish_spec, fresh, lemma_range_filter_correct, run,
    RangeFilter,
};
use vstd::prelude::*;

verus! {

/// Most records one read of a file set may hold.
pub const MAX_EVENTS_PER_FILE: usize = 0x7fff_ffff;

/// The timestamp, pulse id and value bytes of each event.
pub open spec fn views(evs: Seq<Event>) -> Seq<(u64, u64, Seq<u8>)> {
    evs.map_values(|e: Event| event_view(e))
}

/// The events of one container file, through the range filter.
pub struct FilteredEvents {
    pub events: Vec<Event>,
    /// An event at or after the end of the range was seen.
    pub range_complete: bool,
    /// A malformed record, or the end of the file inside a record, stopped
    /// the read; the events before it are in `events`.
    pub error: Option<ChunkError>,
}

/// What stopped a read of records: a malformed record, a record cut short
/// by the end of the body (or more records than one read takes), or nothing.
pub open spec fn read_error(s: crate::chunker::ScanSpec, body_len: nat) -> Option<ChunkError> {
    if s.error is Some {
        s.error
    } else if s.consumed < body_len {
        Some(ChunkError::Incomplete)
    } else {
        None
    }
}

/// Reads one whole container file and passes its events through a range
/// filter over `range`, flushing it at the end of the file. Fails when the
/// header is malformed or cut short. A malformed or cut-short record ends
/// the read: the events before it still pass, and the result names the error.
pub fn filter_file_events(file: &[u8], range: NanoRange, expand: bool) -> (r: Result<
    FilteredEvents,
    ChunkError,
>)
    requires
        range.beg <= range.end,
    ensures
        !(header_spec(file@) matches Ok(HeaderSpec::Header(_, _))) ==> r == Err::<
            FilteredEvents,
            ChunkError,
        >(ChunkError::BadFileHeader),
        header_spec(file@) matches Ok(HeaderSpec::Header(c, _)) ==> {
            let s = scan(file@.subrange(c as int, file@.len() as int), 0, MAX_EVENTS_PER_FILE as nat);
            r matches Ok(out) && out.error == read_error(s, (file@.len() - c) as nat) && exists|
                evs: Seq<Event>,
            |
                #[trigger] views(evs) == s.events && ({
                    let (f, o) = run(fresh(range.beg, range.end, expand), evs);
                    &&& out.events@ == o + finish_spec(f).1
                    &&& out.range_complete == f.done
                })
        },
        r matches Ok(out) ==> {
            &&& !expand ==> all_in_range(out.events@, range.beg, range.end)
            &&& count_before(out.events@, range.beg) <= 1
            &&& count_from(out.events@, range.end) <= 1
        },
{
    let consumed = match parse_file_header(file) {
        Ok(HeaderParse::Header { consumed, channel: _ }) => consumed,
        _ => {
            return Err(ChunkError::BadFileHeader);
        },
    };
    let body = &file[consumed..file.len()];
    let parsed = parse_events(body, MAX_EVENTS_PER_FILE);
    let error = match parsed.error {
        Some(e) => Some(e),
        None => if parsed.consumed < body.len() {
            Some(ChunkError::Incomplete)
        } else {
            None
        },
    };
    let ghost evs = parsed.events@;
    let ghost parsed_view = parsed.events@.map_values(|e: Event| event_view(e));
    let mut filter = RangeFilter::new(range.beg, range.end, expand);
    let mut out = filter.push(parsed.events);
    let ghost after_run = filter;
    let complete = filter.is_range_complete();
    let mut tail = filter.finish();
    proof {
        lemma_range_filter_correct(range.beg, range.end, expand, evs);
        assert(views(evs) == parsed_view);
    }
    out.append(&mut tail);
    proof {
        assert(run(fresh(range.beg, range.end, expand), evs).1 + finish_spec(after_run).1 =~= out@);
    }
    Ok(FilteredEvents { events: out, range_complete: complete, error })
}

} // verus!
