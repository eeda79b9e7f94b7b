use daqcore::archive::{
    parse_data_filename, DataFilename, EventsItem, FilenameError, PlainEvents, ScalarPlainEvents, WavePlainEvents,
    XBinnedEvents,
};
use daqcore::netpod::Shape;
use daqcore::items::{bool_is_false, fits_tss, pulse_offs_from_abs, ts_offs_from_abs, EventFull, Fits, Level, LogItem, WithLen};
use daqcore::layout::{
    data_file_bin_size, datafile_rel_path, facility_for_host, is_split_dir_name, is_timebin_dir_name, FacilityKind,
};
use daqcore::multifile::MultifileGuard;
use daqcore::netpod::{test_cluster, DbInfo, NanoRange, Node, ScalarType};
use daqcore::query::{make_query, QueryError};
use daqcore::rangefilter::RangeFilter;
use daqcore::collect::Collector;
use daqcore::event::Event;

const SEC: u64 = 1_000_000_000;
const MS: u64 = 1_000_000;

#[test]
fn ts_offsets_from_anchor_second() {
    let tss = vec![1203 * SEC + 500 * MS, 1204 * SEC, 1204 * SEC + 1_234_567];
    let (anchor, ms, ns) = ts_offs_from_abs(&tss);
    assert_eq!(anchor, 1203);
    assert_eq!(ms, vec![500, 1000, 1001]);
    assert_eq!(ns, vec![0, 0, 234_567]);
    let (anchor, ms, ns) = ts_offs_from_abs(&[]);
    assert_eq!(anchor, 0);
    assert!(ms.is_empty() && ns.is_empty());
}

#[test]
fn pulse_offsets_from_first() {
    let (a, off) = pulse_offs_from_abs(&[100, 100, 105, 200]);
    assert_eq!(a, 100);
    assert_eq!(off, vec![0, 0, 5, 100]);
}

#[test]
fn small_items() {
    assert!(bool_is_false(&false));
    assert!(!bool_is_false(&true));
    let l = LogItem::quick(Level::Info, "hi".to_string());
    assert_eq!(l.node_ix, 42);
    assert_eq!(l.msg, "hi");
    let e = EventFull::dummy();
    assert_eq!(e.len(), 0);
    let r = NanoRange { beg: 10, end: 20 };
    assert_eq!(fits_tss(&vec![], &r), Fits::Empty);
    assert_eq!(fits_tss(&vec![1, 5], &r), Fits::Lower);
    assert_eq!(fits_tss(&vec![20, 25], &r), Fits::Greater);
    assert_eq!(fits_tss(&vec![10, 19], &r), Fits::Inside);
    assert_eq!(fits_tss(&vec![5, 15], &r), Fits::PartlyLower);
    assert_eq!(fits_tss(&vec![15, 25], &r), Fits::PartlyGreater);
    assert_eq!(fits_tss(&vec![5, 25], &r), Fits::PartlyLowerAndGreater);
    assert_eq!(ScalarType::from_code(7), Some(ScalarType::I32));
    assert_eq!(ScalarType::I32.code(), 7);
    assert_eq!(ScalarType::from_code(6), None);
}

#[test]
fn data_filenames() {
    assert_eq!(parse_data_filename("ABC:DEF:2021_11.pb"), Ok(DataFilename { year: 2021, month: 11 }));
    assert_eq!(parse_data_filename("x:2021_11.pa"), Err(FilenameError::NotPb));
    assert_eq!(parse_data_filename(":2021_11.pb"), Err(FilenameError::TooShort));
    assert_eq!(parse_data_filename("AB-2021_11.pb"), Err(FilenameError::NoColon));
    assert_eq!(parse_data_filename("AB:2021-11.pb"), Err(FilenameError::NoUnderscore));
    assert_eq!(parse_data_filename("AB:20x1_11.pb"), Err(FilenameError::BadNumber));
    assert_eq!(parse_data_filename("AB:+021_+1.pb"), Ok(DataFilename { year: 21, month: 1 }));
}

#[test]
fn query_dates_parse() {
    let q = make_query("test-gen-i32-dim0-v01", "1970-01-01T00:20:04.000Z", "1970-01-01T00:21:10.000Z").unwrap();
    assert_eq!(q.range.beg, 1204 * SEC);
    assert_eq!(q.range.end, 1270 * SEC);
    assert!(q.pulse_id_diff);
    assert_eq!(q.channel.backend, "testbackend-00");
    assert_eq!(q.channel.name, "test-gen-i32-dim0-v01");
    assert!(matches!(make_query("x", "not a date", "1970-01-01T00:21:10.000Z"), Err(QueryError::BadDate)));
    assert!(matches!(make_query("x", "1960-01-01T00:00:00Z", "1970-01-01T00:21:10.000Z"), Err(QueryError::BadDate)));
}

/// Events of the generated test channel: one every 500 ms.
fn generated(beg: u64, end: u64) -> Vec<Event> {
    let mut v = Vec::new();
    let mut ts = beg;
    while ts < end {
        v.push(Event::new(ts, ts / (500 * MS), vec![]));
        ts += 500 * MS;
    }
    v
}

#[test]
fn eventsjson_events_plain_json_00() {
    let q = make_query("test-gen-i32-dim0-v01", "1970-01-01T00:20:04.000Z", "1970-01-01T00:21:10.000Z").unwrap();
    let mut f = RangeFilter::new_time_weighted(q.range.beg, q.range.end);
    let mut out = f.push(generated(1100 * SEC, 1400 * SEC));
    out.extend(f.finish());
    let tss: Vec<u64> = out.iter().map(|e| e.ts).collect();
    let (anchor, _, _) = ts_offs_from_abs(&tss);
    assert_eq!(tss.len(), 133);
    assert_eq!(anchor, 1203);
}

#[test]
fn pulseiddiff_events_plain_json_00() {
    let q = make_query("test-gen-i32-dim0-v01", "1970-01-01T00:20:04.000Z", "1970-01-01T00:21:10.000Z").unwrap();
    let mut f = RangeFilter::new(q.range.beg, q.range.end, false);
    let out = f.push(generated(1100 * SEC, 1400 * SEC));
    let tss: Vec<u64> = out.iter().map(|e| e.ts).collect();
    let (anchor, _, _) = ts_offs_from_abs(&tss);
    assert_eq!(anchor, 1204);
    assert_eq!(tss.len(), 132);
}

#[test]
fn events_plain_json_02_range_incomplete() {
    let q = make_query("test-gen-i32-dim0-v01", "1970-01-03T23:59:55.000Z", "1970-01-04T00:00:01.000Z").unwrap();
    let mut g = MultifileGuard::new(q.range, false);
    let mut c = Collector::new(0);
    let o = g.accept(generated(q.range.beg - 10 * SEC, 3 * 86_400 * SEC));
    assert!(!o.unordered);
    c.ingest_data(o.events.len() as u64);
    if g.range_final {
        c.ingest_range_complete();
    }
    assert_eq!(o.events.len(), 30);
    assert!(!c.range_final());
    assert!(!c.timed_out);
}

#[test]
fn catalog_items() {
    let d = DbInfo::sf_databuffer();
    assert_eq!(d.host, "sf-daqbuf-33");
    assert_eq!(d.user, "daqbuffer");
    assert_eq!(DbInfo::gls_archive().host, "127.0.0.1");
    assert_eq!(DbInfo::hipa_archive().host, "127.0.0.1");
    assert_eq!(DbInfo::sf_imagebuffer().host, "sf-daqbuf-33");
    let n = Node { rowid: 5, facility: 2, split: 1, hostname: "h".to_string() };
    assert_eq!(n.rowid(), 5);
    assert_eq!(n.facility(), 2);
    let c = test_cluster();
    assert_eq!(c.nodes.len(), 3);
    assert_eq!(c.nodes[2].port, 8362);
    assert_eq!(c.nodes[2].port_raw, 8462);
    assert_eq!(c.nodes[1].data_base_path, "tmpdata/node01");
    assert_eq!(c.nodes[0].host, "localhost");
    assert_eq!(c.nodes[2].backend, "testbackend");
    assert_eq!(c.database.name, "daqbuffer");
}

#[test]
fn layout_rules() {
    assert!(is_timebin_dir_name(b"0000000000000018700"));
    assert!(!is_timebin_dir_name(b"000000000000001870"));
    assert!(!is_timebin_dir_name(b"00000000000000187a0"));
    assert!(is_split_dir_name(b"0000000003"));
    assert_eq!(data_file_bin_size(b"0000000086400000000_00000_Data"), Some(86_400_000_000));
    assert_eq!(data_file_bin_size(b"0000000086400000000_00000_Index"), None);
    assert_eq!(data_file_bin_size(b"000000008640000000x_00000_Data"), None);
    let p = datafile_rel_path("daq_swissfel", 2, "SAR-CH:X", 18700, 3, 86_400_000_000);
    assert_eq!(
        String::from_utf8(p).unwrap(),
        "daq_swissfel_2/byTime/SAR-CH:X/0000000000000018700/0000000003/0000000086400000000_00000_Data"
    );
    assert_eq!(facility_for_host(&"sf-daqbuf-27.psi.ch".to_string()), Some(FacilityKind::SfDatabuffer));
    assert_eq!(facility_for_host(&"gls-01.psi.ch".to_string()), Some(FacilityKind::GlsArchive));
    assert_eq!(facility_for_host(&"sf-daq-6.psi.ch".to_string()), Some(FacilityKind::SfImagebuffer));
    assert_eq!(facility_for_host(&"hipa-data-api.psi.ch".to_string()), Some(FacilityKind::HipaArchive));
    assert_eq!(facility_for_host(&"sf-daqbuf-34.psi.ch".to_string()), None);
}

#[test]
fn proxy_backends_and_item_shapes() {
    let b = daqcore::netpod::get_backends();
    assert_eq!(b.len(), 6);
    assert_eq!(b[1], ("hipa-archive", "hipa-data-api.psi.ch", 8082));
    let w = EventsItem::Plain(PlainEvents::Wave(WavePlainEvents::Int(EventFull::dummy(), 21)));
    assert!(w.is_wave());
    assert_eq!(w.shape(), Shape::Wave(21));
    assert_eq!(w.scalar_type(), ScalarType::I32);
    assert_eq!(w.type_info(), (ScalarType::I32, Shape::Wave(21)));
    assert_eq!(w.variant_name(), "Plain(Wave(Int))");
    let x = EventsItem::XBinnedEvents(XBinnedEvents::SingleBinWave(WavePlainEvents::Double(EventFull::dummy(), 4)));
    assert!(!x.is_wave());
    assert_eq!(x.scalar_type(), ScalarType::F64);
    let s = EventsItem::Plain(PlainEvents::Scalar(ScalarPlainEvents::Short(EventFull::dummy())));
    assert_eq!(s.type_info(), (ScalarType::I16, Shape::Scalar));
    assert_eq!(s.len(), 0);
}
