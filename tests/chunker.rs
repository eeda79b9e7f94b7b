use daqcore::chunker::{parse_events, parse_file_header, ChunkError, HeaderParse};
use daqcore::netpod::NanoRange;
use daqcore::pipeline::filter_file_events;

const MS: u64 = 1_000_000;
const DAY: u64 = 86_400_000_000_000;

fn header(channel: &str) -> Vec<u8> {
    let len = (channel.len() + 8) as i32;
    let mut b = Vec::new();
    b.extend_from_slice(&0i16.to_be_bytes());
    b.extend_from_slice(&len.to_be_bytes());
    b.extend_from_slice(channel.as_bytes());
    b.extend_from_slice(&len.to_be_bytes());
    b
}

fn record(seq: u64, ts: u64, pulse: u64, value: &[u8]) -> Vec<u8> {
    let m = (28 + value.len()) as i32;
    let mut b = Vec::new();
    b.extend_from_slice(&m.to_be_bytes());
    b.extend_from_slice(&seq.to_be_bytes());
    b.extend_from_slice(&ts.to_be_bytes());
    b.extend_from_slice(&pulse.to_be_bytes());
    b.extend_from_slice(value);
    b
}

/// A file of the channel `scalar-i32-be` with one event every 1500 ms
/// from `DAY - 4500 ms` to `DAY + 4500 ms`.
fn test_file() -> Vec<u8> {
    let mut f = header("scalar-i32-be");
    for k in 0..7u64 {
        let ts = DAY - 4500 * MS + k * 1500 * MS;
        f.extend_from_slice(&record(k, ts, 1000 + k, &(k as i32).to_be_bytes()));
    }
    f
}

fn read_expanded_for_range(range: NanoRange) -> (usize, Vec<u64>) {
    let out = filter_file_events(&test_file(), range, true).unwrap();
    let tss: Vec<u64> = out.events.iter().map(|e| e.ts).collect();
    (tss.len(), tss)
}

#[test]
fn file_header_parses() {
    let h = header("scalar-i32-be");
    match parse_file_header(&h) {
        Ok(HeaderParse::Header { consumed, channel }) => {
            assert_eq!(consumed, h.len());
            assert_eq!(channel, b"scalar-i32-be".to_vec());
        }
        _ => panic!("header did not parse"),
    }
    match parse_file_header(&h[..4]) {
        Ok(HeaderParse::Need(n)) => assert_eq!(n, 6),
        _ => panic!("expected need"),
    }
    match parse_file_header(&h[..10]) {
        Ok(HeaderParse::Need(n)) => assert_eq!(n, h.len() as u64),
        _ => panic!("expected need"),
    }
}

#[test]
fn file_header_errors() {
    let mut h = header("abc");
    h[1] = 1;
    assert!(matches!(parse_file_header(&h), Err(ChunkError::BadFileHeader)));
    let mut h = header("abc");
    let n = h.len();
    h[n - 1] ^= 1;
    assert!(matches!(parse_file_header(&h), Err(ChunkError::BadFileHeader)));
    let mut h = header("abc");
    h[5] = 7;
    assert!(matches!(parse_file_header(&h), Err(ChunkError::BadFileHeader)));
    let mut h = header("abc");
    h[2] = 0x80;
    assert!(matches!(parse_file_header(&h), Ok(HeaderParse::Need(n)) if n == 0x8000_000b + 2));
}

#[test]
fn long_channel_names_parse() {
    let name = "X".repeat(300);
    let h = header(&name);
    match parse_file_header(&h) {
        Ok(HeaderParse::Header { consumed, channel }) => {
            assert_eq!(consumed, h.len());
            assert_eq!(channel, name.as_bytes().to_vec());
        }
        _ => panic!("header did not parse"),
    }
}

#[test]
fn event_records_parse() {
    let mut b = record(0, 10, 20, &[1, 2, 3]);
    b.extend_from_slice(&record(1, 11, 21, &[]));
    let whole = b.len();
    b.extend_from_slice(&record(2, 12, 22, &[9])[..10]);
    let p = parse_events(&b, 100);
    assert_eq!(p.events.len(), 2);
    assert_eq!(p.events[0].ts, 10);
    assert_eq!(p.events[0].pulse, 20);
    assert_eq!(p.events[0].value, vec![1, 2, 3]);
    assert_eq!(p.events[1].ts, 11);
    assert!(p.events[1].value.is_empty());
    assert_eq!(p.consumed, whole);
    assert_eq!(p.need_min, 29);
    assert_eq!(p.error, None);
    let p = parse_events(&b, 1);
    assert_eq!(p.events.len(), 1);
    assert_eq!(p.consumed, 31);
}

#[test]
fn event_record_too_short_is_an_error() {
    let mut b = record(0, 10, 20, &[]);
    b.extend_from_slice(&[0, 0, 0, 5, 0, 0, 0, 0]);
    let p = parse_events(&b, 100);
    assert_eq!(p.events.len(), 1);
    assert_eq!(p.error, Some(ChunkError::BadEventLength));
    assert_eq!(p.consumed, 28);
}

#[test]
fn eventchunkermultifile_read_expanded_0() {
    let res = read_expanded_for_range(NanoRange { beg: DAY + MS * 0, end: DAY + MS * 100 });
    assert_eq!(res.0, 3, "unexpected number of events: {}", res.0);
    assert_eq!(res.1, vec![DAY - MS * 1500, DAY, DAY + MS * 1500]);
}

#[test]
fn eventchunkermultifile_read_expanded_1() {
    let res = read_expanded_for_range(NanoRange { beg: DAY + MS * 0, end: DAY + MS * 1501 });
    assert_eq!(res.0, 4, "unexpected number of events: {}", res.0);
    assert_eq!(res.1, vec![DAY - MS * 1500, DAY, DAY + MS * 1500, DAY + MS * 3000]);
}

#[test]
fn eventchunkermultifile_read_expanded_2() {
    let res = read_expanded_for_range(NanoRange { beg: DAY - MS * 100, end: DAY + MS * 1501 });
    assert_eq!(res.1, vec![DAY - MS * 1500, DAY, DAY + MS * 1500, DAY + MS * 3000]);
}

#[test]
fn eventchunkermultifile_read_expanded_3() {
    let res = read_expanded_for_range(NanoRange { beg: DAY - MS * 1500, end: DAY + MS * 1501 });
    assert_eq!(res.1, vec![DAY - MS * 3000, DAY - MS * 1500, DAY, DAY + MS * 1500, DAY + MS * 3000]);
}

#[test]
fn eventblobs_read_expanded_0() {
    let res = read_expanded_for_range(NanoRange { beg: DAY + MS * 0, end: DAY + MS * 100 });
    assert_eq!(res.0, 3, "unexpected number of events: {}", res.0);
    assert_eq!(res.1, vec![DAY - MS * 1500, DAY, DAY + MS * 1500]);
}

#[test]
fn eventblobs_read_expanded_1() {
    let res = read_expanded_for_range(NanoRange { beg: DAY + MS * 0, end: DAY + MS * 1501 });
    assert_eq!(res.0, 4, "unexpected number of events: {}", res.0);
    assert_eq!(res.1, vec![DAY - MS * 1500, DAY, DAY + MS * 1500, DAY + MS * 3000]);
}

#[test]
fn eventblobs_read_expanded_2() {
    let res = read_expanded_for_range(NanoRange { beg: DAY - MS * 100, end: DAY + MS * 1501 });
    assert_eq!(res.1, vec![DAY - MS * 1500, DAY, DAY + MS * 1500, DAY + MS * 3000]);
}

#[test]
fn eventblobs_read_expanded_3() {
    let res = read_expanded_for_range(NanoRange { beg: DAY - MS * 1500, end: DAY + MS * 1501 });
    assert_eq!(res.1, vec![DAY - MS * 3000, DAY - MS * 1500, DAY, DAY + MS * 1500, DAY + MS * 3000]);
}

#[test]
fn filter_without_expand_keeps_the_range() {
    let out = filter_file_events(&test_file(), NanoRange { beg: DAY - MS * 1500, end: DAY + MS * 1501 }, false)
        .unwrap();
    let tss: Vec<u64> = out.events.iter().map(|e| e.ts).collect();
    assert_eq!(tss, vec![DAY - MS * 1500, DAY, DAY + MS * 1500]);
    assert!(out.range_complete);
    let out = filter_file_events(&test_file(), NanoRange { beg: DAY, end: DAY + MS * 10_000 }, true).unwrap();
    assert!(!out.range_complete);
    assert_eq!(out.events.len(), 5);
}

#[test]
fn filter_rejects_bad_files() {
    let mut f = test_file();
    f[0] = 1;
    assert!(matches!(filter_file_events(&f, NanoRange { beg: 0, end: 1 }, false), Err(ChunkError::BadFileHeader)));
    let f = header("scalar-i32-be");
    assert!(matches!(filter_file_events(&f[..8], NanoRange { beg: 0, end: 1 }, false), Err(ChunkError::BadFileHeader)));
}

#[test]
fn filter_keeps_events_before_a_bad_record() {
    let range = NanoRange { beg: DAY - MS * 1500, end: DAY + MS * 1501 };
    let mut f = test_file();
    f.extend_from_slice(&[0, 0, 0, 3, 1, 2, 3, 4]);
    let out = filter_file_events(&f, range, false).unwrap();
    assert_eq!(out.error, Some(ChunkError::BadEventLength));
    let tss: Vec<u64> = out.events.iter().map(|e| e.ts).collect();
    assert_eq!(tss, vec![DAY - MS * 1500, DAY, DAY + MS * 1500]);
    let mut f = test_file();
    let rec = record(9, DAY + MS * 6000, 9, &[1, 2, 3, 4]);
    f.extend_from_slice(&rec[..rec.len() - 1]);
    let out = filter_file_events(&f, range, true).unwrap();
    assert_eq!(out.error, Some(ChunkError::Incomplete));
    assert_eq!(out.events.len(), 5);
    let out = filter_file_events(&test_file(), range, true).unwrap();
    assert_eq!(out.error, None);
}
