use daqcore::collect::{Collector, Fanout, NeedMinBuffer, PeerFailure};

#[test]
fn need_min_buffer_gathers_until_enough() {
    let mut b = NeedMinBuffer::new();
    b.set_need_min(6);
    assert_eq!(b.push(vec![1, 2]), None);
    assert_eq!(b.push(vec![3, 4, 5]), None);
    assert_eq!(b.push(vec![6, 7]), Some(vec![1, 2, 3, 4, 5, 6, 7]));
    assert!(b.left.is_empty());
    b.put_back(vec![7]);
    b.set_need_min(2);
    assert_eq!(b.push(vec![8]), Some(vec![7, 8]));
}

#[test]
fn collector_flags() {
    let mut c = Collector::new(10);
    c.ingest_data(4);
    c.ingest_data(3);
    c.ingest_bytes_read(100);
    assert_eq!(c.count, 7);
    assert_eq!(c.missing_bins(), 3);
    assert!(!c.range_final());
    c.ingest_range_complete();
    assert!(c.range_final());
    assert!(!c.timed_out);
    c.set_timed_out();
    assert!(c.timed_out);
    c.ingest_error();
    assert!(!c.range_final());
    c.ingest_data(u64::MAX);
    assert_eq!(c.count, u64::MAX);
    assert_eq!(c.missing_bins(), 0);
}

#[test]
fn fanout_errors_only_when_all_peers_fail() {
    let mut f = Fanout::new(3);
    assert!(f.range_final_allowed());
    assert_eq!(f.peer_failed(1), PeerFailure::Log);
    assert!(!f.range_final_allowed());
    assert_eq!(f.peer_failed(0), PeerFailure::Log);
    assert_eq!(f.peer_failed(2), PeerFailure::LogAndError);
}
