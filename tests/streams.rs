use daqcore::event::Event;
use daqcore::merge::Merger;
use daqcore::multifile::MultifileGuard;
use daqcore::netpod::NanoRange;
use daqcore::rangefilter::RangeFilter;
use daqcore::storage::{decide_next_item, StorageDecision};

fn ev(ts: u64, pulse: u64) -> Event {
    Event::new(ts, pulse, vec![pulse as u8])
}

fn tss(v: &[Event]) -> Vec<u64> {
    v.iter().map(|e| e.ts).collect()
}

#[test]
fn merger_orders_by_timestamp_and_index() {
    let mut m = Merger::new(2, 100);
    m.push_batch(0, vec![ev(1, 0), ev(3, 0), ev(5, 0)]);
    m.push_batch(1, vec![ev(2, 1), ev(3, 1), ev(6, 1)]);
    m.end_input(0, true);
    m.end_input(1, true);
    let out = m.next_batch();
    assert_eq!(tss(&out), vec![1, 2, 3, 3, 5, 6]);
    let pulses: Vec<u64> = out.iter().map(|e| e.pulse).collect();
    assert_eq!(pulses, vec![0, 1, 0, 1, 0, 1]);
    assert!(m.range_complete());
}

#[test]
fn merger_waits_for_inputs_and_keeps_batches_ordered() {
    let mut m = Merger::new(2, 2);
    m.push_batch(0, vec![ev(10, 0), ev(20, 0), ev(30, 0)]);
    assert!(m.wants_input(1));
    assert!(m.next_batch().is_empty());
    m.push_batch(1, vec![ev(15, 1)]);
    let b1 = m.next_batch();
    assert_eq!(tss(&b1), vec![10, 15]);
    assert!(m.wants_input(1));
    assert!(m.next_batch().is_empty());
    m.push_batch(1, vec![ev(25, 1), ev(40, 1)]);
    let b2 = m.next_batch();
    assert_eq!(tss(&b2), vec![20, 25]);
    assert!(b1.last().unwrap().ts <= b2[0].ts);
    m.end_input(0, true);
    m.end_input(1, false);
    let b3 = m.next_batch();
    assert_eq!(tss(&b3), vec![30, 40]);
    assert!(m.next_batch().is_empty());
    assert!(!m.range_complete());
}

#[test]
fn range_filter_without_expand() {
    let mut f = RangeFilter::new(10, 20, false);
    let out = f.push(vec![ev(5, 0), ev(10, 1), ev(15, 2)]);
    assert_eq!(tss(&out), vec![10, 15]);
    assert!(!f.is_range_complete());
    let out = f.push(vec![ev(19, 3), ev(20, 4), ev(25, 5)]);
    assert_eq!(tss(&out), vec![19]);
    assert!(f.is_range_complete());
    assert!(f.finish().is_empty());
}

#[test]
fn range_filter_with_expand_keeps_one_each_side() {
    let mut f = RangeFilter::new(10, 20, true);
    assert!(f.push(vec![ev(1, 0), ev(4, 1)]).is_empty());
    let out = f.push(vec![ev(8, 2), ev(12, 3)]);
    assert_eq!(tss(&out), vec![8, 12]);
    let out = f.push(vec![ev(7, 4), ev(21, 5), ev(22, 6)]);
    assert_eq!(tss(&out), vec![21]);
    assert!(f.is_range_complete());
}

#[test]
fn range_filter_flush_emits_held_event() {
    let mut f = RangeFilter::new(10, 20, true);
    assert!(f.push(vec![ev(3, 0), ev(6, 1)]).is_empty());
    assert_eq!(tss(&f.finish()), vec![6]);
}

#[test]
fn storage_merge_prefers_higher_priority_on_equal_ts() {
    let heads = vec![Some(10), Some(5), Some(5), None];
    let completed = vec![false, false, false, true];
    match decide_next_item(&heads, &completed) {
        StorageDecision::Emit { source, discard } => {
            assert_eq!(source, 1);
            assert_eq!(discard, vec![2]);
        }
        other => panic!("unexpected {:?}", other),
    }
    let heads = vec![Some(10), None];
    match decide_next_item(&heads, &vec![false, false]) {
        StorageDecision::NeedInput(k) => assert_eq!(k, 1),
        other => panic!("unexpected {:?}", other),
    }
    assert!(matches!(decide_next_item(&vec![None, None], &vec![true, true]), StorageDecision::Done));
}

#[test]
fn multifile_guard_drops_unordered_and_truncates_at_end() {
    let mut g = MultifileGuard::new(NanoRange { beg: 0, end: 100 }, false);
    let o = g.accept(vec![ev(10, 0), ev(20, 1)]);
    assert_eq!(tss(&o.events), vec![10, 20]);
    assert!(!o.unordered);
    let o = g.accept(vec![ev(15, 2), ev(30, 3)]);
    assert!(o.unordered);
    assert!(o.events.is_empty());
    let o = g.accept(vec![ev(20, 8), ev(25, 9)]);
    assert!(!o.unordered);
    assert_eq!(tss(&o.events), vec![20, 25]);
    let o = g.accept(vec![ev(90, 4), ev(100, 5), ev(110, 6)]);
    assert_eq!(tss(&o.events), vec![90]);
    assert!(g.range_final);
    assert!(g.accept(vec![ev(200, 7)]).events.is_empty());

    let mut g = MultifileGuard::new(NanoRange { beg: 0, end: 100 }, true);
    let o = g.accept(vec![ev(90, 4), ev(100, 5), ev(110, 6)]);
    assert_eq!(tss(&o.events), vec![90, 100]);
}

#[test]
fn storage_range_complete_needs_every_source() {
    use_storage_range_complete();
}

fn use_storage_range_complete() {
    assert!(daqcore::storage::storage_range_complete(&vec![true, true], &vec![true, true]));
    assert!(!daqcore::storage::storage_range_complete(&vec![true, false], &vec![true, true]));
    assert!(!daqcore::storage::storage_range_complete(&vec![true, true], &vec![true, false]));
    assert!(daqcore::storage::storage_range_complete(&vec![], &vec![]));
}

#[test]
fn merger_range_complete_needs_every_input() {
    let mut m = Merger::new(2, 10);
    m.end_input(0, true);
    assert!(!m.range_complete());
    m.end_input(1, true);
    assert!(m.range_complete());
}
