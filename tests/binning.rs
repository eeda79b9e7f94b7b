use daqcore::binning::{bin_events, BinnedRange};
use daqcore::items::Fits;
use daqcore::netpod::NanoRange;

const SEC: u64 = 1_000_000_000;

#[test]
fn bins_partition_the_range() {
    let r = BinnedRange::new(100, 200, 4).unwrap();
    assert_eq!(r.bin_len(), 25);
    let tss = vec![90, 100, 110, 124, 125, 170, 199, 200, 250];
    let vals = vec![1000, 5, -3, 7, 2, 8, 4, 99, 99];
    let b = bin_events(&r, &tss, &vals);
    assert_eq!(b.ts1s, vec![100, 125, 150, 175]);
    assert_eq!(b.ts2s, vec![125, 150, 175, 200]);
    assert_eq!(b.counts, vec![3, 1, 1, 1]);
    for i in 0..3 {
        assert_eq!(b.ts2s[i], b.ts1s[i + 1]);
    }
    let in_range = tss.iter().filter(|&&t| t >= 100 && t < 200).count() as u64;
    assert_eq!(b.counts.iter().sum::<u64>(), in_range);
    assert_eq!(b.mins, vec![Some(-3), Some(2), Some(8), Some(4)]);
    assert_eq!(b.maxs, vec![Some(7), Some(2), Some(8), Some(4)]);
    assert_eq!(b.sums, vec![9, 2, 8, 4]);
}

#[test]
fn empty_bins_have_no_extrema() {
    let r = BinnedRange::new(0, 30, 3).unwrap();
    let b = bin_events(&r, &[5, 6], &[i64::MIN, i64::MAX]);
    assert_eq!(b.counts, vec![2, 0, 0]);
    assert_eq!(b.mins, vec![Some(i64::MIN), None, None]);
    assert_eq!(b.maxs, vec![Some(i64::MAX), None, None]);
    assert_eq!(b.sums, vec![-1, 0, 0]);
}

#[test]
fn binned_range_rejects_bad_specs() {
    assert!(BinnedRange::new(10, 10, 1).is_none());
    assert!(BinnedRange::new(10, 5, 1).is_none());
    assert!(BinnedRange::new(0, 10, 0).is_none());
    assert!(BinnedRange::new(0, 10, 11).is_none());
    assert!(BinnedRange::new(0, 10, 10).is_some());
    assert!(BinnedRange::new(0, 10, 3).is_none());
    assert!(BinnedRange::new(0, 10, 5).is_some());
}

#[test]
fn two_bins_over_twenty_seconds() {
    let beg = 1210 * SEC;
    let end = 1230 * SEC;
    let r = BinnedRange::new(beg, end, 2).unwrap();
    let tss: Vec<u64> = (0..40).map(|k| beg + k * SEC / 2).collect();
    let vals: Vec<i64> = (0..40).collect();
    let b = bin_events(&r, &tss, &vals);
    assert_eq!(b.counts.len(), 2);
    assert_eq!(b.counts, vec![20, 20]);
    assert_eq!(b.ts1s[0], beg);
    assert_eq!(b.ts2s[1], end);
    assert_eq!(b.mins, vec![Some(0), Some(20)]);
    assert_eq!(b.maxs, vec![Some(19), Some(39)]);
}

#[test]
fn time_weighted_integrals_follow_the_step_signal() {
    let r = BinnedRange::new(10, 110, 2).unwrap();
    let out = daqcore::binning::time_weighted_integrals(&r, &[0, 30, 80], &[2, 4, -1]);
    assert_eq!(out, vec![160, 50]);
    let out = daqcore::binning::time_weighted_integrals(&r, &[], &[]);
    assert_eq!(out, vec![0, 0]);
}

#[test]
fn bins_fit_against_a_range() {
    let r = BinnedRange::new(100, 200, 4).unwrap();
    let b = bin_events(&r, &[], &[]);
    assert_eq!(b.fits(&NanoRange { beg: 0, end: 1000 }), Fits::Inside);
    assert_eq!(b.fits(&NanoRange { beg: 200, end: 300 }), Fits::Lower);
    assert_eq!(b.fits(&NanoRange { beg: 150, end: 300 }), Fits::PartlyLower);
    assert_eq!(b.fits(&NanoRange { beg: 0, end: 100 }), Fits::Greater);
}

#[test]
fn waveforms_reduce_to_one_bin() {
    let out = daqcore::binning::x_bin_waves(&vec![vec![3, -7, 5], vec![], vec![i64::MAX, i64::MAX]]);
    assert_eq!(out.len(), 3);
    assert_eq!((out[0].count, out[0].min, out[0].max, out[0].sum), (3, Some(-7), Some(5), 1));
    assert_eq!((out[1].count, out[1].min, out[1].max, out[1].sum), (0, None, None, 0));
    assert_eq!(out[2].sum, 2 * (i64::MAX as i128));
}

#[test]
fn waveform_events_bin_element_by_element() {
    let r = BinnedRange::new(0, 20, 2).unwrap();
    let waves = vec![vec![1, 10], vec![3, -10], vec![5, 7]];
    let out = daqcore::binning::bin_wave_events(&r, &[0, 5, 15], &waves, 2);
    assert_eq!(out.len(), 2);
    assert_eq!(out[0].counts, vec![2, 1]);
    assert_eq!(out[0].mins, vec![Some(1), Some(5)]);
    assert_eq!(out[1].maxs, vec![Some(10), Some(7)]);
    assert_eq!(out[1].sums, vec![0, 7]);
}

#[test]
fn time_weighted_filter_keeps_only_the_event_before() {
    let mk = |ts: u64| daqcore::event::Event::new(ts, 0, vec![]);
    let mut f = daqcore::rangefilter::RangeFilter::new_time_weighted(10, 20);
    let out = f.push(vec![mk(5), mk(8), mk(12), mk(20), mk(25)]);
    let tss: Vec<u64> = out.iter().map(|e| e.ts).collect();
    assert_eq!(tss, vec![8, 12]);
    assert!(f.is_range_complete());
}
