use daqcore::cache::{encode_patch, is_record_complete, serve_from_cache, Claim, InFlight, PatchKey};
use daqcore::frame::{make_term_frame, DEFAULT_PAYLOAD_CAP};
use daqcore::netpod::Channel;
use daqcore::patch::{
    finer_granularity, node_ix_for_patch, serve_plan, writes_cache, CacheUsage, PatchCoord, PatchSource, MIN, SEC,
};
use tiny_keccak::Hasher;

fn channel(backend: &str, name: &str) -> Channel {
    Channel { backend: backend.to_string(), name: name.to_string() }
}

fn expected_owner(backend: &str, name: &str, c: &PatchCoord, nodes: u32) -> u32 {
    let mut h = tiny_keccak::Sha3::v256();
    h.update(backend.as_bytes());
    h.update(name.as_bytes());
    h.update(&(c.index * c.patch_len).to_le_bytes());
    h.update(&((c.index + 1) * c.patch_len).to_le_bytes());
    h.update(&c.bin_len.to_le_bytes());
    let mut out = [0u8; 32];
    h.finalize(&mut out);
    u32::from_le_bytes([out[0], out[1], out[2], out[3]]) % nodes
}

#[test]
fn patch_owner_is_stable_and_matches_the_digest() {
    let c = PatchCoord::new(10 * SEC, 640 * SEC, 7).unwrap();
    let ch = channel("testbackend", "scalar-i32-be");
    let a = node_ix_for_patch(&c, &ch, 3);
    let b = node_ix_for_patch(&c, &ch, 3);
    assert_eq!(a, b);
    assert!(a < 3);
    assert_eq!(a, expected_owner("testbackend", "scalar-i32-be", &c, 3));
    for ix in 0..20 {
        let c = PatchCoord::new(SEC, 64 * SEC, ix).unwrap();
        assert_eq!(node_ix_for_patch(&c, &ch, 1000), expected_owner("testbackend", "scalar-i32-be", &c, 1000));
    }
}

#[test]
fn patch_coord_checks() {
    assert!(PatchCoord::new(0, 10, 0).is_none());
    assert!(PatchCoord::new(3, 10, 0).is_none());
    assert!(PatchCoord::new(5, 10, u64::MAX).is_none());
    let c = PatchCoord::new(5, 10, 3).unwrap();
    assert_eq!(c.patch_beg(), 30);
    assert_eq!(c.patch_end(), 40);
    assert_eq!(c.bin_count(), 2);
}

#[test]
fn serve_plan_prefers_cache_then_finer_then_raw() {
    let c = PatchCoord::new(10 * SEC, 640 * SEC, 7).unwrap();
    assert_eq!(serve_plan(&c, CacheUsage::Use, true), PatchSource::Cached);
    assert_eq!(
        serve_plan(&c, CacheUsage::Recompute, true),
        PatchSource::Finer { bin_len: SEC, patch_len: 64 * SEC, first_index: 70, count: 10 }
    );
    assert_eq!(finer_granularity(MIN), Some(SEC));
    assert_eq!(finer_granularity(SEC), None);
    assert_eq!(finer_granularity(7), None);
    let c = PatchCoord::new(SEC, 64 * SEC, 2).unwrap();
    assert_eq!(
        serve_plan(&c, CacheUsage::Ignore, false),
        PatchSource::Raw { beg: 128 * SEC, end: 192 * SEC, bin_count: 64 }
    );
    assert!(writes_cache(CacheUsage::Use));
    assert!(writes_cache(CacheUsage::Recompute));
    assert!(!writes_cache(CacheUsage::Ignore));
}

#[test]
fn cache_record_is_complete_and_served_unchanged() {
    let payloads = vec![vec![1u8, 2, 3], vec![], vec![9u8; 100]];
    let cold = encode_patch(0x707, &payloads).unwrap();
    assert!(cold.ends_with(&make_term_frame()));
    assert!(is_record_complete(&cold, DEFAULT_PAYLOAD_CAP));
    let again = encode_patch(0x707, &payloads).unwrap();
    assert_eq!(cold, again);
    let c = PatchCoord::new(10 * SEC, 640 * SEC, 7).unwrap();
    assert_eq!(serve_plan(&c, CacheUsage::Use, is_record_complete(&cold, DEFAULT_PAYLOAD_CAP)), PatchSource::Cached);
    assert!(!is_record_complete(&cold[..cold.len() - 1], DEFAULT_PAYLOAD_CAP));
    assert!(!is_record_complete(&cold[..cold.len() - 24], DEFAULT_PAYLOAD_CAP));
    assert!(!is_record_complete(&[], DEFAULT_PAYLOAD_CAP));
    assert_eq!(serve_from_cache(&cold, DEFAULT_PAYLOAD_CAP), Some(again));
    assert_eq!(serve_from_cache(&cold[..cold.len() - 3], DEFAULT_PAYLOAD_CAP), None);
}

#[test]
fn coalescing_builds_once() {
    let c = PatchCoord::new(10 * SEC, 640 * SEC, 7).unwrap();
    let key = || PatchKey { coord: c, backend: "b".to_string(), name: "n".to_string() };
    let other = PatchKey { coord: c, backend: "b".to_string(), name: "m".to_string() };
    let mut t = InFlight::new();
    assert_eq!(t.begin(key()), Claim::Build);
    assert_eq!(t.begin(key()), Claim::Attach);
    assert_eq!(t.begin(other), Claim::Build);
    t.finish(&key());
    assert_eq!(t.begin(key()), Claim::Build);
}
