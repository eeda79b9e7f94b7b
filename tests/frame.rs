use daqcore::frame::{
    reader_step, ReaderStep,
    decode_frame, make_frame, make_term_frame, parse_frame, typed_frame_type, FrameError, FrameParse,
    DEFAULT_PAYLOAD_CAP, FRAME_BASE_EVENTS_DIM0, FRAME_TYPE_QUERY, FRAME_TYPE_TERM,
};

fn le32(b: &[u8], off: usize) -> u32 {
    u32::from_le_bytes([b[off], b[off + 1], b[off + 2], b[off + 3]])
}

#[test]
fn frame_layout_and_round_trip() {
    let payload = b"hello frame".to_vec();
    let ty = typed_frame_type(FRAME_BASE_EVENTS_DIM0, 7);
    assert_eq!(ty, 0x507);
    let f = make_frame(ty, &payload).unwrap();
    assert_eq!(f.len(), 20 + payload.len() + 4);
    assert_eq!(le32(&f, 0), 0xc6c3b73d);
    assert_eq!(le32(&f, 4), 0x12121212);
    assert_eq!(le32(&f, 8), 0x507);
    assert_eq!(le32(&f, 12), payload.len() as u32);
    assert_eq!(le32(&f, 16), crc32fast::hash(&payload));
    let n = f.len();
    assert_eq!(le32(&f, n - 4), crc32fast::hash(&f[..n - 4]));
    match parse_frame(&f, DEFAULT_PAYLOAD_CAP) {
        Ok(FrameParse::Complete(fr, used)) => {
            assert_eq!(fr.frame_type, 0x507);
            assert_eq!(fr.payload, payload);
            assert_eq!(used, n);
        }
        _ => panic!("frame did not parse"),
    }
    assert_eq!(decode_frame(&f, 0x507, DEFAULT_PAYLOAD_CAP), Ok(payload));
}

#[test]
fn frame_round_trip_empty_payload_and_terminator() {
    let t = make_term_frame();
    assert_eq!(t.len(), 24);
    assert_eq!(le32(&t, 8), FRAME_TYPE_TERM);
    assert_eq!(decode_frame(&t, FRAME_TYPE_TERM, DEFAULT_PAYLOAD_CAP), Ok(vec![]));
    let q = make_frame(FRAME_TYPE_QUERY, b"{}").unwrap();
    assert_eq!(decode_frame(&q, FRAME_TYPE_QUERY, 2), Ok(b"{}".to_vec()));
}

#[test]
fn crc_mutation_rejected() {
    let payload = vec![1u8, 2, 3, 4, 5, 6];
    let f = make_frame(0x700 + 9, &payload).unwrap();
    let n = f.len();
    for i in 16..20 {
        let mut g = f.clone();
        g[i] ^= 0x5a;
        assert_eq!(decode_frame(&g, 0x709, DEFAULT_PAYLOAD_CAP), Err(FrameError::PayloadCrcMismatch));
    }
    for i in n - 4..n {
        let mut g = f.clone();
        g[i] = g[i].wrapping_add(1);
        assert_eq!(decode_frame(&g, 0x709, DEFAULT_PAYLOAD_CAP), Err(FrameError::FrameCrcMismatch));
    }
    let mut g = f.clone();
    g[20] ^= 1;
    assert_eq!(decode_frame(&g, 0x709, DEFAULT_PAYLOAD_CAP), Err(FrameError::PayloadCrcMismatch));
}

#[test]
fn frame_errors() {
    let f = make_frame(0x100, b"abc").unwrap();
    let mut g = f.clone();
    g[0] = 0;
    assert_eq!(decode_frame(&g, 0x100, DEFAULT_PAYLOAD_CAP), Err(FrameError::BadMagic));
    let mut g = f.clone();
    g[5] = 0;
    assert_eq!(decode_frame(&g, 0x100, DEFAULT_PAYLOAD_CAP), Err(FrameError::BadEncoder));
    assert_eq!(decode_frame(&f, 0x100, 2), Err(FrameError::PayloadTooLarge));
    assert_eq!(decode_frame(&f, 0x101, DEFAULT_PAYLOAD_CAP), Err(FrameError::TypeMismatch));
    let mut g = f.clone();
    g.push(0);
    assert_eq!(decode_frame(&g, 0x100, DEFAULT_PAYLOAD_CAP), Err(FrameError::LengthMismatch));
    assert_eq!(decode_frame(&f[..10], 0x100, DEFAULT_PAYLOAD_CAP), Err(FrameError::LengthMismatch));
}

#[test]
fn parse_frame_needs_more_bytes() {
    let f = make_frame(0x100, b"abcdef").unwrap();
    match parse_frame(&f[..7], DEFAULT_PAYLOAD_CAP) {
        Ok(FrameParse::Incomplete(n)) => assert_eq!(n, 20),
        _ => panic!("expected incomplete"),
    }
    match parse_frame(&f[..21], DEFAULT_PAYLOAD_CAP) {
        Ok(FrameParse::Incomplete(n)) => assert_eq!(n, 30),
        _ => panic!("expected incomplete"),
    }
    let mut two = f.clone();
    two.extend_from_slice(&make_term_frame());
    match parse_frame(&two, DEFAULT_PAYLOAD_CAP) {
        Ok(FrameParse::Complete(fr, used)) => {
            assert_eq!(used, 30);
            assert_eq!(fr.payload, b"abcdef".to_vec());
        }
        _ => panic!("expected a frame"),
    }
}

#[test]
fn reader_steps_through_a_stream() {
    let mut s = make_frame(0x507, b"abc").unwrap();
    s.extend_from_slice(&make_term_frame());
    match reader_step(&s[..5], DEFAULT_PAYLOAD_CAP) {
        ReaderStep::NeedMore(n) => assert_eq!(n, 20),
        _ => panic!("expected need"),
    }
    let used = match reader_step(&s, DEFAULT_PAYLOAD_CAP) {
        ReaderStep::Frame(f, used) => {
            assert_eq!(f.payload, b"abc".to_vec());
            used
        }
        _ => panic!("expected a frame"),
    };
    assert_eq!(used, 27);
    assert!(matches!(reader_step(&s[used..], DEFAULT_PAYLOAD_CAP), ReaderStep::End(24)));
    let mut bad = s.clone();
    bad[0] = 0;
    assert!(matches!(reader_step(&bad, DEFAULT_PAYLOAD_CAP), ReaderStep::Fail(FrameError::BadMagic)));
}
