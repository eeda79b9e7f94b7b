use crate::endian::{
    le_nat, le_u32, lemma_le_bytes_len, lemma_le_injective, lemma_le_nat4, lemma_le_round_trip, lemma_pow256_4,
    push_le_u32, read_le_u32,
};
use vstd::prelude::*;

verus! {

/// First header word of every frame.
pub const FRAME_MAGIC: u32 = 0xc6c3b73d;

/// Second header word: the one payload encoding in use.
pub const FRAME_ENCID: u32 = 0x12121212;

/// Bytes before the payload: magic, encoder, type, length, payload CRC.
pub const FRAME_HEAD: usize = 20;

/// Bytes after the payload: the CRC of header and payload.
pub const FRAME_FOOT: usize = 4;

/// Type of the frame that ends a logical stream; its payload is empty.
pub const FRAME_TYPE_TERM: u32 = 0x01;

/// Type of a frame whose payload is a serialized error record.
pub const FRAME_TYPE_ERROR: u32 = 0x02;

/// Type of the frame that carries a serialized raw-events query.
pub const FRAME_TYPE_QUERY: u32 = 0x100;

/// Largest payload a decoder accepts unless configured otherwise.
pub const DEFAULT_PAYLOAD_CAP: u32 = 2097152;

/// Base type of dim-0 event batches.
pub const FRAME_BASE_EVENTS_DIM0: u32 = 0x500;

/// Base type of x-binned dim-0 event batches.
pub const FRAME_BASE_XBINNED_DIM0: u32 = 0x600;

/// Base type of min-max-avg bins over dim-0 events.
pub const FRAME_BASE_BINS_DIM0: u32 = 0x700;

/// Base type of dim-1 (waveform) event batches.
pub const FRAME_BASE_EVENTS_DIM1: u32 = 0x800;

/// Base type of x-binned dim-1 event batches.
pub const FRAME_BASE_XBINNED_DIM1: u32 = 0x900;

/// Base type of min-max-avg bins over dim-1 events.
pub const FRAME_BASE_BINS_DIM1: u32 = 0xa00;

/// Base type of wave-expanded bins.
pub const FRAME_BASE_BINS_WAVE: u32 = 0xb00;

/// The CRC-32 checksum of a byte sequence.
pub uninterp spec fn crc32_of(b: Seq<u8>) -> u32;

/// Relies on `crc32fast::hash`: the CRC-32 (IEEE) checksum of `b`, a function of the bytes alone.
#[verifier::external_body]
fn crc32(b: &[u8]) -> (r: u32)
    ensures
        r == crc32_of(b@),
{
    crc32fast::hash(b)
}

/// Why a byte buffer is not a valid frame.
#[derive(PartialEq, Eq, Structural, Clone, Copy, Debug)]
pub enum FrameError {
    BadMagic,
    BadEncoder,
    PayloadTooLarge,
    PayloadCrcMismatch,
    FrameCrcMismatch,
    TypeMismatch,
    LengthMismatch,
}

/// A frame whose checks passed: its type and its payload bytes.
pub struct Frame {
    pub frame_type: u32,
    pub payload: Vec<u8>,
}

/// What a buffer that starts at a frame boundary holds.
pub enum FrameParse {
    /// Not the whole frame yet: at least this many bytes are needed.
    Incomplete(u64),
    /// One whole frame, and the number of bytes it took.
    Complete(Frame, usize),
}

/// What the checks of a frame decide, on the bytes alone.
pub enum FrameCheck {
    Short(nat),
    Bad(FrameError),
    Whole(u32, Seq<u8>, nat),
}

/// The header of a frame, with the given type, payload length and payload CRC.
pub open spec fn header_bytes(ty: u32, len: u32, pcrc: u32) -> Seq<u8> {
    le_u32(FRAME_MAGIC) + le_u32(FRAME_ENCID) + le_u32(ty) + le_u32(len) + le_u32(pcrc)
}

/// The frame that carries payload `p` under type `ty`.
pub open spec fn frame_bytes(ty: u32, p: Seq<u8>) -> Seq<u8> {
    let head = header_bytes(ty, p.len() as u32, crc32_of(p));
    head + p + le_u32(crc32_of(head + p))
}

/// Header word `i` (0 to 4) of `b`.
pub open spec fn head_word(b: Seq<u8>, i: int) -> nat {
    le_nat(b.subrange(4 * i, 4 * i + 4))
}

/// The checks of a frame that starts `b`, in the order a decoder makes them:
/// both CRCs are checked before the payload is handed on.
pub open spec fn check_frame(b: Seq<u8>, cap: nat) -> FrameCheck {
    if b.len() < 20 {
        FrameCheck::Short(20)
    } else if head_word(b, 0) != FRAME_MAGIC {
        FrameCheck::Bad(FrameError::BadMagic)
    } else if head_word(b, 1) != FRAME_ENCID {
        FrameCheck::Bad(FrameError::BadEncoder)
    } else if head_word(b, 3) > cap {
        FrameCheck::Bad(FrameError::PayloadTooLarge)
    } else if b.len() < 24 + head_word(b, 3) {
        FrameCheck::Short(24 + head_word(b, 3))
    } else {
        let n = head_word(b, 3) as int;
        let p = b.subrange(20, 20 + n);
        if head_word(b, 4) != crc32_of(p) {
            FrameCheck::Bad(FrameError::PayloadCrcMismatch)
        } else if le_nat(b.subrange(20 + n, 24 + n)) != crc32_of(b.subrange(0, 20 + n)) {
            FrameCheck::Bad(FrameError::FrameCrcMismatch)
        } else {
            FrameCheck::Whole(head_word(b, 2) as u32, p, (24 + n) as nat)
        }
    }
}

/// Decoding a buffer that must hold exactly one frame of type `expected`.
pub open spec fn decode_spec(b: Seq<u8>, expected: u32, cap: nat) -> Result<Seq<u8>, FrameError> {
    match check_frame(b, cap) {
        FrameCheck::Short(_) => Err(FrameError::LengthMismatch),
        FrameCheck::Bad(e) => Err(e),
        FrameCheck::Whole(ty, p, total) => {
            if total != b.len() {
                Err(FrameError::LengthMismatch)
            } else if ty != expected {
                Err(FrameError::TypeMismatch)
            } else {
                Ok(p)
            }
        },
    }
}

/// The frame type of a typed item: its base plus the scalar-type code.
pub open spec fn typed_frame_spec(base: u32, sub: u8) -> int {
    base + sub
}

/// Frame type of a typed item.
pub fn typed_frame_type(base: u32, sub: u8) -> (r: u32)
    requires
        base <= 0xb00,
    ensures
        r == typed_frame_spec(base, sub),
{
    base + sub as u32
}

/// Frames `payload` under type `ty`.
pub fn make_frame(ty: u32, payload: &[u8]) -> (r: Result<Vec<u8>, FrameError>)
    ensures
        payload@.len() <= u32::MAX ==> (r matches Ok(v) && v@ == frame_bytes(ty, payload@)),
        payload@.len() > u32::MAX ==> r == Err::<Vec<u8>, FrameError>(FrameError::PayloadTooLarge),
{
    let n = payload.len();
    if n > 0xffff_ffff {
        return Err(FrameError::PayloadTooLarge);
    }
    let pcrc = crc32(payload);
    let mut buf: Vec<u8> = Vec::new();
    push_le_u32(&mut buf, FRAME_MAGIC);
    push_le_u32(&mut buf, FRAME_ENCID);
    push_le_u32(&mut buf, ty);
    push_le_u32(&mut buf, n as u32);
    push_le_u32(&mut buf, pcrc);
    let ghost head = buf@;
    let mut i: usize = 0;
    while i < n
        invariant
            i <= n,
            n == payload@.len(),
            buf@ == head + payload@.subrange(0, i as int),
        decreases n - i,
    {
        buf.push(payload[i]);
        i = i + 1;
        assert(buf@ =~= head + payload@.subrange(0, i as int));
    }
    assert(payload@.subrange(0, n as int) =~= payload@);
    let fcrc = crc32(buf.as_slice());
    push_le_u32(&mut buf, fcrc);
    Ok(buf)
}

/// The frame that ends a logical stream.
pub fn make_term_frame() -> (r: Vec<u8>)
    ensures
        r@ == frame_bytes(FRAME_TYPE_TERM, Seq::<u8>::empty()),
{
    let empty: Vec<u8> = Vec::new();
    let r = make_frame(FRAME_TYPE_TERM, empty.as_slice());
    match r {
        Ok(v) => v,
        Err(_) => Vec::new(),
    }
}

/// Reads one frame from the start of `buf`, checking magic, encoder, the
/// length against `cap`, and both CRCs.
pub fn parse_frame(buf: &[u8], cap: u32) -> (r: Result<FrameParse, FrameError>)
    ensures
        match check_frame(buf@, cap as nat) {
            FrameCheck::Short(need) => (r matches Ok(FrameParse::Incomplete(m)) && m == need),
            FrameCheck::Bad(e) => r == Err::<FrameParse, FrameError>(e),
            FrameCheck::Whole(ty, p, total) => (r matches Ok(FrameParse::Complete(f, m))
                && f.frame_type == ty && f.payload@ == p && m == total),
        },
{
    let len = buf.len();
    if len < FRAME_HEAD {
        return Ok(FrameParse::Incomplete(20));
    }
    let magic = read_le_u32(buf, 0);
    if magic != FRAME_MAGIC {
        return Err(FrameError::BadMagic);
    }
    let encid = read_le_u32(buf, 4);
    if encid != FRAME_ENCID {
        return Err(FrameError::BadEncoder);
    }
    let ty = read_le_u32(buf, 8);
    let n = read_le_u32(buf, 12);
    if n > cap {
        return Err(FrameError::PayloadTooLarge);
    }
    let total64: u64 = n as u64 + 24;
    if (len as u64) < total64 {
        return Ok(FrameParse::Incomplete(total64));
    }
    let nu = n as usize;
    let total: usize = nu + 24;
    let pcrc = read_le_u32(buf, 16);
    let payload = &buf[20..20 + nu];
    if pcrc != crc32(payload) {
        return Err(FrameError::PayloadCrcMismatch);
    }
    let fcrc = read_le_u32(buf, 20 + nu);
    if fcrc != crc32(&buf[0..20 + nu]) {
        return Err(FrameError::FrameCrcMismatch);
    }
    let mut out: Vec<u8> = Vec::new();
    let mut i: usize = 0;
    while i < nu
        invariant
            i <= nu,
            nu == payload@.len(),
            out@ == payload@.subrange(0, i as int),
        decreases nu - i,
    {
        out.push(payload[i]);
        i = i + 1;
        assert(out@ =~= payload@.subrange(0, i as int));
    }
    assert(payload@.subrange(0, nu as int) =~= payload@);
    Ok(FrameParse::Complete(Frame { frame_type: ty, payload: out }, total))
}

/// What a reader of a framed stream does with the bytes it has gathered.
pub enum ReaderStep {
    /// Read more: at least this many bytes are needed in all.
    NeedMore(u64),
    /// A data frame, and the number of bytes it took.
    Frame(Frame, usize),
    /// The terminator frame, taking this many bytes: the logical stream ends
    /// cleanly here, and the connection may carry another after it.
    End(usize),
    /// The bytes are not a valid frame: the stream fails.
    Fail(FrameError),
}

/// One step of a reader of a framed stream, over the bytes gathered so far.
pub fn reader_step(buf: &[u8], cap: u32) -> (r: ReaderStep)
    ensures
        match check_frame(buf@, cap as nat) {
            FrameCheck::Short(need) => (r matches ReaderStep::NeedMore(m) && m == need),
            FrameCheck::Bad(e) => (r matches ReaderStep::Fail(f) && f == e),
            FrameCheck::Whole(ty, p, total) => if ty == FRAME_TYPE_TERM {
                (r matches ReaderStep::End(m) && m == total)
            } else {
                (r matches ReaderStep::Frame(f, m) && f.frame_type == ty && f.payload@ == p && m
                    == total)
            },
        },
{
    match parse_frame(buf, cap) {
        Err(e) => ReaderStep::Fail(e),
        Ok(FrameParse::Incomplete(n)) => ReaderStep::NeedMore(n),
        Ok(FrameParse::Complete(f, total)) => {
            if f.frame_type == FRAME_TYPE_TERM {
                ReaderStep::End(total)
            } else {
                ReaderStep::Frame(f, total)
            }
        },
    }
}

/// Decodes a buffer that holds exactly one frame, of type `expected`, and
/// returns its payload.
pub fn decode_frame(buf: &[u8], expected: u32, cap: u32) -> (r: Result<Vec<u8>, FrameError>)
    ensures
        match decode_spec(buf@, expected, cap as nat) {
            Ok(p) => (r matches Ok(v) && v@ == p),
            Err(e) => r == Err::<Vec<u8>, FrameError>(e),
        },
{
    match parse_frame(buf, cap) {
        Err(e) => Err(e),
        Ok(FrameParse::Incomplete(_)) => Err(FrameError::LengthMismatch),
        Ok(FrameParse::Complete(f, total)) => {
            if total != buf.len() {
                Err(FrameError::LengthMismatch)
            } else if f.frame_type != expected {
                Err(FrameError::TypeMismatch)
            } else {
                Ok(f.payload)
            }
        },
    }
}

proof fn lemma_le_u32(v: u32)
    ensures
        le_u32(v).len() == 4,
        le_nat(le_u32(v)) == v,
{
    lemma_le_bytes_len(v as nat, 4);
    lemma_pow256_4();
    lemma_le_round_trip(v as nat, 4);
}

/// Where each field of a made frame stands, and what it reads as.
pub proof fn lemma_frame_layout(ty: u32, p: Seq<u8>)
    requires
        p.len() <= u32::MAX,
    ensures
        ({
            let b = frame_bytes(ty, p);
            let n = p.len() as int;
            let head = header_bytes(ty, n as u32, crc32_of(p));
            &&& b.len() == 24 + n
            &&& head.len() == 20
            &&& head_word(b, 0) == FRAME_MAGIC
            &&& head_word(b, 1) == FRAME_ENCID
            &&& head_word(b, 2) == ty
            &&& head_word(b, 3) == n
            &&& head_word(b, 4) == crc32_of(p)
            &&& b.subrange(20, 20 + n) == p
            &&& b.subrange(0, 20 + n) == head + p
            &&& b.subrange(20 + n, 24 + n) == le_u32(crc32_of(head + p))
            &&& le_nat(b.subrange(20 + n, 24 + n)) == crc32_of(head + p)
        }),
{
    let n = p.len() as int;
    let pcrc = crc32_of(p);
    let head = header_bytes(ty, n as u32, pcrc);
    let b = frame_bytes(ty, p);
    lemma_le_u32(FRAME_MAGIC);
    lemma_le_u32(FRAME_ENCID);
    lemma_le_u32(ty);
    lemma_le_u32(n as u32);
    lemma_le_u32(pcrc);
    lemma_le_u32(crc32_of(head + p));
    assert(b.subrange(0, 4) =~= le_u32(FRAME_MAGIC));
    assert(b.subrange(4, 8) =~= le_u32(FRAME_ENCID));
    assert(b.subrange(8, 12) =~= le_u32(ty));
    assert(b.subrange(12, 16) =~= le_u32(n as u32));
    assert(b.subrange(16, 20) =~= le_u32(pcrc));
    assert(b.subrange(20, 20 + n) =~= p);
    assert(b.subrange(0, 20 + n) =~= head + p);
    assert(b.subrange(20 + n, 24 + n) =~= le_u32(crc32_of(head + p)));
}

/// Decoding the frame made for a payload gives back the payload, under the
/// type it was made with, for every payload within the decoder's cap.
pub proof fn lemma_frame_round_trip(ty: u32, p: Seq<u8>, cap: nat)
    requires
        p.len() <= cap,
        p.len() <= u32::MAX,
    ensures
        check_frame(frame_bytes(ty, p), cap) == FrameCheck::Whole(ty, p, (p.len() + 24) as nat),
        decode_spec(frame_bytes(ty, p), ty, cap) == Ok::<Seq<u8>, FrameError>(p),
{
    lemma_frame_layout(ty, p);
}

/// Changing any one byte of either CRC field of a made frame makes decoding fail.
pub proof fn lemma_crc_mutation_rejected(ty: u32, p: Seq<u8>, cap: nat, i: int, x: u8)
    requires
        p.len() <= cap,
        p.len() <= u32::MAX,
        (16 <= i < 20) || (p.len() + 20 <= i < p.len() + 24),
        x != frame_bytes(ty, p)[i],
    ensures
        decode_spec(frame_bytes(ty, p).update(i, x), ty, cap) is Err,
{
    lemma_frame_layout(ty, p);
    let b = frame_bytes(ty, p);
    let c = b.update(i, x);
    let n = p.len() as int;
    assert(c.subrange(0, 4) =~= b.subrange(0, 4));
    assert(c.subrange(4, 8) =~= b.subrange(4, 8));
    assert(c.subrange(8, 12) =~= b.subrange(8, 12));
    assert(c.subrange(12, 16) =~= b.subrange(12, 16));
    assert(c.subrange(20, 20 + n) =~= b.subrange(20, 20 + n));
    if 16 <= i < 20 {
        if head_word(c, 4) == head_word(b, 4) {
            lemma_le_injective(c.subrange(16, 20), b.subrange(16, 20));
            assert(c.subrange(16, 20)[i - 16] == b.subrange(16, 20)[i - 16]);
        }
        assert(check_frame(c, cap) == FrameCheck::Bad(FrameError::PayloadCrcMismatch));
    } else {
        assert(c.subrange(16, 20) =~= b.subrange(16, 20));
        assert(c.subrange(0, 20 + n) =~= b.subrange(0, 20 + n));
        if le_nat(c.subrange(20 + n, 24 + n)) == le_nat(b.subrange(20 + n, 24 + n)) {
            lemma_le_injective(c.subrange(20 + n, 24 + n), b.subrange(20 + n, 24 + n));
            assert(c.subrange(20 + n, 24 + n)[i - 20 - n] == b.subrange(20 + n, 24 + n)[i - 20 - n]);
        }
        assert(check_frame(c, cap) == FrameCheck::Bad(FrameError::FrameCrcMismatch));
    }
}

/// A made frame followed by any bytes still reads as that frame.
pub proof fn lemma_frame_prefix(ty: u32, p: Seq<u8>, rest: Seq<u8>, cap: nat)
    requires
        p.len() <= cap,
        p.len() <= u32::MAX,
    ensures
        check_frame(frame_bytes(ty, p) + rest, cap) == FrameCheck::Whole(ty, p, (p.len() + 24) as nat),
{
    lemma_frame_layout(ty, p);
    let f = frame_bytes(ty, p);
    let b = f + rest;
    let n = p.len() as int;
    assert(b.subrange(0, 4) =~= f.subrange(0, 4));
    assert(b.subrange(4, 8) =~= f.subrange(4, 8));
    assert(b.subrange(8, 12) =~= f.subrange(8, 12));
    assert(b.subrange(12, 16) =~= f.subrange(12, 16));
    assert(b.subrange(16, 20) =~= f.subrange(16, 20));
    assert(b.subrange(20, 20 + n) =~= f.subrange(20, 20 + n));
    assert(b.subrange(0, 20 + n) =~= f.subrange(0, 20 + n));
    assert(b.subrange(20 + n, 24 + n) =~= f.subrange(20 + n, 24 + n));
}

/// Header word `w` of a changed frame differs from the made one's when the
/// change falls inside it.
proof fn lemma_word_changed(b: Seq<u8>, c: Seq<u8>, w: int, i: int)
    requires
        0 <= w < 5,
        b.len() == c.len(),
        b.len() >= 20,
        4 * w <= i < 4 * w + 4,
        c[i] != b[i],
    ensures
        head_word(c, w) != head_word(b, w),
{
    if head_word(c, w) == head_word(b, w) {
        lemma_le_injective(c.subrange(4 * w, 4 * w + 4), b.subrange(4 * w, 4 * w + 4));
        assert(c.subrange(4 * w, 4 * w + 4)[i - 4 * w] == b.subrange(4 * w, 4 * w + 4)[i - 4 * w]);
    }
}

/// Changing any one byte of the header of a made frame (magic, encoder,
/// type, length or payload CRC) makes decoding it as its type fail.
pub proof fn lemma_header_mutation_rejected(ty: u32, p: Seq<u8>, cap: nat, i: int, x: u8)
    requires
        p.len() <= cap,
        p.len() <= u32::MAX,
        0 <= i < 20,
        x != frame_bytes(ty, p)[i],
    ensures
        decode_spec(frame_bytes(ty, p).update(i, x), ty, cap) is Err,
{
    lemma_frame_layout(ty, p);
    let b = frame_bytes(ty, p);
    let c = b.update(i, x);
    let w = if i < 4 {
        0int
    } else if i < 8 {
        1int
    } else if i < 12 {
        2int
    } else if i < 16 {
        3int
    } else {
        4int
    };
    if w == 4 {
        lemma_crc_mutation_rejected(ty, p, cap, i, x);
    } else {
        lemma_word_changed(b, c, w, i);
        lemma_le_nat4(c.subrange(8, 12));
        if decode_spec(c, ty, cap) is Ok {
            assert(check_frame(c, cap) is Whole);
            assert(head_word(c, 0) == FRAME_MAGIC);
            assert(head_word(c, 1) == FRAME_ENCID);
            assert(head_word(c, 2) < 0x1_0000_0000);
            assert(head_word(c, 2) == ty);
            assert(24 + head_word(c, 3) == c.len());
            assert(false);
        }
    }
}

} // verus!
