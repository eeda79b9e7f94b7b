use vstd::arithmetic::div_mod::*;
use vstd::prelude::*;

verus! {

/// Unsigned value of a little-endian byte sequence.
pub open spec fn le_nat(s: Seq<u8>) -> nat
    decreases s.len(),
{
    if s.len() == 0 {
        0
    } else {
        s[0] as nat + 256 * le_nat(s.drop_first())
    }
}

/// Unsigned value of a big-endian byte sequence.
pub open spec fn be_nat(s: Seq<u8>) -> nat
    decreases s.len(),
{
    if s.len() == 0 {
        0
    } else {
        be_nat(s.drop_last()) * 256 + s.last() as nat
    }
}

/// `256` to the power `n`.
pub open spec fn pow256(n: nat) -> nat
    decreases n,
{
    if n == 0 {
        1
    } else {
        256 * pow256((n - 1) as nat)
    }
}

/// The `n` lowest bytes of `v`, least significant first.
pub open spec fn le_bytes(v: nat, n: nat) -> Seq<u8>
    decreases n,
{
    if n == 0 {
        Seq::empty()
    } else {
        seq![(v % 256) as u8] + le_bytes(v / 256, (n - 1) as nat)
    }
}

/// The four little-endian bytes of a `u32`.
pub open spec fn le_u32(v: u32) -> Seq<u8> {
    le_bytes(v as nat, 4)
}

pub proof fn lemma_le_bytes_len(v: nat, n: nat)
    ensures
        le_bytes(v, n).len() == n,
    decreases n,
{
    if n > 0 {
        lemma_le_bytes_len(v / 256, (n - 1) as nat);
    }
}

/// Reading back the bytes written for a value that fits gives the value.
pub proof fn lemma_le_round_trip(v: nat, n: nat)
    requires
        v < pow256(n),
    ensures
        le_nat(le_bytes(v, n)) == v,
    decreases n,
{
    if n > 0 {
        let p = pow256((n - 1) as nat);
        assert(v / 256 < p) by {
            lemma_div_is_ordered(v as int, (256 * p - 1) as int, 256);
            lemma_div_multiples_vanish_fancy(p as int - 1, 255, 256);
            assert(256 * p - 1 == 256 * (p - 1) + 255) by (nonlinear_arith);
        }
        lemma_le_round_trip(v / 256, (n - 1) as nat);
        let s = le_bytes(v, n);
        assert(s.drop_first() =~= le_bytes(v / 256, (n - 1) as nat));
        lemma_fundamental_div_mod(v as int, 256);
    }
}

/// Two byte sequences of one length with the same little-endian value are equal.
pub proof fn lemma_le_injective(a: Seq<u8>, b: Seq<u8>)
    requires
        a.len() == b.len(),
        le_nat(a) == le_nat(b),
    ensures
        a == b,
    decreases a.len(),
{
    if a.len() > 0 {
        let ra = le_nat(a.drop_first());
        let rb = le_nat(b.drop_first());
        lemma_fundamental_div_mod_converse(le_nat(a) as int, 256, ra as int, a[0] as int);
        lemma_fundamental_div_mod_converse(le_nat(b) as int, 256, rb as int, b[0] as int);
        lemma_le_injective(a.drop_first(), b.drop_first());
        assert(a =~= seq![a[0]] + a.drop_first());
        assert(b =~= seq![b[0]] + b.drop_first());
    }
}

pub proof fn lemma_pow256_4()
    ensures
        pow256(4) == 0x1_0000_0000,
{
    reveal_with_fuel(pow256, 5);
}

pub proof fn lemma_le_nat4(s: Seq<u8>)
    requires
        s.len() == 4,
    ensures
        le_nat(s) == s[0] as nat + 256 * s[1] as nat + 65536 * s[2] as nat + 16777216 * s[3] as nat,
{
    reveal_with_fuel(le_nat, 5);
    assert(s.drop_first().drop_first().drop_first().drop_first().len() == 0);
}

pub proof fn lemma_be_nat_push(s: Seq<u8>, b: u8)
    ensures
        be_nat(s.push(b)) == be_nat(s) * 256 + b as nat,
{
    assert(s.push(b).drop_last() =~= s);
}

pub proof fn lemma_be_nat_bound(s: Seq<u8>)
    ensures
        be_nat(s) < pow256(s.len()),
    decreases s.len(),
{
    if s.len() > 0 {
        lemma_be_nat_bound(s.drop_last());
        let p = pow256((s.len() - 1) as nat);
        let r = be_nat(s.drop_last());
        assert(r * 256 + 255 < 256 * p) by (nonlinear_arith)
            requires
                r < p,
        ;
    }
}

/// Reads the little-endian `u32` at `off`.
pub fn read_le_u32(buf: &[u8], off: usize) -> (r: u32)
    requires
        off + 4 <= buf@.len(),
    ensures
        r as nat == le_nat(buf@.subrange(off as int, off + 4)),
{
    proof {
        lemma_le_nat4(buf@.subrange(off as int, off + 4));
    }
    (buf[off] as u32) + (buf[off + 1] as u32) * 256 + (buf[off + 2] as u32) * 65536 + (buf[off
        + 3] as u32) * 16777216
}

/// Appends the four little-endian bytes of `v`.
pub fn push_le_u32(out: &mut Vec<u8>, v: u32)
    ensures
        final(out)@ == old(out)@ + le_u32(v),
{
    out.push((v % 256) as u8);
    out.push(((v / 256) % 256) as u8);
    out.push(((v / 65536) % 256) as u8);
    out.push(((v / 16777216) % 256) as u8);
    proof {
        reveal_with_fuel(le_bytes, 5);
        lemma_div_denominator(v as int, 256, 256);
        lemma_div_denominator(v as int, 65536, 256);
        assert(final(out)@ =~= old(out)@ + le_u32(v));
    }
}

/// Reads the big-endian unsigned integer of `n` bytes at `off`.
pub fn read_be_uint(buf: &[u8], off: usize, n: usize) -> (r: u64)
    requires
        n <= 8,
        off + n <= buf@.len(),
    ensures
        r as nat == be_nat(buf@.subrange(off as int, off + n)),
{
    let mut acc: u64 = 0;
    let mut k: usize = 0;
    let len: usize = buf.len();
    while k < n
        invariant
            k <= n,
            n <= 8,
            off + n <= buf@.len(),
            len == buf@.len(),
            acc as nat == be_nat(buf@.subrange(off as int, off + k)),
        decreases n - k,
    {
        proof {
            let s = buf@.subrange(off as int, off + k);
            lemma_be_nat_bound(s);
            lemma_be_nat_push(s, buf@[off + k]);
            assert(buf@.subrange(off as int, off + k + 1) =~= s.push(buf@[off + k]));
            assert(pow256(k as nat) <= pow256(7)) by {
                lemma_pow256_mono(k as nat, 7);
            }
            reveal_with_fuel(pow256, 8);
            assert(acc * 256 + 255 < 0x1_0000_0000_0000_0000) by (nonlinear_arith)
                requires
                    acc < 0x100_0000_0000_0000,
            ;
        }
        let i: usize = off + k;
        acc = acc * 256 + buf[i] as u64;
        k = k + 1;
    }
    acc
}

pub proof fn lemma_pow256_mono(a: nat, b: nat)
    requires
        a <= b,
    ensures
        pow256(a) <= pow256(b),
    decreases b,
{
    if a < b {
        lemma_pow256_mono(a, (b - 1) as nat);
    }
}

/// The eight little-endian bytes of a `u64`.
pub open spec fn le_u64(v: u64) -> Seq<u8> {
    le_bytes(v as nat, 8)
}

/// Appends the eight little-endian bytes of `v`.
pub fn push_le_u64(out: &mut Vec<u8>, v: u64)
    ensures
        final(out)@ == old(out)@ + le_u64(v),
{
    let mut cur: u64 = v;
    let mut k: usize = 0;
    while k < 8
        invariant
            k <= 8,
            out@ + le_bytes(cur as nat, (8 - k) as nat) == old(out)@ + le_u64(v),
        decreases 8 - k,
    {
        let ghost before = out@;
        let ghost rest = le_bytes(cur as nat, (8 - k) as nat);
        out.push((cur % 256) as u8);
        proof {
            assert(rest == seq![(cur % 256) as u8] + le_bytes((cur / 256) as nat, (8 - k - 1) as nat));
            assert(out@ + le_bytes((cur / 256) as nat, (8 - k - 1) as nat) =~= before + rest);
        }
        cur = cur / 256;
        k = k + 1;
    }
    assert(out@ + le_bytes(cur as nat, 0) =~= out@);
}

} // verus!
