//! Little-endian byte strings, and the outside primitives that produce them.

use vstd::prelude::*;
use vstd::arithmetic::power2::pow2;
use byteorder::ByteOrder;

verus! {

/// The low `n` bytes of `v`, least significant first.
pub open spec fn le_bytes(v: nat, n: nat) -> Seq<u8> {
    Seq::new(n, |i: int| ((v / pow2(8 * i as nat)) % 256) as u8)
}

/// The number that a little-endian byte string stands for.
pub open spec fn le_value(s: Seq<u8>) -> nat
    decreases s.len(),
{
    if s.len() == 0 {
        0
    } else {
        le_value(s.drop_last()) + s.last() as nat * pow2(8 * (s.len() - 1) as nat)
    }
}

/// The IEEE CRC-32 of a byte string.
pub uninterp spec fn crc32_of(b: Seq<u8>) -> u32;

/// Relies on byteorder's `LittleEndian::write_u16`: the two bytes of `v`, low byte first.
#[verifier::external_body]
pub(crate) fn le_u16(v: u16) -> (r: [u8; 2])
    ensures
        r@ == le_bytes(v as nat, 2),
{
    let mut b = [0u8; 2];
    byteorder::LittleEndian::write_u16(&mut b, v);
    b
}

/// Relies on byteorder's `LittleEndian::write_u32`: the four bytes of `v`, low byte first.
#[verifier::external_body]
pub(crate) fn le_u32(v: u32) -> (r: [u8; 4])
    ensures
        r@ == le_bytes(v as nat, 4),
{
    let mut b = [0u8; 4];
    byteorder::LittleEndian::write_u32(&mut b, v);
    b
}

/// Relies on byteorder's `LittleEndian::write_u64`: the eight bytes of `v`, low byte first.
#[verifier::external_body]
pub(crate) fn le_u64(v: u64) -> (r: [u8; 8])
    ensures
        r@ == le_bytes(v as nat, 8),
{
    let mut b = [0u8; 8];
    byteorder::LittleEndian::write_u64(&mut b, v);
    b
}

/// Relies on crc's `crc32::checksum_ieee`: the IEEE CRC-32 of `b`, a function of its bytes alone.
#[verifier::external_body]
pub(crate) fn crc32(b: &[u8]) -> (r: u32)
    ensures
        r == crc32_of(b@),
{
    crc::crc32::checksum_ieee(b)
}

/// Appends the bytes of an array to `out`.
pub(crate) fn push_all(out: &mut Vec<u8>, b: &[u8])
    ensures
        final(out)@ == old(out)@ + b@,
{
    let mut i: usize = 0;
    while i < b.len()
        invariant
            i <= b@.len(),
            out@ == old(out)@ + b@.subrange(0, i as int),
        decreases b@.len() - i,
    {
        out.push(b[i]);
        i = i + 1;
        assert(b@.subrange(0, i as int) == b@.subrange(0, i - 1) + seq![b@[i - 1]]);
    }
    assert(b@.subrange(0, b@.len() as int) == b@);
}

} // verus!

verus! {

/// Dropping one more byte from the bottom of `v`.
pub proof fn lemma_shift_byte(v: nat, k: nat)
    ensures
        v / pow2(8 * k) / 256 == v / pow2(8 * (k + 1)),
{
    vstd::arithmetic::power2::lemma2_to64();
    vstd::arithmetic::power2::lemma_pow2_pos(8 * k);
    vstd::arithmetic::power2::lemma_pow2_adds(8 * k, 8);
    assert(8 * (k + 1) == 8 * k + 8);
    vstd::arithmetic::div_mod::lemma_div_denominator(v as int, pow2(8 * k) as int, 256);
}

/// A quotient reaches `m` exactly when the dividend reaches `m` times the divisor.
pub proof fn lemma_div_reaches(v: nat, p: nat, m: nat)
    requires
        p > 0,
    ensures
        v / p >= m <==> v >= p * m,
{
    vstd::arithmetic::div_mod::lemma_fundamental_div_mod(v as int, p as int);
    let q = v / p;
    let r = v % p;
    assert(v == p * q + r);
    assert(0 <= r < p);
    if q >= m {
        assert(p * q >= p * m) by (nonlinear_arith)
            requires q >= m, p > 0;
    } else {
        assert(p * q + p <= p * m) by (nonlinear_arith)
            requires q + 1 <= m, p > 0;
    }
}

} // verus!

verus! {

/// Reading back `n` little-endian bytes gives the low `8n` bits of the number.
pub proof fn lemma_le_value_of_bytes(v: nat, n: nat)
    ensures
        le_bytes(v, n).len() == n,
        le_value(le_bytes(v, n)) == v % pow2(8 * n),
    decreases n,
{
    vstd::arithmetic::power2::lemma2_to64();
    if n == 0 {
        assert(8 * n == 0);
        assert(v % 1 == 0) by (nonlinear_arith);
    } else {
        let m = (n - 1) as nat;
        lemma_le_value_of_bytes(v, m);
        assert(le_bytes(v, n).drop_last() =~= le_bytes(v, m));
        let p = pow2(8 * m);
        vstd::arithmetic::power2::lemma_pow2_pos(8 * m);
        vstd::arithmetic::power2::lemma_pow2_adds(8 * m, 8);
        assert(8 * m + 8 == 8 * n);
        vstd::arithmetic::div_mod::lemma_mod_breakdown(v as int, p as int, 256);
        assert(le_bytes(v, n).last() as nat == (v / p) % 256);
        assert(p * ((v / p) % 256) == ((v / p) % 256) * p) by (nonlinear_arith);
    }
}

/// Little-endian bytes of a number that fits in them read back as the number.
pub proof fn lemma_le_round_trip(v: nat, n: nat)
    requires
        v < pow2(8 * n),
    ensures
        le_bytes(v, n).len() == n,
        le_value(le_bytes(v, n)) == v,
{
    lemma_le_value_of_bytes(v, n);
    vstd::arithmetic::div_mod::lemma_small_mod(v, pow2(8 * n));
}

} // verus!
