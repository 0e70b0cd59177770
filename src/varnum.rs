//! The container's variable-length encoding of unsigned 64-bit numbers.

use vstd::prelude::*;
use vstd::arithmetic::power2::{pow2, lemma2_to64, lemma_pow2_adds, lemma_pow2_pos, lemma_pow2_unfold};
use crate::bytes::{le_bytes, lemma_div_reaches, lemma_shift_byte};

verus! {

/// Counts the bytes that follow the marker, searching upward from `n`: the
/// least count `k < 8` with `v < 2^(7(k+1))`, or 8 where there is none.
pub open spec fn varnum_extra_from(v: nat, n: nat) -> nat
    decreases 8 - n,
{
    if n >= 8 {
        8
    } else if v < pow2(7 * (n + 1)) {
        n
    } else {
        varnum_extra_from(v, n + 1)
    }
}

/// How many little-endian bytes follow the marker byte of `v`.
pub open spec fn varnum_extra(v: nat) -> nat {
    varnum_extra_from(v, 0)
}

/// The marker byte: one high bit set for each byte that follows, then the
/// bits of `v` above those bytes.
pub open spec fn varnum_marker(v: nat) -> u8 {
    let n = varnum_extra(v);
    (256 - pow2((8 - n) as nat) + v / pow2(8 * n)) as u8
}

/// The encoding of `v`: its marker byte, then its low bytes.
pub open spec fn varnum(v: nat) -> Seq<u8> {
    seq![varnum_marker(v)] + le_bytes(v, varnum_extra(v))
}

/// Appends the variable-length encoding of `value` to `out`.
pub fn write_varnum(out: &mut Vec<u8>, value: u64)
    ensures
        final(out)@ == old(out)@ + varnum(value as nat),
{
    let ghost v = value as nat;
    let mut extra: u64 = 0;
    let mut mask: u64 = 0x80;
    let mut prefix: u64 = 0;
    let mut high: u64 = value;
    proof {
        lemma2_to64();
        assert(8 * (extra as nat) == 0);
    }
    while extra < 8 && high >= mask
        invariant
            extra <= 8,
            varnum_extra_from(v, extra as nat) == varnum_extra(v),
            extra < 8 ==> mask == pow2((7 - extra) as nat),
            prefix == 256 - pow2((8 - extra) as nat),
            high == v / pow2(8 * extra as nat),
        decreases 8 - extra,
    {
        proof {
            let e = extra as nat;
            lemma_pow2_pos(8 * e);
            lemma_pow2_adds(8 * e, (7 - e) as nat);
            assert(8 * e + (7 - e) == 7 * (e + 1));
            lemma_div_reaches(v, pow2(8 * e), pow2((7 - e) as nat));
            lemma_shift_byte(v, e);
            lemma_pow2_unfold((8 - e) as nat);
            assert((8 - e) as nat - 1 == (7 - e) as nat);
            if e < 7 {
                lemma_pow2_unfold((7 - e) as nat);
                assert((7 - e) as nat - 1 == (6 - e) as nat);
            }
        }
        prefix = prefix + mask;
        mask = mask / 2;
        high = high / 256;
        extra = extra + 1;
    }
    proof {
        let e = extra as nat;
        if e < 8 {
            lemma_pow2_pos(8 * e);
            lemma_pow2_adds(8 * e, (7 - e) as nat);
            assert(8 * e + (7 - e) == 7 * (e + 1));
            lemma_div_reaches(v, pow2(8 * e), pow2((7 - e) as nat));
            lemma_pow2_unfold((8 - e) as nat);
            assert((8 - e) as nat - 1 == (7 - e) as nat);
        } else {
            assert(8 * e == 64);
            vstd::arithmetic::div_mod::lemma_basic_div(v as int, pow2(64) as int);
        }
    }
    out.push((prefix + high) as u8);
    let ghost start = out@;
    let mut rest: u64 = value;
    let mut k: u64 = 0;
    assert(8 * (k as nat) == 0);
    while k < extra
        invariant
            k <= extra <= 8,
            extra == varnum_extra(v),
            rest == v / pow2(8 * k as nat),
            out@ == start + le_bytes(v, k as nat),
        decreases extra - k,
    {
        proof {
            lemma_shift_byte(v, k as nat);
        }
        out.push((rest % 256) as u8);
        rest = rest / 256;
        k = k + 1;
        assert(le_bytes(v, k as nat) =~= le_bytes(v, (k - 1) as nat).push(
            ((v / pow2(8 * (k - 1) as nat)) % 256) as u8));
    }
    assert(start == old(out)@ + seq![varnum_marker(v)]);
}

} // verus!

verus! {

/// A value of 2^56 or more is written as the marker 0xFF followed by all
/// eight of its bytes, low byte first, which read back as the value.
pub proof fn lemma_varnum_full_width(v: u64)
    requires
        v >= 0x100_0000_0000_0000,
    ensures
        varnum(v as nat) == seq![0xFFu8] + le_bytes(v as nat, 8),
        crate::bytes::le_value(varnum(v as nat).subrange(1, 9)) == v,
{
    lemma2_to64();
    vstd::arithmetic::power2::lemma2_to64_rest();
    reveal_with_fuel(varnum_extra_from, 9);
    assert(varnum_extra(v as nat) == 8);
    vstd::arithmetic::div_mod::lemma_basic_div(v as int, pow2(64) as int);
    assert(varnum_marker(v as nat) == 0xFF);
    assert(varnum(v as nat).subrange(1, 9) =~= le_bytes(v as nat, 8));
    crate::bytes::lemma_le_round_trip(v as nat, 8);
}

} // verus!
