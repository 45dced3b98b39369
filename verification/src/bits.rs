//! MSB-first bit sequences: the mathematical model shared by the byte,
//! dibit and info-vector conversions.

use vstd::prelude::*;
use vstd::arithmetic::power2::{pow2, lemma_pow2_unfold, lemma2_to64};

verus! {

/// Bit `j` (0 = most significant) of the `w`-bit value `v`.
pub open spec fn bit_at(v: u32, w: nat, j: int) -> u8 {
    ((v >> ((w - 1 - j) as u32)) & 1u32) as u8
}

/// The `w` low bits of `v`, most significant first.
pub open spec fn msb_bits(v: u32, w: nat) -> Seq<u8> {
    Seq::new(w, |j: int| bit_at(v, w, j))
}

/// The number whose MSB-first binary digits are `s`.
pub open spec fn msb_value(s: Seq<u8>) -> nat
    decreases s.len(),
{
    if s.len() == 0 {
        0
    } else {
        (2 * msb_value(s.drop_last()) + s.last()) as nat
    }
}

/// Every element of `s` is a binary digit.
pub open spec fn is_bits(s: Seq<u8>) -> bool {
    forall|i: int| 0 <= i < s.len() ==> #[trigger] s[i] <= 1
}

/// The mask of the `w` low bits.
pub open spec fn low_mask(w: nat) -> u32 {
    ((1u32 << (w as u32)) - 1) as u32
}

/// A value read from `w` binary digits is below `2^w`.
pub proof fn lemma_msb_value_bound(s: Seq<u8>)
    requires
        is_bits(s),
    ensures
        msb_value(s) < pow2(s.len()),
    decreases s.len(),
{
    if s.len() > 0 {
        assert(is_bits(s.drop_last()));
        lemma_msb_value_bound(s.drop_last());
        lemma_pow2_unfold(s.len());
        assert(s.last() <= 1);
    } else {
        lemma2_to64();
    }
}

/// Appending one digit doubles the value and adds the digit.
pub proof fn lemma_msb_value_push(s: Seq<u8>, b: u8)
    ensures
        msb_value(s.push(b)) == 2 * msb_value(s) + b,
{
    assert(s.push(b).drop_last() =~= s);
}

/// Writing a value of at most 16 bits MSB-first and reading it back
/// gives its low `w` bits.
pub proof fn lemma_msb_value_of_bits(v: u32, w: nat)
    requires
        w <= 16,
    ensures
        msb_value(msb_bits(v, w)) == low_mask(w) & v,
    decreases w,
{
    if w == 0 {
        assert(low_mask(0) == 0u32) by (bit_vector);
        assert(0u32 & v == 0u32) by (bit_vector);
    } else {
        let v1: u32 = v >> 1u32;
        lemma_msb_value_of_bits(v1, (w - 1) as nat);
        let s = msb_bits(v, w);
        let s1 = msb_bits(v1, (w - 1) as nat);
        assert forall|j: int| 0 <= j < w - 1 implies #[trigger] s.drop_last()[j] == s1[j] by {
            let sh: u32 = (w - 1 - j) as u32;
            assert((v >> sh) == ((v >> 1u32) >> ((sh - 1) as u32))) by (bit_vector)
                requires 1 <= sh < 32;
        }
        assert(s.drop_last() =~= s1);
        let ww: u32 = w as u32;
        assert((v >> 0u32) & 1u32 == v & 1u32) by (bit_vector);
        assert(v & 1u32 <= 1u32) by (bit_vector);
        assert(s.last() as int == (v & 1u32) as int);
        assert(msb_value(s) == 2 * msb_value(s1) + s.last());
        assert(msb_value(s1) == low_mask((w - 1) as nat) & v1);
        assert(low_mask((w - 1) as nat) == ((1u32 << ((ww - 1) as u32)) - 1) as u32);
        assert(low_mask(w) == ((1u32 << ww) - 1) as u32);
        assert((((1u32 << ((ww - 1) as u32)) - 1) as u32 & (v >> 1u32)) * 2 + (v & 1u32)
            == (((1u32 << ww) - 1) as u32 & v)) by (bit_vector)
            requires 1 <= ww <= 16;
    }
}

/// Reading a bit string and writing the value back MSB-first gives the
/// same bit string.
pub proof fn lemma_bits_of_msb_value(s: Seq<u8>)
    requires
        is_bits(s),
        s.len() <= 16,
    ensures
        msb_value(s) < 0x10000,
        msb_bits(msb_value(s) as u32, s.len()) == s,
    decreases s.len(),
{
    lemma_msb_value_bound(s);
    lemma2_to64();
    if s.len() < 16 {
        vstd::arithmetic::power2::lemma_pow2_strictly_increases(s.len(), 16);
    }
    if s.len() > 0 {
        let s1 = s.drop_last();
        assert(is_bits(s1));
        lemma_bits_of_msb_value(s1);
        lemma_msb_value_bound(s1);
        if s1.len() < 15 {
            vstd::arithmetic::power2::lemma_pow2_strictly_increases(s1.len(), 15);
        }
        let w = s.len();
        let vp: u32 = msb_value(s1) as u32;
        let b: u32 = s.last() as u32;
        assert(vp < 0x8000);
        assert(b <= 1);
        let v: u32 = msb_value(s) as u32;
        assert(v == vp * 2 + b);
        let t = msb_bits(v, w);
        assert forall|j: int| 0 <= j < w implies #[trigger] t[j] == s[j] by {
            if j < w - 1 {
                let sh: u32 = (w - 1 - j) as u32;
                assert((((vp * 2 + b) as u32) >> sh) == (vp >> ((sh - 1) as u32))) by (bit_vector)
                    requires vp < 0x8000, b <= 1, 1 <= sh < 16;
                assert(s1[j] == msb_bits(vp, (w - 1) as nat)[j]);
            } else {
                assert((((vp * 2 + b) as u32) >> 0u32) & 1u32 == b) by (bit_vector)
                    requires vp < 0x8000, b <= 1;
            }
        }
        assert(t =~= s);
    }
}

} // verus!
