//! The half-rate info vectors `û₀..û₃` ⇄ the 7-byte natural (AMBE_d,
//! plain sequential MSB-first) no-FEC frame.

use vstd::prelude::*;
use vstd::arithmetic::power2::{pow2, lemma_pow2_unfold, lemma2_to64, lemma_pow2_strictly_increases};
use crate::bits::{bit_at, is_bits, low_mask, msb_bits, msb_value, lemma_bits_of_msb_value, lemma_msb_value_bound, lemma_msb_value_of_bits, lemma_msb_value_push};
use crate::errors::{ArgError, require_len};

verus! {

/// Number of information bits in a half-rate frame.
pub const INFO_BITS_TOTAL: usize = 49;

/// Bytes in a no-FEC half-rate frame (49 info bits and 7 zero pad bits).
pub const NO_FEC_FRAME_BYTES: usize = 7;

/// Width in bits of the info vector `û_o`.
pub open spec fn info_width(o: int) -> nat {
    if o == 0 {
        12
    } else if o == 1 {
        12
    } else if o == 2 {
        11
    } else {
        14
    }
}

/// Bit offset of `û_o` in the natural bit order.
pub open spec fn info_offset(o: int) -> nat {
    if o == 0 {
        0
    } else if o == 1 {
        12
    } else if o == 2 {
        24
    } else if o == 3 {
        35
    } else {
        49
    }
}

/// Width in bits of the info vector `û_o`.
pub fn width_of(o: usize) -> (w: usize)
    requires
        o < 4,
    ensures
        w == info_width(o as int),
{
    if o == 0 {
        12
    } else if o == 1 {
        12
    } else if o == 2 {
        11
    } else {
        14
    }
}

/// The bits of `bytes`, each byte most significant bit first.
pub open spec fn natural_bits(bytes: Seq<u8>) -> Seq<u8> {
    Seq::new(8 * bytes.len(), |p: int| bit_at(bytes[p / 8] as u32, 8, p % 8))
}

/// The value of `û_o` read from natural-order bytes.
pub open spec fn natural_field(bytes: Seq<u8>, o: int) -> nat {
    msb_value(
        natural_bits(bytes).subrange(
            info_offset(o) as int,
            (info_offset(o) + info_width(o)) as int,
        ),
    )
}

/// The four info vectors read from natural-order bytes.
pub open spec fn info_from_natural(bytes: Seq<u8>) -> Seq<u16> {
    Seq::new(4, |o: int| natural_field(bytes, o) as u16)
}

/// The bits of `û_0..û_(o-1)`, each written MSB-first in its width.
pub open spec fn info_bits_upto(info: Seq<u16>, o: nat) -> Seq<u8>
    decreases o,
{
    if o == 0 {
        Seq::empty()
    } else {
        info_bits_upto(info, (o - 1) as nat) + msb_bits(
            info[o - 1] as u32,
            info_width(o - 1),
        )
    }
}

/// The 56 bits of a natural no-FEC frame: 49 info bits, then 7 zero bits.
pub open spec fn padded_info_bits(info: Seq<u16>) -> Seq<u8> {
    info_bits_upto(info, 4) + Seq::new(7, |i: int| 0u8)
}

/// The 7-byte natural no-FEC frame carrying `info`.
pub open spec fn natural_from_info(info: Seq<u16>) -> Seq<u8> {
    Seq::new(7, |i: int| msb_value(padded_info_bits(info).subrange(8 * i, 8 * i + 8)) as u8)
}

proof fn lemma_bit_at_is_bit(v: u32, w: nat, j: int)
    ensures
        bit_at(v, w, j) <= 1,
{
    let s: u32 = ((w - 1 - j) as u32);
    assert((v >> s) & 1u32 <= 1u32) by (bit_vector);
}

proof fn lemma_natural_bits_is_bits(bytes: Seq<u8>)
    ensures
        is_bits(natural_bits(bytes)),
{
    assert forall|p: int| 0 <= p < natural_bits(bytes).len() implies #[trigger] natural_bits(bytes)[p] <= 1 by {
        lemma_bit_at_is_bit(bytes[p / 8] as u32, 8, p % 8);
    }
}

proof fn lemma_info_bits_upto(info: Seq<u16>, o: nat)
    requires
        o <= 4,
    ensures
        info_bits_upto(info, o).len() == info_offset(o as int),
        is_bits(info_bits_upto(info, o)),
        forall|q: int| 0 <= q < o ==> #[trigger] info_bits_upto(info, o).subrange(
            info_offset(q) as int,
            (info_offset(q) + info_width(q)) as int,
        ) == msb_bits(info[q] as u32, info_width(q)),
    decreases o,
{
    if o > 0 {
        let prev = info_bits_upto(info, (o - 1) as nat);
        let last = msb_bits(info[o - 1] as u32, info_width(o - 1));
        lemma_info_bits_upto(info, (o - 1) as nat);
        assert forall|j: int| 0 <= j < last.len() implies #[trigger] last[j] <= 1 by {
            lemma_bit_at_is_bit(info[o - 1] as u32, info_width(o - 1), j);
        }
        let cur = info_bits_upto(info, o);
        assert(cur == prev + last);
        assert forall|q: int| 0 <= q < o implies #[trigger] cur.subrange(
            info_offset(q) as int,
            (info_offset(q) + info_width(q)) as int,
        ) == msb_bits(info[q] as u32, info_width(q)) by {
            if q < o - 1 {
                assert(cur.subrange(info_offset(q) as int, (info_offset(q) + info_width(q)) as int)
                    =~= prev.subrange(info_offset(q) as int, (info_offset(q) + info_width(q)) as int));
            } else {
                assert(cur.subrange(info_offset(q) as int, (info_offset(q) + info_width(q)) as int)
                    =~= last);
            }
        }
    }
}

proof fn lemma_padded_is_bits(info: Seq<u16>)
    ensures
        is_bits(padded_info_bits(info)),
        padded_info_bits(info).len() == 56,
{
    lemma_info_bits_upto(info, 4);
}

/// The bits of byte `i` of `bytes` in the natural order.
proof fn lemma_natural_bits_of_byte(bytes: Seq<u8>, i: int)
    requires
        0 <= i < bytes.len(),
    ensures
        natural_bits(bytes).subrange(8 * i, 8 * i + 8) == msb_bits(bytes[i] as u32, 8),
{
    let s = natural_bits(bytes).subrange(8 * i, 8 * i + 8);
    assert forall|k: int| 0 <= k < 8 implies #[trigger] s[k] == msb_bits(bytes[i] as u32, 8)[k] by {
        assert((8 * i + k) / 8 == i);
        assert((8 * i + k) % 8 == k);
    }
    assert(s =~= msb_bits(bytes[i] as u32, 8));
}

/// Reading the 8 bits of a byte MSB-first gives the byte.
proof fn lemma_byte_value(x: u8)
    ensures
        msb_value(msb_bits(x as u32, 8)) == x,
{
    lemma_msb_value_of_bits(x as u32, 8);
    let xx: u32 = x as u32;
    assert(((1u32 << 8u32) - 1) as u32 & xx == xx) by (bit_vector)
        requires xx < 256;
    assert(low_mask(8) == ((1u32 << 8u32) - 1) as u32);
}

/// The natural bits of the bytes built from `info` are the padded info bits.
proof fn lemma_natural_bits_of_info(info: Seq<u16>)
    ensures
        natural_from_info(info).len() == 7,
        natural_bits(natural_from_info(info)) == padded_info_bits(info),
{
    let p = padded_info_bits(info);
    let out = natural_from_info(info);
    lemma_padded_is_bits(info);
    assert forall|i: int| 0 <= i < 7 implies #[trigger] natural_bits(out).subrange(8 * i, 8 * i + 8)
        == p.subrange(8 * i, 8 * i + 8) by {
        let s = p.subrange(8 * i, 8 * i + 8);
        assert(is_bits(s));
        lemma_bits_of_msb_value(s);
        lemma_natural_bits_of_byte(out, i);
        lemma_msb_value_bound(s);
        lemma2_to64();
        assert(msb_value(s) < 256);
        assert(out[i] == msb_value(s) as u8);
    }
    assert forall|q: int| 0 <= q < 56 implies #[trigger] natural_bits(out)[q] == p[q] by {
        let i = q / 8;
        let k = q % 8;
        assert(natural_bits(out).subrange(8 * i, 8 * i + 8)[k] == p.subrange(8 * i, 8 * i + 8)[k]);
    }
    assert(natural_bits(out) =~= p);
}

/// Law: reading the info vectors back from the natural frame built from
/// `info` gives each `û_o` masked to its width.
pub proof fn lemma_info_natural_roundtrip(info: Seq<u16>, o: int)
    requires
        info.len() == 4,
        0 <= o < 4,
    ensures
        natural_field(natural_from_info(info), o) == low_mask(info_width(o)) & (info[o] as u32),
{
    lemma_natural_bits_of_info(info);
    lemma_info_bits_upto(info, 4);
    let p = padded_info_bits(info);
    let lo = info_offset(o) as int;
    let hi = (info_offset(o) + info_width(o)) as int;
    assert(p.subrange(lo, hi) =~= info_bits_upto(info, 4).subrange(lo, hi));
    lemma_msb_value_of_bits(info[o] as u32, info_width(o));
}

/// Law: building the natural frame from the info vectors read out of a
/// 7-byte natural frame gives the frame back with its 7 pad bits cleared.
pub proof fn lemma_natural_info_roundtrip(bytes: Seq<u8>)
    requires
        bytes.len() == 7,
    ensures
        natural_from_info(info_from_natural(bytes)) == bytes.update(6, bytes[6] & 0x80u8),
{
    let nb = natural_bits(bytes);
    let info = info_from_natural(bytes);
    lemma_natural_bits_is_bits(bytes);
    lemma_info_bits_upto(info, 4);
    // Each info field rewrites the same bits it was read from.
    assert forall|o: int| 0 <= o < 4 implies #[trigger] msb_bits(info[o] as u32, info_width(o))
        == nb.subrange(info_offset(o) as int, (info_offset(o) + info_width(o)) as int) by {
        let s = nb.subrange(info_offset(o) as int, (info_offset(o) + info_width(o)) as int);
        assert(is_bits(s));
        lemma_bits_of_msb_value(s);
        assert(info[o] == msb_value(s) as u16);
    }
    let ib = info_bits_upto(info, 4);
    assert forall|q: int| 0 <= q < 49 implies #[trigger] ib[q] == nb[q] by {
        let o = if q < 12 { 0int } else if q < 24 { 1int } else if q < 35 { 2int } else { 3int };
        let lo = info_offset(o) as int;
        let hi = (info_offset(o) + info_width(o)) as int;
        assert(ib.subrange(lo, hi)[q - lo] == nb.subrange(lo, hi)[q - lo]);
    }
    let p = padded_info_bits(info);
    let target = bytes.update(6, bytes[6] & 0x80u8);
    let out = natural_from_info(info);
    assert forall|i: int| 0 <= i < 7 implies #[trigger] out[i] == target[i] by {
        let s = p.subrange(8 * i, 8 * i + 8);
        lemma_natural_bits_of_byte(bytes, i);
        if i < 6 {
            assert forall|k: int| 0 <= k < 8 implies #[trigger] s[k] == msb_bits(bytes[i] as u32, 8)[k] by {
                assert(s[k] == ib[8 * i + k]);
                assert(nb.subrange(8 * i, 8 * i + 8)[k] == nb[8 * i + k]);
            }
            assert(s =~= msb_bits(bytes[i] as u32, 8));
            lemma_byte_value(bytes[i]);
        } else {
            let x: u8 = bytes[6];
            let y: u8 = x & 0x80u8;
            assert(s[0] == nb[48]);
            assert(nb.subrange(48, 56)[0] == nb[48]);
            assert forall|k: int| 0 <= k < 8 implies #[trigger] s[k] == msb_bits(y as u32, 8)[k] by {
                let xx: u32 = x as u32;
                let yy: u32 = y as u32;
                let sh: u32 = (7 - k) as u32;
                assert(yy == xx & 0x80u32) by (bit_vector)
                    requires xx == x as u32, yy == y as u32, y == x & 0x80u8;
                if k == 0 {
                    assert((xx & 0x80u32) >> 7u32 & 1u32 == (xx >> 7u32) & 1u32) by (bit_vector);
                } else {
                    assert(((xx & 0x80u32) >> sh) & 1u32 == 0u32) by (bit_vector)
                        requires xx < 256, sh < 7;
                }
            }
            assert(s =~= msb_bits(y as u32, 8));
            lemma_byte_value(y);
        }
    }
    assert(out =~= target);
}


/// Bit `k` (0 = MSB) of a byte, as a shift of the byte itself.
proof fn lemma_bit_at_byte(x: u8, k: int)
    requires
        0 <= k < 8,
    ensures
        bit_at(x as u32, 8, k) == (x >> ((7 - k) as u8)) & 1u8,
{
    let sh: u8 = (7 - k) as u8;
    let sh32: u32 = (8 - 1 - k) as u32;
    assert(sh32 == sh as u32);
    assert(((((x as u32) >> (sh as u32)) & 1u32) as u8) == (x >> sh) & 1u8) by (bit_vector)
        requires sh < 8;
}

/// Bit `j` (0 = MSB) of a `w`-bit field, as a shift of the 16-bit word.
proof fn lemma_bit_at_word(x: u16, w: nat, j: int)
    requires
        0 <= j < w,
        w <= 16,
    ensures
        bit_at(x as u32, w, j) as u16 == (x >> ((w - 1 - j) as u16)) & 1u16,
{
    let sh: u16 = (w - 1 - j) as u16;
    let sh32: u32 = (w - 1 - j) as u32;
    assert(sh32 == sh as u32);
    assert(((((x as u32) >> (sh as u32)) & 1u32) as u8) as u16 == (x >> sh) & 1u16) by (bit_vector)
        requires sh < 16;
}

/// Law: reading a natural no-FEC frame. `û₀` is bits 0..12, `û₁` bits
/// 12..24, `û₂` bits 24..35 and `û₃` bits 35..49 of the frame, where bit
/// `p` is `(bytes[p / 8] >> (7 - p % 8)) & 1`; each vector is the plain
/// MSB-first value of its bits: it fits its width and its bit `j` counted
/// from the top is frame bit `offset + j`.
pub proof fn lemma_natural_read_bits(bytes: Seq<u8>, o: int, j: int)
    requires
        bytes.len() == 7,
        0 <= o < 4,
        0 <= j < (if o == 2 { 11int } else if o == 3 { 14int } else { 12int }),
    ensures
        ({
            let w: int = if o == 2 { 11 } else if o == 3 { 14 } else { 12 };
            let off: int = if o == 0 { 0 } else if o == 1 { 12 } else if o == 2 { 24 } else { 35 };
            let p: int = off + j;
            let v: u16 = info_from_natural(bytes)[o];
            &&& info_from_natural(bytes).len() == 4
            &&& (v as int) < (if o == 2 { 2048int } else if o == 3 { 16384int } else { 4096int })
            &&& (v >> ((w - 1 - j) as u16)) & 1u16 == ((bytes[p / 8] >> ((7 - p % 8) as u8)) & 1u8) as u16
        }),
{
    let w = info_width(o);
    let off = info_offset(o) as int;
    let s = natural_bits(bytes).subrange(off, off + w);
    lemma_natural_bits_is_bits(bytes);
    assert(is_bits(s));
    lemma_bits_of_msb_value(s);
    lemma_msb_value_bound(s);
    lemma2_to64();
    let v: u16 = msb_value(s) as u16;
    assert(v as nat == msb_value(s));
    assert(info_from_natural(bytes)[o] == v);
    assert(msb_bits(v as u32, w)[j] == s[j]);
    lemma_bit_at_word(v, w, j);
    let p = off + j;
    assert(s[j] == natural_bits(bytes)[p]);
    lemma_bit_at_byte(bytes[p / 8], p % 8);
}

/// Law: writing a natural no-FEC frame. Frame bit `p` (that is,
/// `(out[p / 8] >> (7 - p % 8)) & 1`) is, for `p < 49`, bit `p - offset`
/// counted from the top of the `w`-bit field of the vector `û_o` that
/// covers `p` (`û₀` 0..12, `û₁` 12..24, `û₂` 24..35, `û₃` 35..49), and
/// zero for the pad bits 49..56.
pub proof fn lemma_natural_write_bits(info: Seq<u16>, p: int)
    requires
        info.len() == 4,
        0 <= p < 56,
    ensures
        natural_from_info(info).len() == 7,
        ({
            let out = natural_from_info(info);
            let bit: u8 = (out[p / 8] >> ((7 - p % 8) as u8)) & 1u8;
            let o: int = if p < 12 { 0 } else if p < 24 { 1 } else if p < 35 { 2 } else { 3 };
            let off: int = if o == 0 { 0 } else if o == 1 { 12 } else if o == 2 { 24 } else { 35 };
            let w: int = if o == 2 { 11 } else if o == 3 { 14 } else { 12 };
            if p < 49 {
                bit as u16 == (info[o] >> ((w - 1 - (p - off)) as u16)) & 1u16
            } else {
                bit == 0u8
            }
        }),
{
    let out = natural_from_info(info);
    lemma_natural_bits_of_info(info);
    lemma_info_bits_upto(info, 4);
    lemma_bit_at_byte(out[p / 8], p % 8);
    let pb = padded_info_bits(info);
    assert(natural_bits(out)[p] == pb[p]);
    if p < 49 {
        let o: int = if p < 12 { 0 } else if p < 24 { 1 } else if p < 35 { 2 } else { 3 };
        let off = info_offset(o) as int;
        let w = info_width(o);
        let ib = info_bits_upto(info, 4);
        assert(pb[p] == ib[p]);
        assert(ib.subrange(info_offset(o) as int, (info_offset(o) + info_width(o)) as int)
            == msb_bits(info[o] as u32, info_width(o)));
        assert(ib.subrange(off, off + w)[p - off] == ib[p]);
        assert(natural_bits(out)[p] == bit_at(out[p / 8] as u32, 8, p % 8));
        assert(msb_bits(info[o] as u32, w)[p - off] == bit_at(info[o] as u32, w, p - off));
        lemma_bit_at_word(info[o], w, p - off);
    } else {
        assert(pb[p] == 0u8);
    }
}

/// Bit `p` of `bytes` in the natural order (bit 0 = MSB of byte 0).
fn natural_bit(bytes: &[u8], p: usize) -> (b: u32)
    requires
        p < 8 * bytes@.len(),
    ensures
        b == natural_bits(bytes@)[p as int] as u32,
        b <= 1,
{
    let x: u32 = bytes[p / 8] as u32;
    let sh: u32 = (7 - p % 8) as u32;
    let b = (x >> sh) & 1u32;
    assert(b <= 1u32) by (bit_vector)
        requires b == (x >> sh) & 1u32;
    proof {
        lemma_bit_at_is_bit(bytes@[p as int / 8] as u32, 8, p as int % 8);
    }
    b
}

/// Read `û_o` from natural-order bytes.
fn read_field(bytes: &[u8], o: usize) -> (v: u16)
    requires
        bytes@.len() >= 7,
        o < 4,
    ensures
        v == natural_field(bytes@, o as int),
{
    let w = width_of(o);
    let off: usize = if o == 0 {
        0
    } else if o == 1 {
        12
    } else if o == 2 {
        24
    } else {
        35
    };
    let ghost field = natural_bits(bytes@).subrange(off as int, (off + w) as int);
    proof {
        lemma_natural_bits_is_bits(bytes@);
        assert(is_bits(field));
        lemma2_to64();
    }
    let mut v: u32 = 0;
    for k in 0..w
        invariant
            bytes@.len() >= 7,
            w == info_width(o as int),
            off == info_offset(o as int),
            off + w <= 49,
            w <= 14,
            field == natural_bits(bytes@).subrange(off as int, (off + w) as int),
            is_bits(field),
            v == msb_value(field.take(k as int)),
            v < pow2(k as nat),
    {
        let b = natural_bit(bytes, off + k);
        proof {
            assert(field.take(k as int + 1) =~= field.take(k as int).push(field[k as int]));
            lemma_msb_value_push(field.take(k as int), field[k as int]);
            lemma_pow2_unfold((k + 1) as nat);
            lemma2_to64();
            if k < 14 {
                lemma_pow2_strictly_increases(k as nat, 14);
            }
        }
        v = v * 2 + b;
    }
    proof {
        assert(field.take(w as int) =~= field);
        if w < 16 {
            lemma_pow2_strictly_increases(w as nat, 16);
        }
    }
    v as u16
}

/// Recover `û₀..û₃` from a natural / AMBE_d (plain sequential MSB-first)
/// no-FEC frame. Only the first 7 bytes are read.
pub fn natural_to_info_arr(bytes: &[u8]) -> (info: [u16; 4])
    requires
        bytes@.len() >= 7,
    ensures
        info@ == info_from_natural(bytes@),
{
    let info: [u16; 4] = [read_field(bytes, 0), read_field(bytes, 1), read_field(bytes, 2), read_field(bytes, 3)];
    assert(info@ =~= info_from_natural(bytes@));
    info
}

/// Pack `û₀..û₃` into 7 natural (AMBE_d, plain sequential) bytes. Each
/// vector contributes its low `INFO_WIDTHS[o]` bits; bits 49..55 are zero.
pub fn info_to_natural_arr(info: &[u16; 4]) -> (out: [u8; 7])
    ensures
        out@ == natural_from_info(info@),
{
    let mut bits: Vec<u8> = Vec::new();
    for o in 0..4
        invariant
            bits@ == info_bits_upto(info@, o as nat),
    {
        let w = width_of(o);
        let v: u32 = info[o] as u32;
        let ghost prev = bits@;
        for j in 0..w
            invariant
                w == info_width(o as int),
                v == info@[o as int] as u32,
                prev == info_bits_upto(info@, o as nat),
                bits@ == prev + msb_bits(v, w as nat).take(j as int),
        {
            let b = ((v >> ((w - 1 - j) as u32)) & 1u32) as u8;
            proof {
                assert(msb_bits(v, w as nat).take(j as int + 1)
                    =~= msb_bits(v, w as nat).take(j as int).push(b));
            }
            bits.push(b);
        }
        proof {
            assert(msb_bits(v, w as nat).take(w as int) =~= msb_bits(v, w as nat));
            assert(info_bits_upto(info@, (o + 1) as nat) == prev + msb_bits(v, w as nat));
        }
    }
    assert(bits@ =~= info_bits_upto(info@, 4) + Seq::new(0, |k: int| 0u8));
    for i in 0..7usize
        invariant
            bits@ == info_bits_upto(info@, 4) + Seq::new(i as nat, |k: int| 0u8),
    {
        bits.push(0u8);
        proof {
            assert(Seq::new((i + 1) as nat, |k: int| 0u8) =~= Seq::new(i as nat, |k: int| 0u8).push(0u8));
        }
    }
    let ghost p = padded_info_bits(info@);
    proof {
        assert(bits@ =~= p);
        lemma_padded_is_bits(info@);
        lemma2_to64();
    }
    let mut out: [u8; 7] = [0u8; 7];
    for i in 0..7usize
        invariant
            bits@ == p,
            p == padded_info_bits(info@),
            p.len() == 56,
            is_bits(p),
            forall|q: int| 0 <= q < i ==> #[trigger] out@[q] == natural_from_info(info@)[q],
    {
        let ghost s = p.subrange(8 * i as int, 8 * i as int + 8);
        proof {
            lemma2_to64();
        }
        let mut acc: u32 = 0;
        for k in 0..8usize
            invariant
                bits@ == p,
                p.len() == 56,
                is_bits(p),
                i < 7,
                s == p.subrange(8 * i as int, 8 * i as int + 8),
                acc == msb_value(s.take(k as int)),
                acc < pow2(k as nat),
        {
            let b = bits[8 * i + k];
            proof {
                assert(s[k as int] == p[8 * i + k]);
                assert(s.take(k as int + 1) =~= s.take(k as int).push(s[k as int]));
                lemma_msb_value_push(s.take(k as int), s[k as int]);
                lemma_pow2_unfold((k + 1) as nat);
                lemma2_to64();
                assert(b <= 1);
                if k < 8 {
                    lemma_pow2_strictly_increases(k as nat, 8);
                }
            }
            acc = acc * 2 + b as u32;
        }
        proof {
            assert(s.take(8) =~= s);
            lemma2_to64();
            assert(acc < 256);
        }
        out[i] = acc as u8;
        assert(natural_from_info(info@)[i as int] == msb_value(s) as u8);
        assert(out@[i as int] == acc as u8);
    }
    assert(out@ =~= natural_from_info(info@));
    out
}

/// Recover `û₀..û₃` from a 7-byte natural / AMBE_d (plain sequential
/// MSB-first) no-FEC frame — the mbelib / IDAS / NXDN over-the-air order,
/// not the r34 column interleave.
pub fn natural_to_info(bytes: &[u8]) -> (res: Result<Vec<u16>, ArgError>)
    ensures
        bytes@.len() == 7 ==> (res matches Ok(v) && v@ == info_from_natural(bytes@)),
        bytes@.len() != 7 ==> res == Err::<Vec<u16>, ArgError>(
            ArgError::Length { expected: 7, got: bytes@.len() as usize },
        ),
{
    require_len(bytes.len(), NO_FEC_FRAME_BYTES)?;
    let info = natural_to_info_arr(bytes);
    let v: Vec<u16> = vec![info[0], info[1], info[2], info[3]];
    assert(v@ =~= info@);
    Ok(v)
}

/// Pack `û₀..û₃` into a 7-byte natural (AMBE_d, plain sequential) no-FEC
/// frame. Inverse of [`natural_to_info`].
pub fn info_to_natural(info: [u16; 4]) -> (out: [u8; 7])
    ensures
        out@ == natural_from_info(info@),
{
    info_to_natural_arr(&info)
}

} // verus!
