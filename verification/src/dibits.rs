//! Packed MSB-first bytes ⇄ 2-bit dibit values (four per byte).

use vstd::prelude::*;
use crate::errors::ArgError;

verus! {

/// Dibit `k` of byte `b`, `k == 0` being the two most significant bits.
pub open spec fn dibit_of(b: u8, k: int) -> u8 {
    if k == 0 {
        (b >> 6u8) & 3u8
    } else if k == 1 {
        (b >> 4u8) & 3u8
    } else if k == 2 {
        (b >> 2u8) & 3u8
    } else {
        b & 3u8
    }
}

/// The dibits of `bytes`, four per byte, most significant pair first.
pub open spec fn dibits_of(bytes: Seq<u8>) -> Seq<u8> {
    Seq::new(4 * bytes.len(), |i: int| dibit_of(bytes[i / 4], i % 4))
}

/// The byte whose dibits, most significant first, are the low two bits
/// of `a`, `b`, `c`, `d`.
pub open spec fn byte_of_dibits(a: u8, b: u8, c: u8, d: u8) -> u8 {
    ((a & 3u8) << 6u8) | ((b & 3u8) << 4u8) | ((c & 3u8) << 2u8) | (d & 3u8)
}

/// Bytes packed from `d`, four dibits per byte.
pub open spec fn bytes_of_dibits(d: Seq<u8>) -> Seq<u8> {
    Seq::new(
        d.len() / 4,
        |i: int| byte_of_dibits(d[4 * i], d[4 * i + 1], d[4 * i + 2], d[4 * i + 3]),
    )
}

/// Unpack MSB-first bytes into dibits, four per byte.
pub fn bytes_to_dibits(bytes: &[u8]) -> (out: Vec<u8>)
    ensures
        out@ == dibits_of(bytes@),
{
    let mut out: Vec<u8> = Vec::new();
    let n = bytes.len();
    for i in 0..n
        invariant
            n == bytes@.len(),
            out@.len() == 4 * i,
            forall|j: int| 0 <= j < 4 * i ==> #[trigger] out@[j] == dibit_of(bytes@[j / 4], j % 4),
    {
        let byte = bytes[i];
        out.push((byte >> 6u8) & 3u8);
        out.push((byte >> 4u8) & 3u8);
        out.push((byte >> 2u8) & 3u8);
        out.push(byte & 3u8);
        assert forall|j: int| 4 * i <= j < 4 * i + 4 implies #[trigger] out@[j] == dibit_of(bytes@[j / 4], j % 4) by {
            assert(j / 4 == i);
        }
    }
    assert(out@ =~= dibits_of(bytes@));
    out
}

/// Unpack a packed MSB-first byte string into 2-bit dibit values (four
/// per byte).
pub fn unpack_dibits(bytes: &[u8]) -> (out: Vec<u8>)
    ensures
        out@ == dibits_of(bytes@),
{
    bytes_to_dibits(bytes)
}

/// Pack 2-bit dibit values into MSB-first bytes (four per byte); only
/// the low two bits of each value are used. The count must be a
/// multiple of four.
pub fn pack_dibits(dibits: &[u8]) -> (res: Result<Vec<u8>, ArgError>)
    ensures
        dibits@.len() % 4 == 0 ==> (res matches Ok(out) && out@ == bytes_of_dibits(dibits@)),
        dibits@.len() % 4 != 0 ==> res == Err::<Vec<u8>, ArgError>(
            ArgError::DibitCount { count: dibits@.len() as usize },
        ),
{
    let n = dibits.len();
    if n % 4 != 0 {
        return Err(ArgError::DibitCount { count: n });
    }
    let mut out: Vec<u8> = Vec::new();
    let m = n / 4;
    for i in 0..m
        invariant
            n == dibits@.len(),
            m == n / 4,
            n % 4 == 0,
            out@.len() == i,
            forall|j: int| 0 <= j < i ==> #[trigger] out@[j] == byte_of_dibits(
                dibits@[4 * j],
                dibits@[4 * j + 1],
                dibits@[4 * j + 2],
                dibits@[4 * j + 3],
            ),
    {
        let k = 4 * i;
        let a = dibits[k];
        let b = dibits[k + 1];
        let c = dibits[k + 2];
        let d = dibits[k + 3];
        out.push(((a & 3u8) << 6u8) | ((b & 3u8) << 4u8) | ((c & 3u8) << 2u8) | (d & 3u8));
    }
    assert(out@ =~= bytes_of_dibits(dibits@));
    Ok(out)
}

/// Splitting a byte into its dibits and packing them again gives the byte.
pub proof fn lemma_byte_dibits_roundtrip(b: u8)
    ensures
        byte_of_dibits(dibit_of(b, 0), dibit_of(b, 1), dibit_of(b, 2), dibit_of(b, 3)) == b,
{
    assert((((((b >> 6u8) & 3u8) & 3u8) << 6u8) | ((((b >> 4u8) & 3u8) & 3u8) << 4u8)
        | ((((b >> 2u8) & 3u8) & 3u8) << 2u8) | ((b & 3u8) & 3u8)) == b) by (bit_vector);
}

/// Packing four dibits and splitting the byte gives their low two bits.
pub proof fn lemma_dibits_byte_roundtrip(a: u8, b: u8, c: u8, d: u8)
    ensures
        dibit_of(byte_of_dibits(a, b, c, d), 0) == a & 3u8,
        dibit_of(byte_of_dibits(a, b, c, d), 1) == b & 3u8,
        dibit_of(byte_of_dibits(a, b, c, d), 2) == c & 3u8,
        dibit_of(byte_of_dibits(a, b, c, d), 3) == d & 3u8,
{
    let x = byte_of_dibits(a, b, c, d);
    assert(x == ((a & 3u8) << 6u8) | ((b & 3u8) << 4u8) | ((c & 3u8) << 2u8) | (d & 3u8));
    assert(((((a & 3u8) << 6u8) | ((b & 3u8) << 4u8) | ((c & 3u8) << 2u8) | (d & 3u8)) >> 6u8) & 3u8 == a & 3u8) by (bit_vector);
    assert(((((a & 3u8) << 6u8) | ((b & 3u8) << 4u8) | ((c & 3u8) << 2u8) | (d & 3u8)) >> 4u8) & 3u8 == b & 3u8) by (bit_vector);
    assert(((((a & 3u8) << 6u8) | ((b & 3u8) << 4u8) | ((c & 3u8) << 2u8) | (d & 3u8)) >> 2u8) & 3u8 == c & 3u8) by (bit_vector);
    assert((((a & 3u8) << 6u8) | ((b & 3u8) << 4u8) | ((c & 3u8) << 2u8) | (d & 3u8)) & 3u8 == d & 3u8) by (bit_vector);
}

/// Law: `pack_dibits` undoes `unpack_dibits` — packing the dibits of any
/// byte string gives that byte string back.
pub proof fn lemma_pack_after_unpack(bytes: Seq<u8>)
    ensures
        bytes_of_dibits(dibits_of(bytes)) == bytes,
{
    let d = dibits_of(bytes);
    assert(d.len() / 4 == bytes.len());
    assert forall|i: int| 0 <= i < bytes.len() implies #[trigger] bytes_of_dibits(d)[i] == bytes[i] by {
        assert((4 * i) / 4 == i && (4 * i) % 4 == 0);
        assert((4 * i + 1) / 4 == i && (4 * i + 1) % 4 == 1);
        assert((4 * i + 2) / 4 == i && (4 * i + 2) % 4 == 2);
        assert((4 * i + 3) / 4 == i && (4 * i + 3) % 4 == 3);
        lemma_byte_dibits_roundtrip(bytes[i]);
    }
    assert(bytes_of_dibits(d) =~= bytes);
}

/// Law: `unpack_dibits` undoes `pack_dibits` up to the two-bit mask —
/// for a dibit count that is a multiple of four, unpacking the packed
/// bytes gives the low two bits of every input value.
pub proof fn lemma_unpack_after_pack(d: Seq<u8>)
    requires
        d.len() % 4 == 0,
    ensures
        dibits_of(bytes_of_dibits(d)) == d.map_values(|x: u8| x & 3u8),
{
    let p = bytes_of_dibits(d);
    let u = dibits_of(p);
    assert(u.len() == d.len());
    assert forall|j: int| 0 <= j < d.len() implies #[trigger] u[j] == d[j] & 3u8 by {
        let i = j / 4;
        let k = j % 4;
        assert(j == 4 * i + k);
        lemma_dibits_byte_roundtrip(d[4 * i], d[4 * i + 1], d[4 * i + 2], d[4 * i + 3]);
    }
    assert(u =~= d.map_values(|x: u8| x & 3u8));
}

/// Law: unpacking writes four dibits per byte, the most significant pair
/// first: dibit `4 * i + k` is `(bytes[i] >> (6 - 2 * k)) & 3`.
pub proof fn lemma_unpack_layout(bytes: Seq<u8>, i: int, k: int)
    requires
        0 <= i < bytes.len(),
        0 <= k < 4,
    ensures
        dibits_of(bytes).len() == 4 * bytes.len(),
        dibits_of(bytes)[4 * i + k] == (bytes[i] >> ((6 - 2 * k) as u8)) & 3u8,
{
    assert((4 * i + k) / 4 == i && (4 * i + k) % 4 == k);
    let x = bytes[i];
    assert((x >> 0u8) & 3u8 == x & 3u8) by (bit_vector);
}

/// Law: packing puts dibit `4 * i + k` (its low two bits) at bits
/// `7 - 2k, 6 - 2k` of byte `i`, and makes one byte per four dibits.
pub proof fn lemma_pack_layout(d: Seq<u8>, i: int, k: int)
    requires
        d.len() % 4 == 0,
        0 <= i < d.len() / 4,
        0 <= k < 4,
    ensures
        bytes_of_dibits(d).len() * 4 == d.len(),
        (bytes_of_dibits(d)[i] >> ((6 - 2 * k) as u8)) & 3u8 == d[4 * i + k] & 3u8,
{
    lemma_dibits_byte_roundtrip(d[4 * i], d[4 * i + 1], d[4 * i + 2], d[4 * i + 3]);
    let x = bytes_of_dibits(d)[i];
    assert((x >> 0u8) & 3u8 == x & 3u8) by (bit_vector);
}

} // verus!
