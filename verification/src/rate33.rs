//! The half-rate (rate-33) channel-frame toolkit: argument checks, the
//! decoded frame model and the FEC-frame byte handoff.

use vstd::prelude::*;
use crate::dibits::{bytes_to_dibits, dibits_of};
use crate::errors::{ArgError, require_len};
use crate::fmt::{decimal, decimal_items, decimal_list, is_numeral_of, lemma_decimal_is_numeral, push_decimal_list};

verus! {

/// Bytes in a half-rate FEC frame (72 air-interface bits).
pub const FEC_FRAME_BYTES: usize = 9;

/// Dibits in a half-rate FEC frame.
pub const DIBITS_PER_FRAME: usize = 36;

/// Soft bits in a half-rate FEC frame (two per dibit).
pub const SOFT_BITS: usize = 72;

/// `û₀` is a 12-bit info word: out-of-range seeds are refused rather than
/// producing a garbage PN sequence.
pub fn check_u0(u0: u16) -> (res: Result<(), ArgError>)
    ensures
        u0 < 4096 ==> res is Ok,
        u0 >= 4096 ==> res == Err::<(), ArgError>(ArgError::InfoWordRange { value: u0 }),
{
    if u0 >= 4096 {
        return Err(ArgError::InfoWordRange { value: u0 });
    }
    Ok(())
}

/// The 36 dibits of a 9-byte FEC frame (the `AMBEPLUS2_3600X2450` wire
/// form), ready for the Annex-S deinterleave.
pub fn fec_frame_dibits(bytes: &[u8]) -> (res: Result<Vec<u8>, ArgError>)
    ensures
        bytes@.len() == FEC_FRAME_BYTES ==> (res matches Ok(d) && d@ == dibits_of(bytes@)
            && d@.len() == DIBITS_PER_FRAME),
        bytes@.len() != FEC_FRAME_BYTES ==> res == Err::<Vec<u8>, ArgError>(
            ArgError::Length { expected: FEC_FRAME_BYTES, got: bytes@.len() as usize },
        ),
{
    require_len(bytes.len(), FEC_FRAME_BYTES)?;
    Ok(bytes_to_dibits(bytes))
}

/// The soft bits of one frame must number exactly 72.
pub fn check_soft_bits(soft: &[i8]) -> (res: Result<(), ArgError>)
    ensures
        soft@.len() == SOFT_BITS ==> res is Ok,
        soft@.len() != SOFT_BITS ==> res == Err::<(), ArgError>(
            ArgError::Length { expected: SOFT_BITS, got: soft@.len() as usize },
        ),
{
    require_len(soft.len(), SOFT_BITS)
}

/// Decoded 49-bit information layer of a half-rate frame: the four info
/// vectors `û₀..û₃` (LSB-aligned) plus the per-vector FEC error counts.
#[derive(Debug, Clone)]
pub struct PyRate33Frame {
    info: [u16; 4],
    errors: [u8; 4],
}

impl PyRate33Frame {
    pub closed spec fn spec_info(&self) -> Seq<u16> {
        self.info@
    }

    pub closed spec fn spec_errors(&self) -> Seq<u8> {
        self.errors@
    }

    /// A frame holding `info` and `errors`.
    pub fn new(info: [u16; 4], errors: [u8; 4]) -> (f: Self)
        ensures
            f.spec_info() == info@,
            f.spec_errors() == errors@,
    {
        PyRate33Frame { info, errors }
    }

    /// The four info vectors `û₀..û₃`.
    pub fn info(&self) -> (v: Vec<u16>)
        ensures
            v@ == self.spec_info(),
    {
        let v: Vec<u16> = vec![self.info[0], self.info[1], self.info[2], self.info[3]];
        assert(v@ =~= self.info@);
        v
    }

    /// Per-vector FEC error counts.
    pub fn errors(&self) -> (v: Vec<u8>)
        ensures
            v@ == self.spec_errors(),
    {
        let v: Vec<u8> = vec![self.errors[0], self.errors[1], self.errors[2], self.errors[3]];
        assert(v@ =~= self.errors@);
        v
    }

    /// Two frames are equal when their info vectors and error counts are.
    pub fn __eq__(&self, other: &Self) -> (res: bool)
        ensures
            res == (self.spec_info() == other.spec_info() && self.spec_errors() == other.spec_errors()),
    {
        let mut same = true;
        let mut i: usize = 0;
        while i < 4
            invariant
                0 <= i <= 4,
                same == (forall|j: int| 0 <= j < i ==> self.info@[j] == other.info@[j]
                    && self.errors@[j] == other.errors@[j]),
            decreases 4 - i,
        {
            same = same && self.info[i] == other.info[i] && self.errors[i] == other.errors[i];
            i = i + 1;
        }
        proof {
            if same {
                assert(self.info@ =~= other.info@);
                assert(self.errors@ =~= other.errors@);
            } else {
                let j = choose|j: int| 0 <= j < 4 && !(self.info@[j] == other.info@[j]
                    && self.errors@[j] == other.errors@[j]);
                assert(self.info@[j] != other.info@[j] || self.errors@[j] != other.errors@[j]);
            }
        }
        same
    }
}

impl PyRate33Frame {
    /// The text `Rate33Frame(info=[..], errors=[..])`.
    pub open spec fn repr_spec(&self) -> Seq<char> {
        "Rate33Frame(info="@ + decimal_list(self.spec_info().map_values(|v: u16| v as nat))
            + ", errors="@ + decimal_list(self.spec_errors().map_values(|v: u8| v as nat)) + ")"@
    }

    /// The frame written out as its info vectors and error counts.
    pub fn __repr__(&self) -> (s: String)
        ensures
            s@ == self.repr_spec(),
    {
        proof {
            reveal_strlit("Rate33Frame(info=");
            reveal_strlit(", errors=");
            reveal_strlit(")");
        }
        let info: Vec<u64> = vec![
            self.info[0] as u64,
            self.info[1] as u64,
            self.info[2] as u64,
            self.info[3] as u64,
        ];
        let errors: Vec<u64> = vec![
            self.errors[0] as u64,
            self.errors[1] as u64,
            self.errors[2] as u64,
            self.errors[3] as u64,
        ];
        assert(info@.map_values(|v: u64| v as nat) =~= self.info@.map_values(|v: u16| v as nat));
        assert(errors@.map_values(|v: u64| v as nat) =~= self.errors@.map_values(|v: u8| v as nat));
        let mut s = String::new();
        s.append("Rate33Frame(info=");
        push_decimal_list(&mut s, info.as_slice());
        s.append(", errors=");
        push_decimal_list(&mut s, errors.as_slice());
        s.append(")");
        assert(s@ =~= self.repr_spec());
        s
    }
}

/// Four numbers written as a list body.
proof fn lemma_four_items(r: Seq<nat>)
    requires
        r.len() == 4,
    ensures
        decimal_items(r) == decimal(r[0]) + ", "@ + decimal(r[1]) + ", "@ + decimal(r[2]) + ", "@
            + decimal(r[3]),
{
    assert(r.take(1).len() == 1);
    assert(decimal_items(r.take(1)) == decimal(r[0]));
    assert(r.take(2).drop_last() =~= r.take(1));
    assert(r.take(3).drop_last() =~= r.take(2));
    assert(r.drop_last() =~= r.take(3));
    assert(decimal_items(r.take(2)) == decimal_items(r.take(1)) + ", "@ + decimal(r[1]));
    assert(decimal_items(r.take(3)) == decimal_items(r.take(2)) + ", "@ + decimal(r[2]));
    assert(decimal_items(r) == decimal_items(r.take(3)) + ", "@ + decimal(r[3]));
}

/// The canonical numerals of four numbers, written as a list body.
pub open spec fn four_numerals(q: Seq<Seq<char>>) -> Seq<char> {
    q[0] + ", "@ + q[1] + ", "@ + q[2] + ", "@ + q[3]
}

/// Law: the frame's text is `Rate33Frame(info=[u0, u1, u2, u3],
/// errors=[e0, e1, e2, e3])` where each slot is the canonical decimal
/// numeral of the full value at that position.
pub proof fn lemma_frame_repr_fields(f: PyRate33Frame)
    ensures
        exists|qi: Seq<Seq<char>>, qe: Seq<Seq<char>>|
            #![trigger four_numerals(qi), four_numerals(qe)]
            qi.len() == 4 && qe.len() == 4
            && f.repr_spec() == "Rate33Frame(info="@ + ("["@ + four_numerals(qi) + "]"@)
                + ", errors="@ + ("["@ + four_numerals(qe) + "]"@) + ")"@
            && (forall|k: int| 0 <= k < 4 ==> #[trigger] is_numeral_of(qi[k], f.spec_info()[k] as int))
            && (forall|k: int| 0 <= k < 4 ==> #[trigger] is_numeral_of(qe[k], f.spec_errors()[k] as int)),
{
    let ri = f.spec_info().map_values(|v: u16| v as nat);
    let re = f.spec_errors().map_values(|v: u8| v as nat);
    assert(f.spec_info().len() == 4 && f.spec_errors().len() == 4);
    lemma_four_items(ri);
    lemma_four_items(re);
    let qi = Seq::new(4, |k: int| decimal(ri[k]));
    let qe = Seq::new(4, |k: int| decimal(re[k]));
    assert forall|k: int| 0 <= k < 4 implies #[trigger] is_numeral_of(qi[k], f.spec_info()[k] as int) by {
        lemma_decimal_is_numeral(ri[k]);
    }
    assert forall|k: int| 0 <= k < 4 implies #[trigger] is_numeral_of(qe[k], f.spec_errors()[k] as int) by {
        lemma_decimal_is_numeral(re[k]);
    }
    assert(decimal_items(ri) == four_numerals(qi));
    assert(decimal_items(re) == four_numerals(qe));
    assert(f.repr_spec() == "Rate33Frame(info="@ + ("["@ + four_numerals(qi) + "]"@)
        + ", errors="@ + ("["@ + four_numerals(qe) + "]"@) + ")"@);
}

} // verus!
