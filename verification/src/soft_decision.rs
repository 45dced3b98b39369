//! DVSI soft-decision packets: the packet header and the host wire
//! serialization of a packet.

use vstd::prelude::*;
use crate::errors::{ArgError, require_len};
use crate::fmt::{decimal, decimal_items, decimal_list, is_numeral_of, lemma_decimal_is_numeral, push_decimal, push_decimal_list};

verus! {

/// Words in a DVSI soft-decision packet.
pub const SD_PACKET_WORDS: usize = 60;

/// The overhead words of an AMBE-2000/2020 soft-decision packet, minus
/// the fixed `0x13EC` header. The five `rate_info` words and the control
/// words are chip-/rate-specific and caller-supplied.
#[derive(Debug, Clone)]
pub struct PySdPacketHeader {
    power_control: u8,
    control_word1: u8,
    rate_info: [u16; 5],
    dtmf_control: u16,
    control_word2: u16,
}

impl PySdPacketHeader {
    pub closed spec fn spec_power_control(&self) -> u8 {
        self.power_control
    }

    pub closed spec fn spec_control_word1(&self) -> u8 {
        self.control_word1
    }

    pub closed spec fn spec_rate_info(&self) -> Seq<u16> {
        self.rate_info@
    }

    pub closed spec fn spec_dtmf_control(&self) -> u16 {
        self.dtmf_control
    }

    pub closed spec fn spec_control_word2(&self) -> u16 {
        self.control_word2
    }

    /// Two headers agree in every field.
    pub open spec fn same_fields(&self, other: &Self) -> bool {
        &&& self.spec_power_control() == other.spec_power_control()
        &&& self.spec_control_word1() == other.spec_control_word1()
        &&& self.spec_rate_info() == other.spec_rate_info()
        &&& self.spec_dtmf_control() == other.spec_dtmf_control()
        &&& self.spec_control_word2() == other.spec_control_word2()
    }

    /// Construct a header from the five rate-control words and the
    /// control fields.
    pub fn new(
        rate_info: [u16; 5],
        power_control: u8,
        control_word1: u8,
        dtmf_control: u16,
        control_word2: u16,
    ) -> (h: Self)
        ensures
            h.spec_rate_info() == rate_info@,
            h.spec_power_control() == power_control,
            h.spec_control_word1() == control_word1,
            h.spec_dtmf_control() == dtmf_control,
            h.spec_control_word2() == control_word2,
    {
        PySdPacketHeader { power_control, control_word1, rate_info, dtmf_control, control_word2 }
    }

    pub fn power_control(&self) -> (v: u8)
        ensures
            v == self.spec_power_control(),
    {
        self.power_control
    }

    pub fn set_power_control(&mut self, v: u8)
        ensures
            final(self).spec_power_control() == v,
            final(self).spec_control_word1() == old(self).spec_control_word1(),
            final(self).spec_rate_info() == old(self).spec_rate_info(),
            final(self).spec_dtmf_control() == old(self).spec_dtmf_control(),
            final(self).spec_control_word2() == old(self).spec_control_word2(),
    {
        self.power_control = v;
    }

    pub fn control_word1(&self) -> (v: u8)
        ensures
            v == self.spec_control_word1(),
    {
        self.control_word1
    }

    pub fn set_control_word1(&mut self, v: u8)
        ensures
            final(self).spec_control_word1() == v,
            final(self).spec_power_control() == old(self).spec_power_control(),
            final(self).spec_rate_info() == old(self).spec_rate_info(),
            final(self).spec_dtmf_control() == old(self).spec_dtmf_control(),
            final(self).spec_control_word2() == old(self).spec_control_word2(),
    {
        self.control_word1 = v;
    }

    pub fn rate_info(&self) -> (v: Vec<u16>)
        ensures
            v@ == self.spec_rate_info(),
    {
        let v: Vec<u16> = vec![
            self.rate_info[0],
            self.rate_info[1],
            self.rate_info[2],
            self.rate_info[3],
            self.rate_info[4],
        ];
        assert(v@ =~= self.rate_info@);
        v
    }

    pub fn set_rate_info(&mut self, v: [u16; 5])
        ensures
            final(self).spec_rate_info() == v@,
            final(self).spec_power_control() == old(self).spec_power_control(),
            final(self).spec_control_word1() == old(self).spec_control_word1(),
            final(self).spec_dtmf_control() == old(self).spec_dtmf_control(),
            final(self).spec_control_word2() == old(self).spec_control_word2(),
    {
        self.rate_info = v;
    }

    pub fn dtmf_control(&self) -> (v: u16)
        ensures
            v == self.spec_dtmf_control(),
    {
        self.dtmf_control
    }

    pub fn set_dtmf_control(&mut self, v: u16)
        ensures
            final(self).spec_dtmf_control() == v,
            final(self).spec_power_control() == old(self).spec_power_control(),
            final(self).spec_control_word1() == old(self).spec_control_word1(),
            final(self).spec_rate_info() == old(self).spec_rate_info(),
            final(self).spec_control_word2() == old(self).spec_control_word2(),
    {
        self.dtmf_control = v;
    }

    pub fn control_word2(&self) -> (v: u16)
        ensures
            v == self.spec_control_word2(),
    {
        self.control_word2
    }

    pub fn set_control_word2(&mut self, v: u16)
        ensures
            final(self).spec_control_word2() == v,
            final(self).spec_power_control() == old(self).spec_power_control(),
            final(self).spec_control_word1() == old(self).spec_control_word1(),
            final(self).spec_rate_info() == old(self).spec_rate_info(),
            final(self).spec_dtmf_control() == old(self).spec_dtmf_control(),
    {
        self.control_word2 = v;
    }

    /// Two headers are equal when every field is.
    pub fn __eq__(&self, other: &Self) -> (res: bool)
        ensures
            res == self.same_fields(other),
    {
        let mut same = self.power_control == other.power_control
            && self.control_word1 == other.control_word1
            && self.dtmf_control == other.dtmf_control
            && self.control_word2 == other.control_word2;
        let mut i: usize = 0;
        while i < 5
            invariant
                0 <= i <= 5,
                same == (self.power_control == other.power_control
                    && self.control_word1 == other.control_word1
                    && self.dtmf_control == other.dtmf_control
                    && self.control_word2 == other.control_word2
                    && forall|j: int| 0 <= j < i ==> self.rate_info@[j] == other.rate_info@[j]),
            decreases 5 - i,
        {
            same = same && self.rate_info[i] == other.rate_info[i];
            i = i + 1;
        }
        proof {
            if same {
                assert(self.rate_info@ =~= other.rate_info@);
            }
        }
        same
    }
}

impl PySdPacketHeader {
    /// The text `SdPacketHeader(rate_info=[..], power_control=.., control_word1=..,
    /// dtmf_control=.., control_word2=..)`.
    pub open spec fn repr_spec(&self) -> Seq<char> {
        "SdPacketHeader(rate_info="@
            + decimal_list(self.spec_rate_info().map_values(|v: u16| v as nat))
            + ", power_control="@ + decimal(self.spec_power_control() as nat)
            + ", control_word1="@ + decimal(self.spec_control_word1() as nat)
            + ", dtmf_control="@ + decimal(self.spec_dtmf_control() as nat)
            + ", control_word2="@ + decimal(self.spec_control_word2() as nat)
            + ")"@
    }

    /// The header written out field by field.
    pub fn __repr__(&self) -> (s: String)
        ensures
            s@ == self.repr_spec(),
    {
        proof {
            reveal_strlit("SdPacketHeader(rate_info=");
            reveal_strlit(", power_control=");
            reveal_strlit(", control_word1=");
            reveal_strlit(", dtmf_control=");
            reveal_strlit(", control_word2=");
            reveal_strlit(")");
        }
        let words: Vec<u64> = vec![
            self.rate_info[0] as u64,
            self.rate_info[1] as u64,
            self.rate_info[2] as u64,
            self.rate_info[3] as u64,
            self.rate_info[4] as u64,
        ];
        assert(words@.map_values(|v: u64| v as nat) =~= self.rate_info@.map_values(|v: u16| v as nat));
        let mut s = String::new();
        s.append("SdPacketHeader(rate_info=");
        push_decimal_list(&mut s, words.as_slice());
        s.append(", power_control=");
        push_decimal(&mut s, self.power_control as u64);
        s.append(", control_word1=");
        push_decimal(&mut s, self.control_word1 as u64);
        s.append(", dtmf_control=");
        push_decimal(&mut s, self.dtmf_control as u64);
        s.append(", control_word2=");
        push_decimal(&mut s, self.control_word2 as u64);
        s.append(")");
        assert(s@ =~= self.repr_spec());
        s
    }
}

/// The five rate words as numbers.
proof fn lemma_five_items(r: Seq<nat>)
    requires
        r.len() == 5,
    ensures
        decimal_items(r) == decimal(r[0]) + ", "@ + decimal(r[1]) + ", "@ + decimal(r[2]) + ", "@
            + decimal(r[3]) + ", "@ + decimal(r[4]),
{
    assert(r.take(1).len() == 1);
    assert(decimal_items(r.take(1)) == decimal(r[0]));
    assert(r.take(2).drop_last() =~= r.take(1));
    assert(r.take(3).drop_last() =~= r.take(2));
    assert(r.take(4).drop_last() =~= r.take(3));
    assert(r.drop_last() =~= r.take(4));
    assert(decimal_items(r.take(2)) == decimal_items(r.take(1)) + ", "@ + decimal(r[1]));
    assert(decimal_items(r.take(3)) == decimal_items(r.take(2)) + ", "@ + decimal(r[2]));
    assert(decimal_items(r.take(4)) == decimal_items(r.take(3)) + ", "@ + decimal(r[3]));
    assert(decimal_items(r) == decimal_items(r.take(4)) + ", "@ + decimal(r[4]));
}

/// Law: the header's text is
/// `SdPacketHeader(rate_info=[r0, r1, r2, r3, r4], power_control=P,
/// control_word1=C, dtmf_control=D, control_word2=E)` where each slot is
/// the canonical decimal numeral of the full value of its own field.
pub proof fn lemma_header_repr_fields(h: PySdPacketHeader)
    ensures
        exists|q0: Seq<char>, q1: Seq<char>, q2: Seq<char>, q3: Seq<char>, q4: Seq<char>,
            qp: Seq<char>, qc1: Seq<char>, qd: Seq<char>, qc2: Seq<char>|
            #![trigger is_numeral_of(q0, h.spec_rate_info()[0] as int), is_numeral_of(q1, h.spec_rate_info()[1] as int), is_numeral_of(q2, h.spec_rate_info()[2] as int), is_numeral_of(q3, h.spec_rate_info()[3] as int), is_numeral_of(q4, h.spec_rate_info()[4] as int), is_numeral_of(qp, h.spec_power_control() as int), is_numeral_of(qc1, h.spec_control_word1() as int), is_numeral_of(qd, h.spec_dtmf_control() as int), is_numeral_of(qc2, h.spec_control_word2() as int)]
            h.repr_spec() == "SdPacketHeader(rate_info="@
                + ("["@ + (q0 + ", "@ + q1 + ", "@ + q2 + ", "@ + q3 + ", "@ + q4) + "]"@)
                + ", power_control="@ + qp + ", control_word1="@ + qc1
                + ", dtmf_control="@ + qd + ", control_word2="@ + qc2 + ")"@
            && is_numeral_of(q0, h.spec_rate_info()[0] as int)
            && is_numeral_of(q1, h.spec_rate_info()[1] as int)
            && is_numeral_of(q2, h.spec_rate_info()[2] as int)
            && is_numeral_of(q3, h.spec_rate_info()[3] as int)
            && is_numeral_of(q4, h.spec_rate_info()[4] as int)
            && is_numeral_of(qp, h.spec_power_control() as int)
            && is_numeral_of(qc1, h.spec_control_word1() as int)
            && is_numeral_of(qd, h.spec_dtmf_control() as int)
            && is_numeral_of(qc2, h.spec_control_word2() as int),
{
    let r = h.spec_rate_info().map_values(|v: u16| v as nat);
    assert(h.spec_rate_info().len() == 5);
    lemma_five_items(r);
    let q0 = decimal(r[0]);
    let q1 = decimal(r[1]);
    let q2 = decimal(r[2]);
    let q3 = decimal(r[3]);
    let q4 = decimal(r[4]);
    let qp = decimal(h.spec_power_control() as nat);
    let qc1 = decimal(h.spec_control_word1() as nat);
    let qd = decimal(h.spec_dtmf_control() as nat);
    let qc2 = decimal(h.spec_control_word2() as nat);
    lemma_decimal_is_numeral(r[0]);
    lemma_decimal_is_numeral(r[1]);
    lemma_decimal_is_numeral(r[2]);
    lemma_decimal_is_numeral(r[3]);
    lemma_decimal_is_numeral(r[4]);
    lemma_decimal_is_numeral(h.spec_power_control() as nat);
    lemma_decimal_is_numeral(h.spec_control_word1() as nat);
    lemma_decimal_is_numeral(h.spec_dtmf_control() as nat);
    lemma_decimal_is_numeral(h.spec_control_word2() as nat);
    assert(decimal_items(r) == q0 + ", "@ + q1 + ", "@ + q2 + ", "@ + q3 + ", "@ + q4);
    assert(h.repr_spec() == "SdPacketHeader(rate_info="@
        + ("["@ + (q0 + ", "@ + q1 + ", "@ + q2 + ", "@ + q3 + ", "@ + q4) + "]"@)
        + ", power_control="@ + qp + ", control_word1="@ + qc1
        + ", dtmf_control="@ + qd + ", control_word2="@ + qc2 + ")"@);
}

/// The big-endian byte serialization of `words`: high byte of each word
/// first.
pub open spec fn be_bytes(words: Seq<u16>) -> Seq<u8> {
    Seq::new(
        2 * words.len(),
        |i: int|
            if i % 2 == 0 {
                (words[i / 2] >> 8u16) as u8
            } else {
                (words[i / 2] & 0xffu16) as u8
            },
    )
}

/// Serialize a 60-word packet to 120 big-endian bytes (high byte of each
/// word first — the host wire order).
pub fn packet_to_bytes(words: &[u16]) -> (res: Result<Vec<u8>, ArgError>)
    ensures
        words@.len() == SD_PACKET_WORDS ==> (res matches Ok(b) && b@ == be_bytes(words@)),
        words@.len() != SD_PACKET_WORDS ==> res == Err::<Vec<u8>, ArgError>(
            ArgError::Length { expected: SD_PACKET_WORDS, got: words@.len() as usize },
        ),
{
    require_len(words.len(), SD_PACKET_WORDS)?;
    let mut out: Vec<u8> = Vec::new();
    for i in 0..SD_PACKET_WORDS
        invariant
            words@.len() == SD_PACKET_WORDS,
            out@ == be_bytes(words@.take(i as int)),
    {
        let w = words[i];
        let hi = (w >> 8u16) as u8;
        let lo = (w & 0xffu16) as u8;
        proof {
            assert(w >> 8u16 <= 0xffu16) by (bit_vector);
            assert(w & 0xffu16 <= 0xffu16) by (bit_vector);
        }
        out.push(hi);
        out.push(lo);
        proof {
            let t = words@.take(i as int + 1);
            assert(t.take(i as int) =~= words@.take(i as int));
            assert forall|j: int| 0 <= j < 2 * (i + 1) implies #[trigger] out@[j] == be_bytes(t)[j] by {
                if j < 2 * i {
                    assert(be_bytes(words@.take(i as int))[j] == be_bytes(t)[j]);
                } else {
                    assert(j / 2 == i);
                }
            }
            assert(out@ =~= be_bytes(t));
        }
    }
    assert(words@.take(SD_PACKET_WORDS as int) =~= words@);
    Ok(out)
}

/// A soft-decision packet must hold exactly 60 words.
pub fn check_packet_words(words: &[u16]) -> (res: Result<(), ArgError>)
    ensures
        words@.len() == SD_PACKET_WORDS ==> res is Ok,
        words@.len() != SD_PACKET_WORDS ==> res == Err::<(), ArgError>(
            ArgError::Length { expected: SD_PACKET_WORDS, got: words@.len() as usize },
        ),
{
    require_len(words.len(), SD_PACKET_WORDS)
}

/// Law: every packet word is recovered from its two serialized bytes,
/// high byte first.
pub proof fn lemma_be_bytes_recombine(words: Seq<u16>, i: int)
    requires
        0 <= i < words.len(),
    ensures
        ((be_bytes(words)[2 * i] as u16) << 8u16) | (be_bytes(words)[2 * i + 1] as u16) == words[i],
{
    let w = words[i];
    assert((2 * i) / 2 == i && (2 * i) % 2 == 0);
    assert((2 * i + 1) / 2 == i && (2 * i + 1) % 2 == 1);
    assert(((((w >> 8u16) as u8) as u16) << 8u16) | (((w & 0xffu16) as u8) as u16) == w) by (bit_vector);
}

} // verus!
