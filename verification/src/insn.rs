//! The 64-bit instruction word and its fixed bitfields.
//!
//! A word packs, from most to least significant: an 8-bit opcode tag, three
//! 8-bit register slots (src1, src2, dest) and a 32-bit immediate. Each
//! field has an independent accessor pair that never disturbs the others.

use crate::opcode::Opcode;
use vstd::prelude::*;

verus! {

/// The opcode tag stored in bits 56..64 of `w`.
pub open spec fn opcode_bits(w: u64) -> u64 {
    (w >> 56) & 0xFF
}

/// The first source register index stored in bits 48..56 of `w`.
pub open spec fn src1_bits(w: u64) -> u64 {
    (w >> 48) & 0xFF
}

/// The second source register index stored in bits 40..48 of `w`.
pub open spec fn src2_bits(w: u64) -> u64 {
    (w >> 40) & 0xFF
}

/// The destination register index stored in bits 32..40 of `w`.
pub open spec fn dest_bits(w: u64) -> u64 {
    (w >> 32) & 0xFF
}

/// The 32-bit immediate stored in bits 0..32 of `w`.
pub open spec fn immediate_bits(w: u64) -> u64 {
    w & 0xFFFF_FFFF
}

/// The word whose five fields hold exactly the given values.
pub open spec fn spec_encode(tag: u64, src1: u64, src2: u64, dest: u64, imm: u64) -> u64 {
    (tag << 56) | (src1 << 48) | (src2 << 40) | (dest << 32) | imm
}

/// Extracting any field of an encoded word gives back the value supplied,
/// provided every value was in its field's range.
pub proof fn lemma_encode_fields(tag: u64, src1: u64, src2: u64, dest: u64, imm: u64)
    by (bit_vector)
    requires
        tag <= 0xFF,
        src1 <= 0xFF,
        src2 <= 0xFF,
        dest <= 0xFF,
        imm <= 0xFFFF_FFFF,
    ensures
        opcode_bits(spec_encode(tag, src1, src2, dest, imm)) == tag,
        src1_bits(spec_encode(tag, src1, src2, dest, imm)) == src1,
        src2_bits(spec_encode(tag, src1, src2, dest, imm)) == src2,
        dest_bits(spec_encode(tag, src1, src2, dest, imm)) == dest,
        immediate_bits(spec_encode(tag, src1, src2, dest, imm)) == imm,
{
}

/// The five fields partition the word: words that agree on every field are
/// the same word.
pub proof fn lemma_fields_determine(w1: u64, w2: u64)
    by (bit_vector)
    requires
        opcode_bits(w1) == opcode_bits(w2),
        src1_bits(w1) == src1_bits(w2),
        src2_bits(w1) == src2_bits(w2),
        dest_bits(w1) == dest_bits(w2),
        immediate_bits(w1) == immediate_bits(w2),
    ensures
        w1 == w2,
{
}

/// Register and opcode fields are 8 bits, the immediate 32: their
/// values never exceed 255 and 4294967295 respectively.
pub proof fn lemma_fields_bounded(w: u64)
    by (bit_vector)
    ensures
        opcode_bits(w) <= 0xFF,
        src1_bits(w) <= 0xFF,
        src2_bits(w) <= 0xFF,
        dest_bits(w) <= 0xFF,
        immediate_bits(w) <= 0xFFFF_FFFF,
{
}

/// Every field of the all-zero sentinel word is zero.
pub proof fn lemma_zero_fields()
    by (bit_vector)
    ensures
        opcode_bits(0) == 0,
        src1_bits(0) == 0,
        src2_bits(0) == 0,
        dest_bits(0) == 0,
        immediate_bits(0) == 0,
{
}

/// One packed 64-bit instruction word.
#[derive(Clone, Copy, Debug, PartialEq, Eq, Structural)]
pub struct Insn(u64);

impl Default for Insn {
    /// The all-zero word: the halt sentinel.
    fn default() -> (r: Self)
        ensures
            r@ == 0,
    {
        Insn(0)
    }
}

impl View for Insn {
    type V = u64;

    closed spec fn view(&self) -> u64 {
        self.0
    }
}

impl Insn {
    pub const OPCODE_SHIFT: u64 = 56;

    pub const OPCODE_MASK: u64 = 0xFF00_0000_0000_0000;

    pub const SRC1_SHIFT: u64 = 48;

    pub const SRC1_MASK: u64 = 0x00FF_0000_0000_0000;

    pub const SRC2_SHIFT: u64 = 40;

    pub const SRC2_MASK: u64 = 0x0000_FF00_0000_0000;

    pub const DEST_SHIFT: u64 = 32;

    pub const DEST_MASK: u64 = 0x0000_00FF_0000_0000;

    pub const IMMEDIATE_MASK: u64 = 0x0000_0000_FFFF_FFFF;

    pub fn new(v: u64) -> (r: Self)
        ensures
            r@ == v,
    {
        Insn(v)
    }

    pub fn to_u64(self) -> (r: u64)
        ensures
            r == self@,
    {
        self.0
    }

    /// Replace the opcode field, preserving every other bit.
    pub fn set_opcode(&mut self, opcode: u8)
        ensures
            opcode_bits(final(self)@) == opcode,
            src1_bits(final(self)@) == src1_bits(old(self)@),
            src2_bits(final(self)@) == src2_bits(old(self)@),
            dest_bits(final(self)@) == dest_bits(old(self)@),
            immediate_bits(final(self)@) == immediate_bits(old(self)@),
    {
        let w0 = self.0;
        let w1 = (w0 & !Insn::OPCODE_MASK) | (((opcode as u64) << Insn::OPCODE_SHIFT)
            & Insn::OPCODE_MASK);
        self.0 = w1;
        proof {
            assert(opcode_bits(w1) == opcode && src1_bits(w1) == src1_bits(w0) && src2_bits(w1)
                == src2_bits(w0) && dest_bits(w1) == dest_bits(w0) && immediate_bits(w1)
                == immediate_bits(w0)) by (bit_vector)
                requires
                    w1 == (w0 & !0xFF00_0000_0000_0000u64) | (((opcode as u64) << 56u64)
                        & 0xFF00_0000_0000_0000u64),
            ;
        }
    }

    /// Replace the src1 field, preserving every other bit.
    pub fn set_src1(&mut self, src1: u8)
        ensures
            src1_bits(final(self)@) == src1,
            opcode_bits(final(self)@) == opcode_bits(old(self)@),
            src2_bits(final(self)@) == src2_bits(old(self)@),
            dest_bits(final(self)@) == dest_bits(old(self)@),
            immediate_bits(final(self)@) == immediate_bits(old(self)@),
    {
        let w0 = self.0;
        let w1 = (w0 & !Insn::SRC1_MASK) | (((src1 as u64) << Insn::SRC1_SHIFT) & Insn::SRC1_MASK);
        self.0 = w1;
        proof {
            assert(src1_bits(w1) == src1 && opcode_bits(w1) == opcode_bits(w0) && src2_bits(w1)
                == src2_bits(w0) && dest_bits(w1) == dest_bits(w0) && immediate_bits(w1)
                == immediate_bits(w0)) by (bit_vector)
                requires
                    w1 == (w0 & !0x00FF_0000_0000_0000u64) | (((src1 as u64) << 48u64)
                        & 0x00FF_0000_0000_0000u64),
            ;
        }
    }

    /// Replace the src2 field, preserving every other bit.
    pub fn set_src2(&mut self, src2: u8)
        ensures
            src2_bits(final(self)@) == src2,
            opcode_bits(final(self)@) == opcode_bits(old(self)@),
            src1_bits(final(self)@) == src1_bits(old(self)@),
            dest_bits(final(self)@) == dest_bits(old(self)@),
            immediate_bits(final(self)@) == immediate_bits(old(self)@),
    {
        let w0 = self.0;
        let w1 = (w0 & !Insn::SRC2_MASK) | (((src2 as u64) << Insn::SRC2_SHIFT) & Insn::SRC2_MASK);
        self.0 = w1;
        proof {
            assert(src2_bits(w1) == src2 && opcode_bits(w1) == opcode_bits(w0) && src1_bits(w1)
                == src1_bits(w0) && dest_bits(w1) == dest_bits(w0) && immediate_bits(w1)
                == immediate_bits(w0)) by (bit_vector)
                requires
                    w1 == (w0 & !0x0000_FF00_0000_0000u64) | (((src2 as u64) << 40u64)
                        & 0x0000_FF00_0000_0000u64),
            ;
        }
    }

    /// Replace the dest field, preserving every other bit.
    pub fn set_dest(&mut self, dest: u8)
        ensures
            dest_bits(final(self)@) == dest,
            opcode_bits(final(self)@) == opcode_bits(old(self)@),
            src1_bits(final(self)@) == src1_bits(old(self)@),
            src2_bits(final(self)@) == src2_bits(old(self)@),
            immediate_bits(final(self)@) == immediate_bits(old(self)@),
    {
        let w0 = self.0;
        let w1 = (w0 & !Insn::DEST_MASK) | (((dest as u64) << Insn::DEST_SHIFT) & Insn::DEST_MASK);
        self.0 = w1;
        proof {
            assert(dest_bits(w1) == dest && opcode_bits(w1) == opcode_bits(w0) && src1_bits(w1)
                == src1_bits(w0) && src2_bits(w1) == src2_bits(w0) && immediate_bits(w1)
                == immediate_bits(w0)) by (bit_vector)
                requires
                    w1 == (w0 & !0x0000_00FF_0000_0000u64) | (((dest as u64) << 32u64)
                        & 0x0000_00FF_0000_0000u64),
            ;
        }
    }

    /// Replace the immediate field, preserving every other bit.
    pub fn set_immediate(&mut self, imm: u32)
        ensures
            immediate_bits(final(self)@) == imm,
            opcode_bits(final(self)@) == opcode_bits(old(self)@),
            src1_bits(final(self)@) == src1_bits(old(self)@),
            src2_bits(final(self)@) == src2_bits(old(self)@),
            dest_bits(final(self)@) == dest_bits(old(self)@),
    {
        let w0 = self.0;
        let w1 = (w0 & !Insn::IMMEDIATE_MASK) | ((imm as u64) & Insn::IMMEDIATE_MASK);
        self.0 = w1;
        proof {
            assert(immediate_bits(w1) == imm && opcode_bits(w1) == opcode_bits(w0) && src1_bits(w1)
                == src1_bits(w0) && src2_bits(w1) == src2_bits(w0) && dest_bits(w1) == dest_bits(
                w0)) by (bit_vector)
                requires
                    w1 == (w0 & !0x0000_0000_FFFF_FFFFu64) | ((imm as u64)
                        & 0x0000_0000_FFFF_FFFFu64),
            ;
        }
    }

    /// Decode the opcode field, if it holds a valid tag.
    pub fn get_opcode(self) -> (r: Option<Opcode>)
        ensures
            r == Opcode::spec_from_u64(opcode_bits(self@)),
    {
        let w = self.0;
        let bits = (w >> Insn::OPCODE_SHIFT) & 0xFF;
        proof {
            assert((w >> 56u64) & 0xFF == opcode_bits(w)) by (bit_vector);
        }
        Opcode::from_u64(bits)
    }

    pub fn get_src1(self) -> (r: u8)
        ensures
            r == src1_bits(self@),
    {
        let w = self.0;
        let bits = (w >> Insn::SRC1_SHIFT) & 0xFF;
        proof {
            assert((w >> 48u64) & 0xFF == src1_bits(w) && (w >> 48u64) & 0xFF <= 0xFF)
                by (bit_vector);
        }
        bits as u8
    }

    pub fn get_src2(self) -> (r: u8)
        ensures
            r == src2_bits(self@),
    {
        let w = self.0;
        let bits = (w >> Insn::SRC2_SHIFT) & 0xFF;
        proof {
            assert((w >> 40u64) & 0xFF == src2_bits(w) && (w >> 40u64) & 0xFF <= 0xFF)
                by (bit_vector);
        }
        bits as u8
    }

    pub fn get_dest(self) -> (r: u8)
        ensures
            r == dest_bits(self@),
    {
        let w = self.0;
        let bits = (w >> Insn::DEST_SHIFT) & 0xFF;
        proof {
            assert((w >> 32u64) & 0xFF == dest_bits(w) && (w >> 32u64) & 0xFF <= 0xFF)
                by (bit_vector);
        }
        bits as u8
    }

    pub fn get_immediate(self) -> (r: u32)
        ensures
            r == immediate_bits(self@),
    {
        let w = self.0;
        let bits = w & Insn::IMMEDIATE_MASK;
        proof {
            assert(w & 0x0000_0000_FFFF_FFFFu64 == immediate_bits(w) && w
                & 0x0000_0000_FFFF_FFFFu64 <= 0xFFFF_FFFF) by (bit_vector);
        }
        bits as u32
    }
}

} // verus!
