//! One machine instruction and its packed 64-bit form.

use crate::op::Op;
use vstd::prelude::*;

verus! {

/// Width of the operand field of a packed instruction, in bits.
pub const OPERAND_BITS: u32 = 56;

/// The bits of a packed instruction that hold the operand.
pub const OPERAND_MASK: u64 = 0x00FF_FFFF_FFFF_FFFF;

/// The first operand value that no longer fits the operand field.
pub const OPERAND_LIMIT: i64 = 0x0100_0000_0000_0000;

/// An opcode with its integer operand. The operand is zero where the opcode
/// takes none.
#[derive(Debug, Clone, Copy, PartialEq, Eq, Structural)]
pub struct Instr {
    pub op: Op,
    pub value: i64,
}

/// What is left of an operand once it has gone through the operand field:
/// the value modulo `2^56`, which is never negative.
pub open spec fn truncate_operand(value: i64) -> i64 {
    (value as int % 0x0100_0000_0000_0000) as i64
}

impl Instr {
    /// The packed form: the opcode's code in the top byte, the operand
    /// modulo `2^56` in the 56 bits below it.
    pub open spec fn spec_to_u64(self) -> u64 {
        (self.op.spec_code() as int * 0x0100_0000_0000_0000 + truncate_operand(self.value)) as u64
    }

    /// The instruction that a packed word stands for: its top byte names the
    /// opcode, the rest is the operand. `None` where the top byte is the code
    /// of no opcode.
    pub open spec fn spec_from_u64(raw: u64) -> Option<Instr> {
        match Op::spec_from_repr((raw / 0x0100_0000_0000_0000) as u8) {
            Some(op) => Some(Instr { op, value: (raw % 0x0100_0000_0000_0000) as i64 }),
            None => None,
        }
    }

    /// Whether the operand survives packing unchanged: it is not negative
    /// and needs no more than 56 bits.
    pub open spec fn spec_fits(&self) -> bool {
        0 <= self.value < OPERAND_LIMIT
    }

    /// The instruction as it comes back from its packed form.
    pub open spec fn truncated(self) -> Instr {
        Instr { op: self.op, value: truncate_operand(self.value) }
    }

    /// Tells whether packing keeps the operand. An operand that is negative
    /// or wider than 56 bits is cut down to its low 56 bits by `to_u64`, so a
    /// caller that needs the exact value back has to ask here first.
    #[verifier::when_used_as_spec(spec_fits)]
    pub fn fits(&self) -> (yes: bool)
        ensures
            yes == self.spec_fits(),
    {
        0 <= self.value && self.value < OPERAND_LIMIT
    }

    /// Packs the instruction into one 64-bit word.
    pub fn to_u64(&self) -> (word: u64)
        ensures
            word == self.spec_to_u64(),
            Instr::spec_from_u64(word) == Some(self.truncated()),
    {
        let code: u8 = self.op.code();
        let value: i64 = self.value;
        let word: u64 = ((code as u64) << 56) | ((#[verifier::truncate] (value as u64)) & OPERAND_MASK);
        proof {
            assert(0 <= truncate_operand(value) < 0x0100_0000_0000_0000);
            assert(((code as u64) << 56) | ((value as u64) & 0x00FF_FFFF_FFFF_FFFFu64) == (code as int
                * 0x0100_0000_0000_0000 + (value as int % 0x0100_0000_0000_0000)) as u64)
                by (bit_vector);
            Instr::lemma_unpack_of_pack(*self);
        }
        word
    }

    /// Unpacks one 64-bit word. `None` exactly where its top byte is the code
    /// of no opcode.
    pub fn from_u64(raw: u64) -> (instr: Option<Self>)
        ensures
            instr == Instr::spec_from_u64(raw),
    {
        let code: u8 = (raw >> 56) as u8;
        let value: i64 = (raw & OPERAND_MASK) as i64;
        proof {
            assert((raw >> 56) as u8 == (raw / 0x0100_0000_0000_0000) as u8) by (bit_vector);
            assert((raw & 0x00FF_FFFF_FFFF_FFFFu64) as i64 == (raw % 0x0100_0000_0000_0000) as i64)
                by (bit_vector);
        }
        match Op::from_repr(code) {
            Some(op) => Some(Instr { op, value }),
            None => None,
        }
    }

    /// Unpacking a packed instruction gives the same opcode, and the operand
    /// modulo `2^56`.
    pub proof fn lemma_unpack_of_pack(instr: Instr)
        ensures
            Instr::spec_from_u64(instr.spec_to_u64()) == Some(instr.truncated()),
    {
        let code = instr.op.spec_code();
        let field = truncate_operand(instr.value);
        let word = instr.spec_to_u64();
        Op::lemma_from_repr_of_code(instr.op);
        assert(0 <= field < 0x0100_0000_0000_0000);
        assert(1 <= code <= 0x19);
        assert(word == code as int * 0x0100_0000_0000_0000 + field);
        assert(word / 0x0100_0000_0000_0000 == code && word % 0x0100_0000_0000_0000 == field)
            by (nonlinear_arith)
            requires
                word == code as int * 0x0100_0000_0000_0000 + field,
                0 <= field < 0x0100_0000_0000_0000,
        ;
    }

    /// An operand between `0` and `2^56 - 1` comes back from the packed form
    /// as it went in.
    pub proof fn lemma_fitting_operand_survives(instr: Instr)
        requires
            instr.spec_fits(),
        ensures
            instr.truncated() == instr,
            Instr::spec_from_u64(instr.spec_to_u64()) == Some(instr),
    {
        Instr::lemma_unpack_of_pack(instr);
    }

    /// What packing leaves of an operand is never negative and fits the
    /// operand field, whatever went in; it agrees with the operand in its low
    /// 56 bits.
    pub proof fn lemma_truncated_fits(instr: Instr)
        ensures
            instr.truncated().spec_fits(),
            instr.truncated().truncated() == instr.truncated(),
            instr.truncated().spec_to_u64() == instr.spec_to_u64(),
    {
        let field = truncate_operand(instr.value);
        assert(0 <= field < 0x0100_0000_0000_0000);
    }
}

} // verus!
