//! The instruction set: operation codes, their numeric codes and the operand
//! shape each of them takes in source text.

use vstd::prelude::*;

verus! {

/// What an opcode expects after its keyword in source text.
#[derive(Debug, Clone, Copy, PartialEq, Eq, Structural)]
pub enum Arity {
    /// The keyword stands alone.
    NoOperand,
    /// The keyword is followed by an integer literal.
    Integer,
    /// The keyword is followed by an integer literal or by a label.
    Target,
}

/// The closed set of operations of the machine.
///
/// The variants are declared in the order of their numeric codes, which run
/// from `0x01` (`Pop`) to `0x19` (`Jnz`) without gaps.
#[derive(Debug, Clone, Copy, PartialEq, Eq, Structural, PartialOrd)]
pub enum Op {
    Pop,
    Add,
    Inc,
    Dec,
    Sub,
    Mul,
    Div,
    Mod,
    Print,
    Halt,
    Dup,
    Dup2,
    Swap,
    Clear,
    Over,
    Push,
    Je,
    Jn,
    Jg,
    Jl,
    Jge,
    Jle,
    Jmp,
    Jz,
    Jnz,
}

impl Op {
    /// The numeric code of an opcode, as it is stored in the top byte of an
    /// encoded instruction.
    pub open spec fn spec_code(self) -> u8 {
        match self {
            Op::Pop => 0x01,
            Op::Add => 0x02,
            Op::Inc => 0x03,
            Op::Dec => 0x04,
            Op::Sub => 0x05,
            Op::Mul => 0x06,
            Op::Div => 0x07,
            Op::Mod => 0x08,
            Op::Print => 0x09,
            Op::Halt => 0x0a,
            Op::Dup => 0x0b,
            Op::Dup2 => 0x0c,
            Op::Swap => 0x0d,
            Op::Clear => 0x0e,
            Op::Over => 0x0f,
            Op::Push => 0x10,
            Op::Je => 0x11,
            Op::Jn => 0x12,
            Op::Jg => 0x13,
            Op::Jl => 0x14,
            Op::Jge => 0x15,
            Op::Jle => 0x16,
            Op::Jmp => 0x17,
            Op::Jz => 0x18,
            Op::Jnz => 0x19,
        }
    }

    /// The opcode that a numeric code stands for, if any.
    pub open spec fn spec_from_repr(code: u8) -> Option<Op> {
        if code == 0x01 {
            Some(Op::Pop)
        } else if code == 0x02 {
            Some(Op::Add)
        } else if code == 0x03 {
            Some(Op::Inc)
        } else if code == 0x04 {
            Some(Op::Dec)
        } else if code == 0x05 {
            Some(Op::Sub)
        } else if code == 0x06 {
            Some(Op::Mul)
        } else if code == 0x07 {
            Some(Op::Div)
        } else if code == 0x08 {
            Some(Op::Mod)
        } else if code == 0x09 {
            Some(Op::Print)
        } else if code == 0x0a {
            Some(Op::Halt)
        } else if code == 0x0b {
            Some(Op::Dup)
        } else if code == 0x0c {
            Some(Op::Dup2)
        } else if code == 0x0d {
            Some(Op::Swap)
        } else if code == 0x0e {
            Some(Op::Clear)
        } else if code == 0x0f {
            Some(Op::Over)
        } else if code == 0x10 {
            Some(Op::Push)
        } else if code == 0x11 {
            Some(Op::Je)
        } else if code == 0x12 {
            Some(Op::Jn)
        } else if code == 0x13 {
            Some(Op::Jg)
        } else if code == 0x14 {
            Some(Op::Jl)
        } else if code == 0x15 {
            Some(Op::Jge)
        } else if code == 0x16 {
            Some(Op::Jle)
        } else if code == 0x17 {
            Some(Op::Jmp)
        } else if code == 0x18 {
            Some(Op::Jz)
        } else if code == 0x19 {
            Some(Op::Jnz)
        } else {
            None
        }
    }

    /// The operand shape of an opcode, given opcode by opcode.
    pub open spec fn spec_arity(self) -> Arity {
        match self {
            Op::Pop
            | Op::Add
            | Op::Inc
            | Op::Dec
            | Op::Sub
            | Op::Mul
            | Op::Div
            | Op::Mod
            | Op::Print
            | Op::Halt
            | Op::Dup
            | Op::Dup2
            | Op::Swap
            | Op::Clear
            | Op::Over => Arity::NoOperand,
            Op::Push => Arity::Integer,
            Op::Je
            | Op::Jn
            | Op::Jg
            | Op::Jl
            | Op::Jge
            | Op::Jle
            | Op::Jmp
            | Op::Jz
            | Op::Jnz => Arity::Target,
        }
    }

    /// Whether the machine gives this opcode a run-time effect. The others
    /// are part of the instruction set and can be assembled and encoded, but
    /// executing one is a fault.
    pub open spec fn spec_is_implemented(self) -> bool {
        match self {
            Op::Dup2
            | Op::Swap
            | Op::Clear
            | Op::Je
            | Op::Jn
            | Op::Jg
            | Op::Jl
            | Op::Jge
            | Op::Jle
            | Op::Jz
            | Op::Jnz => false,
            _ => true,
        }
    }

    #[verifier::when_used_as_spec(spec_code)]
    pub fn code(self) -> (code: u8)
        ensures
            code == self.spec_code(),
    {
        match self {
            Op::Pop => 0x01,
            Op::Add => 0x02,
            Op::Inc => 0x03,
            Op::Dec => 0x04,
            Op::Sub => 0x05,
            Op::Mul => 0x06,
            Op::Div => 0x07,
            Op::Mod => 0x08,
            Op::Print => 0x09,
            Op::Halt => 0x0a,
            Op::Dup => 0x0b,
            Op::Dup2 => 0x0c,
            Op::Swap => 0x0d,
            Op::Clear => 0x0e,
            Op::Over => 0x0f,
            Op::Push => 0x10,
            Op::Je => 0x11,
            Op::Jn => 0x12,
            Op::Jg => 0x13,
            Op::Jl => 0x14,
            Op::Jge => 0x15,
            Op::Jle => 0x16,
            Op::Jmp => 0x17,
            Op::Jz => 0x18,
            Op::Jnz => 0x19,
        }
    }

    /// Looks an opcode up by its numeric code. `None` exactly for the codes
    /// that no opcode has.
    pub fn from_repr(code: u8) -> (op: Option<Op>)
        ensures
            op == Op::spec_from_repr(code),
    {
        match code {
            0x01 => Some(Op::Pop),
            0x02 => Some(Op::Add),
            0x03 => Some(Op::Inc),
            0x04 => Some(Op::Dec),
            0x05 => Some(Op::Sub),
            0x06 => Some(Op::Mul),
            0x07 => Some(Op::Div),
            0x08 => Some(Op::Mod),
            0x09 => Some(Op::Print),
            0x0a => Some(Op::Halt),
            0x0b => Some(Op::Dup),
            0x0c => Some(Op::Dup2),
            0x0d => Some(Op::Swap),
            0x0e => Some(Op::Clear),
            0x0f => Some(Op::Over),
            0x10 => Some(Op::Push),
            0x11 => Some(Op::Je),
            0x12 => Some(Op::Jn),
            0x13 => Some(Op::Jg),
            0x14 => Some(Op::Jl),
            0x15 => Some(Op::Jge),
            0x16 => Some(Op::Jle),
            0x17 => Some(Op::Jmp),
            0x18 => Some(Op::Jz),
            0x19 => Some(Op::Jnz),
            _ => None,
        }
    }

    #[verifier::when_used_as_spec(spec_arity)]
    pub fn arity(self) -> (arity: Arity)
        ensures
            arity == self.spec_arity(),
    {
        match self {
            Op::Pop
            | Op::Add
            | Op::Inc
            | Op::Dec
            | Op::Sub
            | Op::Mul
            | Op::Div
            | Op::Mod
            | Op::Print
            | Op::Halt
            | Op::Dup
            | Op::Dup2
            | Op::Swap
            | Op::Clear
            | Op::Over => Arity::NoOperand,
            Op::Push => Arity::Integer,
            Op::Je
            | Op::Jn
            | Op::Jg
            | Op::Jl
            | Op::Jge
            | Op::Jle
            | Op::Jmp
            | Op::Jz
            | Op::Jnz => Arity::Target,
        }
    }

    #[verifier::when_used_as_spec(spec_is_implemented)]
    pub fn is_implemented(self) -> (yes: bool)
        ensures
            yes == self.spec_is_implemented(),
    {
        match self {
            Op::Dup2
            | Op::Swap
            | Op::Clear
            | Op::Je
            | Op::Jn
            | Op::Jg
            | Op::Jl
            | Op::Jge
            | Op::Jle
            | Op::Jz
            | Op::Jnz => false,
            _ => true,
        }
    }

    /// Every opcode is found again under its own code.
    pub proof fn lemma_from_repr_of_code(op: Op)
        ensures
            Op::spec_from_repr(op.spec_code()) == Some(op),
    {
    }

    /// A code that names an opcode is the code of that opcode, so no two
    /// opcodes share a code and the codes are exactly `0x01 ..= 0x19`.
    pub proof fn lemma_code_of_from_repr(code: u8)
        ensures
            Op::spec_from_repr(code) matches Some(op) ==> op.spec_code() == code,
            Op::spec_from_repr(code) is Some <==> 0x01 <= code <= 0x19,
    {
    }

    /// The operand shape follows from where the code stands relative to the
    /// code of `Push`: below it no operand, at it an integer, above it an
    /// integer or a label.
    pub proof fn lemma_arity_by_code(op: Op)
        ensures
            op.spec_arity() == Arity::NoOperand <==> op.spec_code() < Op::Push.spec_code(),
            op.spec_arity() == Arity::Integer <==> op.spec_code() == Op::Push.spec_code(),
            op.spec_arity() == Arity::Target <==> op.spec_code() > Op::Push.spec_code(),
    {
    }
}

} // verus!
