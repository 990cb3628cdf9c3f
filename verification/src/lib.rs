//! A small stack machine.
//!
//! Source text is cut into tokens ([`lexer`]) and assembled into a program
//! ([`compiler`]): a sequence of instructions ([`instr`]) over a fixed set of
//! opcodes ([`op`]). A program can be written out as bytes and read back
//! ([`codec`]), and it can be run ([`interpreter`]).

pub mod codec;
pub mod compiler;
pub mod instr;
pub mod interpreter;
pub mod lexer;
pub mod literal;
pub mod op;
