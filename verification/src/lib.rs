//! A minimal stack-based bytecode virtual machine, with its text assembler
//! and binary instruction codec.
//!
//! Floating-point values are carried everywhere as their IEEE 754 binary32
//! bit patterns (`u32`), so that the codec, the assembler and the machine
//! can be reasoned about over plain integers.  The only operations that
//! need real floating-point hardware — the arithmetic on two float operands
//! and the conversion of a float literal to its bit pattern — are handed
//! out to the caller through small request/supply interfaces.
use vstd::prelude::*;

pub mod assembler;
pub mod codec;
pub mod floatbits;
pub mod machine;

pub use codec::{CMP, JE, JG, JGE, JL, JLE, JUMP, MINUS, MULT, NOP, PLUS, PUSHF32, PUSHU32};
pub use machine::Machine;

verus! {

/// A value on the operand stack: an unsigned 32-bit integer, or a 32-bit
/// float represented by its bit pattern.  No implicit conversion between
/// the two variants.
#[allow(non_camel_case_types)]
#[derive(Copy, Clone, Debug, PartialEq, Eq, Structural)]
pub enum Data {
    NUMBER(u32),
    FLOAT(u32),
}

/// One instruction of the closed instruction set.  Jump targets are raw
/// absolute instruction indices.
#[allow(non_camel_case_types)]
#[derive(Copy, Clone, Debug, PartialEq, Eq, Structural)]
pub enum Instruction {
    NOP,
    PUSH(Data),
    PLUS,
    MINUS,
    MULT,
    JUMP(u32),
    CMP,
    JE(u32),
    JNE(u32),
    JG(u32),
    JGE(u32),
    JL(u32),
    JLE(u32),
}

/// An ordered sequence of instructions.
#[derive(Clone, Debug)]
pub struct Program {
    pub instructions: Vec<Instruction>,
}

/// A failure while executing a program.
#[allow(non_camel_case_types)]
#[derive(Copy, Clone, Debug, PartialEq, Eq, Structural)]
pub enum RuntimeFault {
    /// A pop or peek needed more values than the stack holds.
    StackUnderflow,
    /// Arithmetic or comparison across the two different value variants.
    TypeMismatch,
    /// The instruction pointer landed strictly beyond the program's length.
    InvalidJumpTarget,
}

/// A failure while decoding a byte stream into a program.
#[derive(Copy, Clone, Debug, PartialEq, Eq, Structural)]
pub enum DecodeError {
    /// Fewer than four bytes remained where an operand was expected.
    TruncatedInput,
    /// A byte outside the fourteen known opcodes, carried along.
    UnknownOpcode(u8),
}

/// A failure while assembling a textual program.
#[derive(Clone, Debug, PartialEq, Eq)]
pub enum ParseError {
    /// A line held no token at all: empty or whitespace-only.
    MissingInstruction,
    /// The first token of a line is not one of the thirteen mnemonics.
    UnknownMnemonic,
    /// A mnemonic that needs an operand stood alone on its line.
    MissingOperand,
    /// A jump operand that does not parse as an unsigned 32-bit integer.
    InvalidOperand,
    /// A PUSH operand that parses neither as an integer nor as a float,
    /// carrying the offending token.
    NotANumber(Vec<char>),
}

} // verus!
