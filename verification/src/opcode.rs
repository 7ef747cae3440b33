//! The instruction set: opcodes and instruction records.

use vstd::prelude::*;

verus! {

/// The opcodes of the stack machine.
///
/// `STI` is reserved: no program produced by the compiler contains it and the
/// machine faults when it meets one.
#[derive(Debug, Clone, Copy, PartialEq, Eq, Hash, Structural)]
pub enum Opt {
    LOAD,
    LOADI,
    STO,
    STI,
    ADD,
    SUB,
    MULT,
    DIV,
    BR,
    BRF,
    EQ,
    NOTEQ,
    GT,
    LES,
    GE,
    LE,
    AND,
    OR,
    NOT,
    IN,
    OUT,
    RETURN,
    ENTER,
    CAL,
    PAS,
}

/// One instruction: an opcode and a signed 32-bit operand.
///
/// The operand means something only for the opcodes of
/// [`Opt::has_operand`]; the others carry an operand that nothing reads.
#[derive(Debug, Clone, Copy, PartialEq, Eq, Structural)]
pub struct Code {
    pub opt: Opt,
    pub operand: i32,
}

impl Opt {
    /// The opcodes whose operand is meaningful.
    pub open spec fn carries_operand(self) -> bool {
        self == Opt::LOAD || self == Opt::LOADI || self == Opt::STO || self == Opt::BR || self
            == Opt::BRF || self == Opt::CAL || self == Opt::ENTER
    }

    /// Whether the operand of this opcode is meaningful.
    pub fn has_operand(self) -> (b: bool)
        ensures
            b == self.carries_operand(),
    {
        match self {
            Opt::LOAD | Opt::LOADI | Opt::STO | Opt::BR | Opt::BRF | Opt::CAL | Opt::ENTER => true,
            _ => false,
        }
    }
}

impl Code {
    /// An instruction with the given opcode and operand.
    pub fn new(opt: Opt, operand: i32) -> (c: Code)
        ensures
            c == (Code { opt, operand }),
    {
        Code { opt, operand }
    }
}

} // verus!
