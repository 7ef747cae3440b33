//! The ways in which compilation fails.

use vstd::prelude::*;

verus! {

/// Why a token stream was rejected. Compilation stops at the first error.
#[derive(Debug, Clone, Copy, PartialEq, Eq, Hash, Structural)]
pub enum CompileError {
    /// `}` is missing at the end of a compound statement.
    MissingCloseBrace,
    /// An identifier is missing: the name of a variable or of a function.
    MissingIdentifier,
    /// `;` is missing.
    MissingSemicolon,
    /// `(` is missing.
    MissingOpenParen,
    /// `)` is missing.
    MissingCloseParen,
    /// An operand is missing where an expression needs one.
    MissingOperand,
    /// A number that is no decimal numeral or does not fit in 32 bits.
    NumberTooLarge,
    /// More tokens than instruction addresses can cover.
    ProgramTooLong,
    /// `{` is missing at the start of a function body.
    MissingBodyOpen,
    /// `}` is missing at the end of a function body.
    MissingBodyClose,
    /// The last function of the program is not named `main`.
    LastMustBeMain,
    /// The symbol table is full.
    SymbolTableFull,
    /// A variable is declared twice in one function.
    VariableRedefined,
    /// An identifier is used that the current function does not declare.
    Undeclared,
    /// Tokens follow the closing brace of `main`.
    TrailingTokens,
    /// A parameter list breaks off after a comma.
    MalformedParameters,
    /// An argument list breaks off after a comma.
    MalformedArguments,
    /// A function name is declared twice.
    FunctionRedefined,
    /// The target of `call` is not a function.
    CallNonFunction,
    /// The target of `read` is not a variable.
    ReadNonVariable,
    /// The left-hand side of `=` is not a variable.
    AssignNonVariable,
    /// An identifier used as an operand is not a variable.
    FactorNonVariable,
    /// A call passes another number of arguments than the function declares.
    ArgumentCountMismatch,
}

impl CompileError {
    /// The positive number by which the error is reported.
    pub open spec fn number(self) -> int {
        match self {
            CompileError::MissingCloseBrace => 2,
            CompileError::MissingIdentifier => 3,
            CompileError::MissingSemicolon => 4,
            CompileError::MissingOpenParen => 5,
            CompileError::MissingCloseParen => 6,
            CompileError::MissingOperand => 7,
            CompileError::NumberTooLarge => 8,
            CompileError::ProgramTooLong => 9,
            CompileError::MissingBodyOpen => 11,
            CompileError::MissingBodyClose => 12,
            CompileError::LastMustBeMain => 13,
            CompileError::SymbolTableFull => 21,
            CompileError::VariableRedefined => 22,
            CompileError::Undeclared => 23,
            CompileError::TrailingTokens => 24,
            CompileError::MalformedParameters => 25,
            CompileError::MalformedArguments => 26,
            CompileError::FunctionRedefined => 32,
            CompileError::CallNonFunction => 34,
            CompileError::ReadNonVariable => 35,
            CompileError::AssignNonVariable => 36,
            CompileError::FactorNonVariable => 37,
            CompileError::ArgumentCountMismatch => 38,
        }
    }

    /// The positive number by which the error is reported.
    pub fn code(self) -> (n: i32)
        ensures
            n == self.number(),
            n > 0,
    {
        match self {
            CompileError::MissingCloseBrace => 2,
            CompileError::MissingIdentifier => 3,
            CompileError::MissingSemicolon => 4,
            CompileError::MissingOpenParen => 5,
            CompileError::MissingCloseParen => 6,
            CompileError::MissingOperand => 7,
            CompileError::NumberTooLarge => 8,
            CompileError::ProgramTooLong => 9,
            CompileError::MissingBodyOpen => 11,
            CompileError::MissingBodyClose => 12,
            CompileError::LastMustBeMain => 13,
            CompileError::SymbolTableFull => 21,
            CompileError::VariableRedefined => 22,
            CompileError::Undeclared => 23,
            CompileError::TrailingTokens => 24,
            CompileError::MalformedParameters => 25,
            CompileError::MalformedArguments => 26,
            CompileError::FunctionRedefined => 32,
            CompileError::CallNonFunction => 34,
            CompileError::ReadNonVariable => 35,
            CompileError::AssignNonVariable => 36,
            CompileError::FactorNonVariable => 37,
            CompileError::ArgumentCountMismatch => 38,
        }
    }
}

} // verus!
