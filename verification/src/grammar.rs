//! What the compiler produces, as functions of the token stream.
//!
//! Every function here takes a token stream `ts`, a position `p` in it and
//! the symbol table `s` in force there, and gives the code of the phrase that
//! starts at `p` together with the number of tokens that the phrase takes, or
//! the first error. The code of a statement depends on the address `at` of
//! its first instruction, because jumps hold absolute targets. Nothing here
//! patches anything: a jump is written with its target, which is the sum of
//! the lengths of what stands before it.

use crate::error::CompileError;
use crate::opcode::{Code, Opt};
use crate::symbol::{inserted, lookup, CategorySymbol, Symbols};
use crate::text::number_value;
use crate::token::{kind_at, lexeme_at, remaining, TokenKind, TokenView};
use vstd::prelude::*;

verus! {

/// The longest token stream that is compiled. It keeps every instruction
/// address within a 32-bit operand.
pub const MAX_TOKENS: usize = 0x3fff_ffff;

/// The code of a phrase of `1 + more` tokens.
///
/// `low` says that the phrase holds a call with an argument that is stored
/// below address 2. No variable is stored there: such an argument is the
/// name of a function.
pub struct Emit {
    pub code: Seq<Code>,
    pub more: nat,
    pub low: bool,
}

impl Emit {
    /// The number of tokens of the phrase.
    pub open spec fn len(self) -> nat {
        1 + self.more
    }
}

/// The code of a run of `used` tokens that may be empty.
pub struct Tail {
    pub code: Seq<Code>,
    pub used: nat,
}

/// One instruction with an operand.
pub open spec fn with_operand(opt: Opt, operand: int) -> Seq<Code> {
    seq![Code { opt, operand: operand as i32 }]
}

/// One instruction without an operand.
pub open spec fn plain(opt: Opt) -> Seq<Code> {
    seq![Code { opt, operand: 0 }]
}

/// `*` and `/`.
pub open spec fn is_mul_op(k: TokenKind) -> bool {
    k == TokenKind::Star || k == TokenKind::Slash
}

/// `+` and `-`.
pub open spec fn is_add_op(k: TokenKind) -> bool {
    k == TokenKind::Plus || k == TokenKind::Minus
}

/// The six comparison operators.
pub open spec fn is_relation(k: TokenKind) -> bool {
    k == TokenKind::Greater || k == TokenKind::GreaterEq || k == TokenKind::Less || k
        == TokenKind::LessEq || k == TokenKind::Equal || k == TokenKind::NotEqual
}

/// The opcode that computes a binary operator.
pub open spec fn operator(k: TokenKind) -> Opt {
    match k {
        TokenKind::Star => Opt::MULT,
        TokenKind::Slash => Opt::DIV,
        TokenKind::Plus => Opt::ADD,
        TokenKind::Minus => Opt::SUB,
        TokenKind::Greater => Opt::GT,
        TokenKind::GreaterEq => Opt::GE,
        TokenKind::Less => Opt::LES,
        TokenKind::LessEq => Opt::LE,
        TokenKind::Equal => Opt::EQ,
        _ => Opt::NOTEQ,
    }
}

/// `factor = "(" add_expr ")" | ID | NUM`: a variable is loaded from its
/// address, a number is loaded as it stands.
#[verifier::opaque]
pub open spec fn factor(ts: Seq<TokenView>, p: int, s: Symbols) -> Result<Emit, CompileError>
    decreases remaining(ts, p), 0nat,
{
    match kind_at(ts, p) {
        TokenKind::LParen => match additive_expr(ts, p + 1, s) {
            Err(e) => Err(e),
            Ok(a) => if kind_at(ts, p + 1 + a.len()) != TokenKind::RParen {
                Err(CompileError::MissingCloseParen)
            } else {
                Ok(Emit { code: a.code, more: a.more + 2, low: false })
            },
        },
        TokenKind::Id => match lookup(s.entries, lexeme_at(ts, p), s.current) {
            None => Err(CompileError::Undeclared),
            Some(i) => if s.entries[i].kind != CategorySymbol::Variable {
                Err(CompileError::FactorNonVariable)
            } else {
                Ok(
                    Emit {
                        code: with_operand(Opt::LOAD, s.entries[i].address as int),
                        more: 0,
                        low: false,
                    },
                )
            },
        },
        TokenKind::Num => match number_value(lexeme_at(ts, p)) {
            None => Err(CompileError::NumberTooLarge),
            Some(v) => Ok(Emit { code: with_operand(Opt::LOADI, v as int), more: 0, low: false }),
        },
        _ => Err(CompileError::MissingOperand),
    }
}

/// `{ ("*" | "/") factor }`: each factor, then its operator.
#[verifier::opaque]
pub open spec fn term_tail(ts: Seq<TokenView>, p: int, s: Symbols) -> Result<Tail, CompileError>
    decreases remaining(ts, p), 1nat,
{
    if is_mul_op(kind_at(ts, p)) {
        match factor(ts, p + 1, s) {
            Err(e) => Err(e),
            Ok(f) => match term_tail(ts, p + 1 + f.len(), s) {
                Err(e) => Err(e),
                Ok(t) => Ok(
                    Tail {
                        code: f.code + plain(operator(kind_at(ts, p))) + t.code,
                        used: (1 + f.len() + t.used) as nat,
                    },
                ),
            },
        }
    } else {
        Ok(Tail { code: Seq::empty(), used: 0 })
    }
}

/// `term = factor { ("*" | "/") factor }`.
#[verifier::opaque]
pub open spec fn term(ts: Seq<TokenView>, p: int, s: Symbols) -> Result<Emit, CompileError>
    decreases remaining(ts, p), 2nat,
{
    match factor(ts, p, s) {
        Err(e) => Err(e),
        Ok(f) => match term_tail(ts, p + f.len(), s) {
            Err(e) => Err(e),
            Ok(t) => Ok(Emit { code: f.code + t.code, more: f.more + t.used, low: false }),
        },
    }
}

/// `{ ("+" | "-") term }`: each term, then its operator.
#[verifier::opaque]
pub open spec fn additive_tail(ts: Seq<TokenView>, p: int, s: Symbols) -> Result<
    Tail,
    CompileError,
>
    decreases remaining(ts, p), 3nat,
{
    if is_add_op(kind_at(ts, p)) {
        match term(ts, p + 1, s) {
            Err(e) => Err(e),
            Ok(f) => match additive_tail(ts, p + 1 + f.len(), s) {
                Err(e) => Err(e),
                Ok(t) => Ok(
                    Tail {
                        code: f.code + plain(operator(kind_at(ts, p))) + t.code,
                        used: (1 + f.len() + t.used) as nat,
                    },
                ),
            },
        }
    } else {
        Ok(Tail { code: Seq::empty(), used: 0 })
    }
}

/// `add_expr = term { ("+" | "-") term }`.
#[verifier::opaque]
pub open spec fn additive_expr(ts: Seq<TokenView>, p: int, s: Symbols) -> Result<
    Emit,
    CompileError,
>
    decreases remaining(ts, p), 4nat,
{
    match term(ts, p, s) {
        Err(e) => Err(e),
        Ok(f) => match additive_tail(ts, p + f.len(), s) {
            Err(e) => Err(e),
            Ok(t) => Ok(Emit { code: f.code + t.code, more: f.more + t.used, low: false }),
        },
    }
}

/// `bool_expr = add_expr [ relop add_expr ]`: both sides, then the
/// comparison.
#[verifier::opaque]
pub open spec fn bool_expr(ts: Seq<TokenView>, p: int, s: Symbols) -> Result<Emit, CompileError> {
    match additive_expr(ts, p, s) {
        Err(e) => Err(e),
        Ok(a) => if is_relation(kind_at(ts, p + a.len())) {
            match additive_expr(ts, p + a.len() + 1, s) {
                Err(e) => Err(e),
                Ok(b) => Ok(
                    Emit {
                        code: a.code + b.code + plain(operator(kind_at(ts, p + a.len()))),
                        more: (a.more + 1 + b.len()) as nat,
                        low: false,
                    },
                ),
            }
        } else {
            Ok(a)
        },
    }
}

/// `expr = ID "=" bool_expr | bool_expr`. An identifier followed by `=`
/// starts an assignment: the value, then a store to the variable.
#[verifier::opaque]
pub open spec fn expression(ts: Seq<TokenView>, p: int, s: Symbols) -> Result<Emit, CompileError> {
    if kind_at(ts, p) == TokenKind::Id && kind_at(ts, p + 1) == TokenKind::Assign {
        match lookup(s.entries, lexeme_at(ts, p), s.current) {
            None => Err(CompileError::Undeclared),
            Some(i) => if s.entries[i].kind != CategorySymbol::Variable {
                Err(CompileError::AssignNonVariable)
            } else {
                match bool_expr(ts, p + 2, s) {
                    Err(e) => Err(e),
                    Ok(b) => Ok(
                        Emit {
                            code: b.code + with_operand(Opt::STO, s.entries[i].address as int),
                            more: (1 + b.len()) as nat,
                            low: false,
                        },
                    ),
                }
            },
        }
    } else {
        bool_expr(ts, p, s)
    }
}

/// The phrase at position `p` is an assignment to a name that is no
/// variable of the current function.
pub open spec fn bad_target(ts: Seq<TokenView>, p: int, s: Symbols) -> bool {
    &&& kind_at(ts, p) == TokenKind::Id
    &&& kind_at(ts, p + 1) == TokenKind::Assign
    &&& match lookup(s.entries, lexeme_at(ts, p), s.current) {
        None => true,
        Some(i) => s.entries[i].kind != CategorySymbol::Variable,
    }
}

/// The arguments of a call.
pub struct Arguments {
    /// One `LOAD` for each argument.
    pub code: Seq<Code>,
    pub count: nat,
    pub used: nat,
    /// Whether an argument is stored below address 2.
    pub low: bool,
}

/// `[ ID { "," ID } ]`: each argument is looked up among the symbols of the
/// current function and loaded from its address.
#[verifier::opaque]
pub open spec fn arguments(ts: Seq<TokenView>, p: int, s: Symbols) -> Result<
    Arguments,
    CompileError,
>
    decreases remaining(ts, p),
{
    if kind_at(ts, p) != TokenKind::Id {
        Ok(Arguments { code: Seq::empty(), count: 0, used: 0, low: false })
    } else {
        match lookup(s.entries, lexeme_at(ts, p), s.current) {
            None => Err(CompileError::Undeclared),
            Some(i) => {
                let load = with_operand(Opt::LOAD, s.entries[i].address as int);
                let low = s.entries[i].address < 2;
                if kind_at(ts, p + 1) != TokenKind::Comma {
                    Ok(Arguments { code: load, count: 1, used: 1, low })
                } else if kind_at(ts, p + 2) != TokenKind::Id {
                    Err(CompileError::MalformedArguments)
                } else {
                    match arguments(ts, p + 2, s) {
                        Err(e) => Err(e),
                        Ok(rest) => Ok(
                            Arguments {
                                code: load + rest.code,
                                count: rest.count + 1,
                                used: rest.used + 2,
                                low: low || rest.low,
                            },
                        ),
                    }
                }
            },
        }
    }
}

/// `n` times `PAS`.
pub open spec fn passes(n: nat) -> Seq<Code> {
    Seq::new(n, |i: int| Code { opt: Opt::PAS, operand: 0 })
}

/// `call_stat = "call" ID "(" [ var_list ] ")" ";"`: the arguments are
/// loaded from left to right, then one `PAS` for each moves them past the
/// linkage cells of the new frame, then the call. The function is looked up
/// under its own name as owner.
#[verifier::opaque]
pub open spec fn call_stat(ts: Seq<TokenView>, p: int, s: Symbols) -> Result<Emit, CompileError> {
    if kind_at(ts, p + 1) != TokenKind::Id {
        Err(CompileError::MissingIdentifier)
    } else {
        match lookup(s.entries, lexeme_at(ts, p + 1), lexeme_at(ts, p + 1)) {
            None => Err(CompileError::Undeclared),
            Some(i) => if s.entries[i].kind != CategorySymbol::Function {
                Err(CompileError::CallNonFunction)
            } else if kind_at(ts, p + 2) != TokenKind::LParen {
                Err(CompileError::MissingOpenParen)
            } else {
                match arguments(ts, p + 3, s) {
                    Err(e) => Err(e),
                    Ok(a) => if a.count != s.entries[i].arity {
                        Err(CompileError::ArgumentCountMismatch)
                    } else if kind_at(ts, p + 3 + a.used) != TokenKind::RParen {
                        Err(CompileError::MissingCloseParen)
                    } else if kind_at(ts, p + 4 + a.used) != TokenKind::Semicolon {
                        Err(CompileError::MissingSemicolon)
                    } else {
                        Ok(
                            Emit {
                                code: a.code + passes(a.count) + with_operand(
                                    Opt::CAL,
                                    s.entries[i].address as int,
                                ),
                                more: a.used + 4,
                                low: a.low,
                            },
                        )
                    },
                }
            },
        }
    }
}

/// `read_stat = "read" ID ";"`: an input, then a store to the variable.
#[verifier::opaque]
pub open spec fn read_stat(ts: Seq<TokenView>, p: int, s: Symbols) -> Result<Emit, CompileError> {
    if kind_at(ts, p + 1) != TokenKind::Id {
        Err(CompileError::MissingIdentifier)
    } else {
        match lookup(s.entries, lexeme_at(ts, p + 1), s.current) {
            None => Err(CompileError::Undeclared),
            Some(i) => if s.entries[i].kind != CategorySymbol::Variable {
                Err(CompileError::ReadNonVariable)
            } else if kind_at(ts, p + 2) != TokenKind::Semicolon {
                Err(CompileError::MissingSemicolon)
            } else {
                Ok(
                    Emit {
                        code: plain(Opt::IN) + with_operand(Opt::STO, s.entries[i].address as int),
                        more: 2,
                        low: false,
                    },
                )
            },
        }
    }
}

/// `write_stat = "write" expr ";"`: the value, then an output.
#[verifier::opaque]
pub open spec fn write_stat(ts: Seq<TokenView>, p: int, s: Symbols) -> Result<Emit, CompileError> {
    match expression(ts, p + 1, s) {
        Err(e) => Err(e),
        Ok(v) => if kind_at(ts, p + 1 + v.len()) != TokenKind::Semicolon {
            Err(CompileError::MissingSemicolon)
        } else {
            Ok(Emit { code: v.code + plain(Opt::OUT), more: (v.len() + 1) as nat, low: false })
        },
    }
}

/// `expr_stat = [ expr ] ";"`.
#[verifier::opaque]
pub open spec fn expression_stat(ts: Seq<TokenView>, p: int, s: Symbols) -> Result<
    Emit,
    CompileError,
> {
    if kind_at(ts, p) == TokenKind::Semicolon {
        Ok(Emit { code: Seq::empty(), more: 0, low: false })
    } else {
        match expression(ts, p, s) {
            Err(e) => Err(e),
            Ok(v) => if kind_at(ts, p + v.len()) != TokenKind::Semicolon {
                Err(CompileError::MissingSemicolon)
            } else {
                Ok(Emit { code: v.code, more: v.len() as nat, low: false })
            },
        }
    }
}

/// The tokens with which a statement can start.
pub open spec fn starts_statement(k: TokenKind) -> bool {
    k == TokenKind::If || k == TokenKind::While || k == TokenKind::For || k == TokenKind::Read
        || k == TokenKind::Write || k == TokenKind::LBrace || k == TokenKind::Call || k
        == TokenKind::Id || k == TokenKind::Num || k == TokenKind::LParen || k
        == TokenKind::Semicolon
}

/// `if_stat = "if" "(" expr ")" statement [ "else" statement ]`:
///
/// ```text
///       condition
///       BRF other
///       first statement
///       BR  end
/// other:
///       second statement, if there is one
/// end:
/// ```
#[verifier::opaque]
pub open spec fn if_stat(ts: Seq<TokenView>, p: int, s: Symbols, at: int) -> Result<
    Emit,
    CompileError,
>
    decreases remaining(ts, p), 0nat,
{
    if kind_at(ts, p + 1) != TokenKind::LParen {
        Err(CompileError::MissingOpenParen)
    } else {
        match expression(ts, p + 2, s) {
            Err(e) => Err(e),
            Ok(c) => if kind_at(ts, p + 2 + c.len()) != TokenKind::RParen {
                Err(CompileError::MissingCloseParen)
            } else {
                match statement(ts, p + 3 + c.len(), s, at + c.code.len() + 1) {
                    Err(e) => Err(e),
                    Ok(a) => {
                        let other = at + c.code.len() + 1 + a.code.len() + 1;
                        let q = p + 3 + c.len() + a.len();
                        if kind_at(ts, q) != TokenKind::Else {
                            Ok(
                                Emit {
                                    code: c.code + with_operand(Opt::BRF, other) + a.code
                                        + with_operand(Opt::BR, other),
                                    more: (2 + c.len() + a.len()) as nat,
                                    low: a.low,
                                },
                            )
                        } else {
                            match statement(ts, q + 1, s, other) {
                                Err(e) => Err(e),
                                Ok(b) => Ok(
                                    Emit {
                                        code: c.code + with_operand(Opt::BRF, other) + a.code
                                            + with_operand(Opt::BR, other + b.code.len())
                                            + b.code,
                                        more: (3 + c.len() + a.len() + b.len()) as nat,
                                        low: a.low || b.low,
                                    },
                                ),
                            }
                        }
                    },
                }
            },
        }
    }
}

/// `while_stat = "while" "(" expr ")" statement`:
///
/// ```text
/// head: condition
///       BRF end
///       statement
///       BR  head
/// end:
/// ```
#[verifier::opaque]
pub open spec fn while_stat(ts: Seq<TokenView>, p: int, s: Symbols, at: int) -> Result<
    Emit,
    CompileError,
>
    decreases remaining(ts, p), 0nat,
{
    if kind_at(ts, p + 1) != TokenKind::LParen {
        Err(CompileError::MissingOpenParen)
    } else {
        match expression(ts, p + 2, s) {
            Err(e) => Err(e),
            Ok(c) => if kind_at(ts, p + 2 + c.len()) != TokenKind::RParen {
                Err(CompileError::MissingCloseParen)
            } else {
                match statement(ts, p + 3 + c.len(), s, at + c.code.len() + 1) {
                    Err(e) => Err(e),
                    Ok(a) => Ok(
                        Emit {
                            code: c.code + with_operand(
                                Opt::BRF,
                                at + c.code.len() + 1 + a.code.len() + 1,
                            ) + a.code + with_operand(Opt::BR, at),
                            more: (2 + c.len() + a.len()) as nat,
                            low: a.low,
                        },
                    ),
                }
            },
        }
    }
}

/// `for_stat = "for" "(" expr ";" expr ";" expr ")" statement`:
///
/// ```text
///       first expression
/// test: second expression
///       BRF end
///       BR  body
/// step: third expression
///       BR  test
/// body: statement
///       BR  step
/// end:
/// ```
#[verifier::opaque]
pub open spec fn for_stat(ts: Seq<TokenView>, p: int, s: Symbols, at: int) -> Result<
    Emit,
    CompileError,
>
    decreases remaining(ts, p), 0nat,
{
    if kind_at(ts, p + 1) != TokenKind::LParen {
        Err(CompileError::MissingOpenParen)
    } else {
        match expression(ts, p + 2, s) {
            Err(e) => Err(e),
            Ok(a) => if kind_at(ts, p + 2 + a.len()) != TokenKind::Semicolon {
                Err(CompileError::MissingSemicolon)
            } else {
                match expression(ts, p + 3 + a.len(), s) {
                    Err(e) => Err(e),
                    Ok(b) => if kind_at(ts, p + 3 + a.len() + b.len()) != TokenKind::Semicolon {
                        Err(CompileError::MissingSemicolon)
                    } else {
                        match expression(ts, p + 4 + a.len() + b.len(), s) {
                            Err(e) => Err(e),
                            Ok(c) => {
                                let q = p + 4 + a.len() + b.len() + c.len();
                                let test = at + a.code.len();
                                let step = test + b.code.len() + 2;
                                let body = step + c.code.len() + 1;
                                if kind_at(ts, q) != TokenKind::RParen {
                                    Err(CompileError::MissingCloseParen)
                                } else {
                                    match statement(ts, q + 1, s, body) {
                                        Err(e) => Err(e),
                                        Ok(d) => Ok(
                                            Emit {
                                                code: a.code + b.code + with_operand(
                                                    Opt::BRF,
                                                    body + d.code.len() + 1,
                                                ) + with_operand(Opt::BR, body) + c.code
                                                    + with_operand(Opt::BR, test) + d.code
                                                    + with_operand(Opt::BR, step),
                                                more: (4 + a.len() + b.len() + c.len()
                                                    + d.len()) as nat,
                                                low: d.low,
                                            },
                                        ),
                                    }
                                }
                            },
                        }
                    },
                }
            },
        }
    }
}

/// `{ statement } "}"`: the statements one after the other, up to and with
/// the closing brace. Where neither a statement nor the brace follows, the
/// result is the error `missing`.
#[verifier::opaque]
pub open spec fn block(
    ts: Seq<TokenView>,
    p: int,
    s: Symbols,
    at: int,
    missing: CompileError,
) -> Result<Emit, CompileError>
    decreases remaining(ts, p), 2nat,
{
    if kind_at(ts, p) == TokenKind::RBrace {
        Ok(Emit { code: Seq::empty(), more: 0, low: false })
    } else if !starts_statement(kind_at(ts, p)) {
        Err(missing)
    } else {
        match statement(ts, p, s, at) {
            Err(e) => Err(e),
            Ok(a) => match block(ts, p + a.len(), s, at + a.code.len(), missing) {
                Err(e) => Err(e),
                Ok(b) => Ok(
                    Emit {
                        code: a.code + b.code,
                        more: (a.len() + b.more) as nat,
                        low: a.low || b.low,
                    },
                ),
            },
        }
    }
}

/// `statement = if_stat | while_stat | for_stat | read_stat | write_stat |
/// compound_stat | call_stat | expr_stat`, told apart by the first token.
#[verifier::opaque]
pub open spec fn statement(ts: Seq<TokenView>, p: int, s: Symbols, at: int) -> Result<
    Emit,
    CompileError,
>
    decreases remaining(ts, p), 1nat,
{
    match kind_at(ts, p) {
        TokenKind::If => if_stat(ts, p, s, at),
        TokenKind::While => while_stat(ts, p, s, at),
        TokenKind::For => for_stat(ts, p, s, at),
        TokenKind::Read => read_stat(ts, p, s),
        TokenKind::Write => write_stat(ts, p, s),
        TokenKind::LBrace => match block(ts, p + 1, s, at, CompileError::MissingCloseBrace) {
            Err(e) => Err(e),
            Ok(b) => Ok(Emit { code: b.code, more: b.len() as nat, low: b.low }),
        },
        TokenKind::Call => call_stat(ts, p, s),
        _ => expression_stat(ts, p, s),
    }
}

/// A run of declarations: the table after them, their number, and the
/// number of tokens that they take.
pub struct Declared {
    pub symbols: Symbols,
    pub count: nat,
    pub used: nat,
}

/// `param_stat { "," param_stat }`, where `param_stat = "int" ID`, or
/// nothing.
pub open spec fn parameters(ts: Seq<TokenView>, p: int, s: Symbols) -> Result<
    Declared,
    CompileError,
>
    decreases remaining(ts, p),
{
    if kind_at(ts, p) != TokenKind::Int {
        Ok(Declared { symbols: s, count: 0, used: 0 })
    } else if kind_at(ts, p + 1) != TokenKind::Id {
        Err(CompileError::MissingIdentifier)
    } else {
        match inserted(s, CategorySymbol::Variable, lexeme_at(ts, p + 1)) {
            Err(e) => Err(e),
            Ok(t) => if kind_at(ts, p + 2) != TokenKind::Comma {
                Ok(Declared { symbols: t, count: 1, used: 2 })
            } else if kind_at(ts, p + 3) != TokenKind::Int {
                Err(CompileError::MalformedParameters)
            } else {
                match parameters(ts, p + 3, t) {
                    Err(e) => Err(e),
                    Ok(rest) => Ok(
                        Declared {
                            symbols: rest.symbols,
                            count: rest.count + 1,
                            used: rest.used + 3,
                        },
                    ),
                }
            },
        }
    }
}

/// `{ decl_stat }`, where `decl_stat = "int" ID ";"`.
pub open spec fn declarations(ts: Seq<TokenView>, p: int, s: Symbols) -> Result<
    Declared,
    CompileError,
>
    decreases remaining(ts, p),
{
    if kind_at(ts, p) != TokenKind::Int {
        Ok(Declared { symbols: s, count: 0, used: 0 })
    } else if kind_at(ts, p + 1) != TokenKind::Id {
        Err(CompileError::MissingIdentifier)
    } else {
        match inserted(s, CategorySymbol::Variable, lexeme_at(ts, p + 1)) {
            Err(e) => Err(e),
            Ok(t) => if kind_at(ts, p + 2) != TokenKind::Semicolon {
                Err(CompileError::MissingSemicolon)
            } else {
                match declarations(ts, p + 3, t) {
                    Err(e) => Err(e),
                    Ok(rest) => Ok(
                        Declared {
                            symbols: rest.symbols,
                            count: rest.count + 1,
                            used: rest.used + 3,
                        },
                    ),
                }
            },
        }
    }
}

/// The body of a function.
pub struct Body {
    pub code: Seq<Code>,
    /// The body takes `1 + more` tokens.
    pub more: nat,
    pub low: bool,
    /// The symbol table after the body.
    pub symbols: Symbols,
    /// The number of the variables that the body declares.
    pub locals: nat,
}

impl Body {
    /// The number of tokens of the body.
    pub open spec fn len(self) -> nat {
        1 + self.more
    }
}

/// `fun_body = "{" { decl_stat } { statement } "}"`, with its first
/// instruction at address `at`: an `ENTER` that reserves the cells counted
/// by the frame offset after the declarations, the statements, and a
/// `RETURN`.
#[verifier::opaque]
pub open spec fn function_body(ts: Seq<TokenView>, p: int, s: Symbols, at: int) -> Result<
    Body,
    CompileError,
> {
    if kind_at(ts, p) != TokenKind::LBrace {
        Err(CompileError::MissingBodyOpen)
    } else {
        match declarations(ts, p + 1, s) {
            Err(e) => Err(e),
            Ok(ds) => match block(
                ts,
                p + 1 + ds.used,
                ds.symbols,
                at + 1,
                CompileError::MissingBodyClose,
            ) {
                Err(e) => Err(e),
                Ok(b) => Ok(
                    Body {
                        code: with_operand(Opt::ENTER, ds.symbols.offset as int) + b.code + plain(
                            Opt::RETURN,
                        ),
                        more: (ds.used + b.len()) as nat,
                        low: b.low,
                        symbols: ds.symbols,
                        locals: ds.count,
                    },
                ),
            },
        }
    }
}

/// One compiled function.
pub struct Unit {
    pub code: Seq<Code>,
    /// The function takes `1 + more` tokens from its `(` on.
    pub more: nat,
    pub low: bool,
    /// The symbol table after the function.
    pub symbols: Symbols,
    /// The number of its parameters.
    pub arity: nat,
    /// The number of the variables that its body declares.
    pub locals: nat,
}

impl Unit {
    /// The number of tokens of the function from its `(` on.
    pub open spec fn len(self) -> nat {
        1 + self.more
    }
}

/// The function called `name` from its `(` at position `p` on:
/// `"(" param_list ")" fun_body`.
///
/// The function enters the table with `at`, the address of its first
/// instruction, as its address, and with the number of its parameters as its
/// arity. Its parameters and the variables of its body take the frame
/// offsets from 2 on.
#[verifier::opaque]
pub open spec fn function_unit(
    ts: Seq<TokenView>,
    p: int,
    s: Symbols,
    at: int,
    name: Seq<u8>,
) -> Result<Unit, CompileError> {
    match inserted(s, CategorySymbol::Function, name) {
        Err(e) => Err(e),
        Ok(t) => if kind_at(ts, p) != TokenKind::LParen {
            Err(CompileError::MissingOpenParen)
        } else {
            let own = s.entries.len() as int;
            match parameters(ts, p + 1, t.with_address(own, at as i32).rewound()) {
                Err(e) => Err(e),
                Ok(ps) => if kind_at(ts, p + 1 + ps.used) != TokenKind::RParen {
                    Err(CompileError::MissingCloseParen)
                } else {
                    match function_body(
                        ts,
                        p + 2 + ps.used,
                        ps.symbols.with_arity(own, ps.count as i32),
                        at,
                    ) {
                        Err(e) => Err(e),
                        Ok(b) => Ok(
                            Unit {
                                code: b.code,
                                more: (1 + ps.used + b.len()) as nat,
                                low: b.low,
                                symbols: b.symbols,
                                arity: ps.count,
                                locals: b.locals,
                            },
                        ),
                    }
                },
            }
        },
    }
}

/// Where a function starts and how many cells its frame holds beyond the
/// linkage.
pub struct Frame {
    pub name: Seq<u8>,
    pub entry: int,
    pub arity: nat,
    pub locals: nat,
}

/// The functions of a program.
pub struct Linked {
    pub code: Seq<Code>,
    pub symbols: Symbols,
    pub frames: Seq<Frame>,
    pub low: bool,
}

/// The name of the function with which every program ends and starts to
/// run: `main`.
pub open spec fn main_name() -> Seq<u8> {
    seq!['m' as u8, 'a' as u8, 'i' as u8, 'n' as u8]
}

/// `{ "function" ID function } "main" function`, where `function` is what
/// [`function_unit`] describes: the functions in the order of the program,
/// the first of them at address `at`. The last must be called `main`, and
/// nothing may follow it. Where the functions end without one that is
/// written as `main`, the last function is not `main`; where there is no
/// function at all, an identifier is missing.
#[verifier::opaque]
pub open spec fn functions(ts: Seq<TokenView>, p: int, s: Symbols, at: int) -> Result<
    Linked,
    CompileError,
>
    decreases remaining(ts, p),
{
    if kind_at(ts, p) == TokenKind::Function {
        if kind_at(ts, p + 1) != TokenKind::Id {
            Err(CompileError::MissingIdentifier)
        } else {
            match function_unit(ts, p + 2, s, at, lexeme_at(ts, p + 1)) {
                Err(e) => Err(e),
                Ok(f) => match functions(ts, p + 2 + f.len(), f.symbols, at + f.code.len()) {
                    Err(e) => Err(e),
                    Ok(rest) => Ok(
                        Linked {
                            code: f.code + rest.code,
                            symbols: rest.symbols,
                            frames: seq![
                                Frame {
                                    name: lexeme_at(ts, p + 1),
                                    entry: at,
                                    arity: f.arity,
                                    locals: f.locals,
                                },
                            ] + rest.frames,
                            low: f.low || rest.low,
                        },
                    ),
                },
            }
        }
    } else if kind_at(ts, p) != TokenKind::Id {
        if s.entries.len() > 0 {
            Err(CompileError::LastMustBeMain)
        } else {
            Err(CompileError::MissingIdentifier)
        }
    } else if lexeme_at(ts, p) != main_name() {
        Err(CompileError::LastMustBeMain)
    } else {
        match function_unit(ts, p + 1, s, at, main_name()) {
            Err(e) => Err(e),
            Ok(f) => if p + 1 + f.len() != ts.len() {
                Err(CompileError::TrailingTokens)
            } else {
                Ok(
                    Linked {
                        code: f.code,
                        symbols: f.symbols,
                        frames: seq![
                            Frame {
                                name: main_name(),
                                entry: at,
                                arity: f.arity,
                                locals: f.locals,
                            },
                        ],
                        low: f.low,
                    },
                )
            },
        }
    }
}

/// The table `s` after the declaration `"int" ID` at position `p`, whether
/// it is accepted or not: with the variable where it is one and is new, and
/// as it was otherwise.
pub open spec fn declared_one(ts: Seq<TokenView>, p: int, s: Symbols) -> Symbols {
    if kind_at(ts, p + 1) != TokenKind::Id {
        s
    } else {
        match inserted(s, CategorySymbol::Variable, lexeme_at(ts, p + 1)) {
            Ok(t) => t,
            Err(_) => s,
        }
    }
}

/// The table after the parameters at position `p`, up to the end of the
/// list or to the first of them that is not accepted. Where the list is
/// accepted this is the table that [`parameters`] gives.
pub open spec fn parameters_reach(ts: Seq<TokenView>, p: int, s: Symbols) -> Symbols
    decreases remaining(ts, p),
{
    if kind_at(ts, p) != TokenKind::Int {
        s
    } else if kind_at(ts, p + 1) == TokenKind::Id && inserted(
        s,
        CategorySymbol::Variable,
        lexeme_at(ts, p + 1),
    ) is Ok && kind_at(ts, p + 2) == TokenKind::Comma && kind_at(ts, p + 3) == TokenKind::Int {
        parameters_reach(ts, p + 3, declared_one(ts, p, s))
    } else {
        declared_one(ts, p, s)
    }
}

/// The table after the declarations at position `p`, up to their end or to
/// the first of them that is not accepted.
pub open spec fn declarations_reach(ts: Seq<TokenView>, p: int, s: Symbols) -> Symbols
    decreases remaining(ts, p),
{
    if kind_at(ts, p) != TokenKind::Int {
        s
    } else if kind_at(ts, p + 1) == TokenKind::Id && inserted(
        s,
        CategorySymbol::Variable,
        lexeme_at(ts, p + 1),
    ) is Ok && kind_at(ts, p + 2) == TokenKind::Semicolon {
        declarations_reach(ts, p + 3, declared_one(ts, p, s))
    } else {
        declared_one(ts, p, s)
    }
}

/// The table after the body at position `p`, accepted or not: statements
/// declare nothing, so it is the table after the declarations of the body.
pub open spec fn body_reach(ts: Seq<TokenView>, p: int, s: Symbols) -> Symbols {
    if kind_at(ts, p) != TokenKind::LBrace {
        s
    } else {
        declarations_reach(ts, p + 1, s)
    }
}

/// The table after the function called `name` from its `(` at position `p`
/// on, accepted or not: what has been declared up to the point of failure
/// stays declared.
pub open spec fn unit_reach(
    ts: Seq<TokenView>,
    p: int,
    s: Symbols,
    at: int,
    name: Seq<u8>,
) -> Symbols {
    match inserted(s, CategorySymbol::Function, name) {
        Err(_) => s,
        Ok(t) => if kind_at(ts, p) != TokenKind::LParen {
            t
        } else {
            let own = s.entries.len() as int;
            let start = t.with_address(own, at as i32).rewound();
            match parameters(ts, p + 1, start) {
                Err(_) => parameters_reach(ts, p + 1, start),
                Ok(ps) => {
                    let named = ps.symbols.with_arity(own, ps.count as i32);
                    if kind_at(ts, p + 1 + ps.used) != TokenKind::RParen {
                        named
                    } else {
                        body_reach(ts, p + 2 + ps.used, named)
                    }
                },
            }
        },
    }
}

/// The table after the functions at position `p`, up to the end of the
/// program or to the first failure.
pub open spec fn functions_reach(ts: Seq<TokenView>, p: int, s: Symbols, at: int) -> Symbols
    decreases remaining(ts, p),
{
    if kind_at(ts, p) == TokenKind::Function {
        if kind_at(ts, p + 1) != TokenKind::Id {
            s
        } else {
            match function_unit(ts, p + 2, s, at, lexeme_at(ts, p + 1)) {
                Err(_) => unit_reach(ts, p + 2, s, at, lexeme_at(ts, p + 1)),
                Ok(f) => functions_reach(ts, p + 2 + f.len(), f.symbols, at + f.code.len()),
            }
        }
    } else if kind_at(ts, p) != TokenKind::Id || lexeme_at(ts, p) != main_name() {
        s
    } else {
        unit_reach(ts, p + 1, s, at, main_name())
    }
}

/// The symbol table that the compilation of `ts` leaves behind, whether it
/// ends well or with an error. After an error it holds what had been
/// declared when the error was met.
pub open spec fn program_reach(ts: Seq<TokenView>) -> Symbols {
    if ts.len() > MAX_TOKENS {
        no_symbols()
    } else {
        functions_reach(ts, 0, no_symbols(), 1)
    }
}

/// A compiled program.
pub struct Program {
    pub code: Seq<Code>,
    pub symbols: Symbols,
    /// The functions in the order of the program; `main` is the last.
    pub frames: Seq<Frame>,
    /// Whether a call passes a symbol stored below address 2.
    pub low: bool,
}

/// The table before the first declaration.
pub open spec fn no_symbols() -> Symbols {
    Symbols { entries: Seq::empty(), current: Seq::empty(), offset: 2 }
}

/// `program = { fun_decl } main_decl`: a branch to the entry of `main`,
/// then the functions.
pub open spec fn program(ts: Seq<TokenView>) -> Result<Program, CompileError> {
    if ts.len() > MAX_TOKENS {
        Err(CompileError::ProgramTooLong)
    } else {
        match functions(ts, 0, no_symbols(), 1) {
            Err(e) => Err(e),
            Ok(l) => Ok(
                Program {
                    code: with_operand(Opt::BR, l.frames.last().entry) + l.code,
                    symbols: l.symbols,
                    frames: l.frames,
                    low: l.low,
                },
            ),
        }
    }
}

} // verus!
