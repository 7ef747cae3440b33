//! The compiler: one pass over the token stream that recognises the grammar,
//! keeps the symbol table and appends the code.
//!
//! A forward jump is appended with a placeholder operand and patched as soon
//! as its target is known. The contracts say that what stands in the code
//! vector in the end is what `grammar` describes.

use crate::error::CompileError;
use crate::grammar;
use crate::grammar::{main_name, Emit, Frame, MAX_TOKENS};
use crate::opcode::{Code, Opt};
use crate::symbol::{
    are_kinds_equal, in_function, inserted, lemma_scoped_arity, lemma_scoped_empty,
    lemma_scoped_function, lemma_scoped_variable, scoped, CategorySymbol, SymbolTable, SymbolView,
    Symbols,
};
use crate::text::{bytes_eq, parse_number};
use crate::token::{kind_at, lexeme_at, remaining, views, Token, TokenKind, TokenView};
use vstd::prelude::*;

verus! {

/// The three opcodes whose operand is an instruction address.
pub open spec fn is_jump(opt: Opt) -> bool {
    opt == Opt::BR || opt == Opt::BRF || opt == Opt::CAL
}

/// An instruction that may stand in the body of a function: a jump stays
/// within `0..=hi`, no `ENTER` occurs, and a load or store addresses a cell
/// beyond the linkage, unless `low` excuses it.
pub open spec fn instruction_sound(c: Code, hi: int, low: bool) -> bool {
    &&& is_jump(c.opt) ==> 0 <= c.operand <= hi
    &&& c.opt != Opt::ENTER
    &&& (c.opt == Opt::LOAD || c.opt == Opt::STO) && !low ==> c.operand >= 2
}

/// Every instruction of `code` is sound.
#[verifier::opaque]
pub open spec fn sound(code: Seq<Code>, hi: int, low: bool) -> bool {
    forall|i: int| 0 <= i < code.len() ==> instruction_sound(#[trigger] code[i], hi, low)
}

/// No code is sound code.
pub proof fn lemma_sound_none(hi: int, low: bool)
    ensures
        sound(Seq::<Code>::empty(), hi, low),
{
    reveal(sound);
}

/// One sound instruction is sound code.
pub proof fn lemma_sound_one(c: Code, hi: int, low: bool)
    requires
        instruction_sound(c, hi, low),
    ensures
        sound(seq![c], hi, low),
{
    reveal(sound);
}

/// Sound code stays sound under a wider bound and a weaker promise.
pub proof fn lemma_sound_weaken(code: Seq<Code>, hi: int, low: bool, wider: int, weaker: bool)
    requires
        sound(code, hi, low),
        hi <= wider,
        low ==> weaker,
    ensures
        sound(code, wider, weaker),
{
    reveal(sound);
}

/// Two pieces of sound code make sound code.
pub proof fn lemma_sound_join(a: Seq<Code>, b: Seq<Code>, hi: int, low: bool)
    requires
        sound(a, hi, low),
        sound(b, hi, low),
    ensures
        sound(a + b, hi, low),
{
    reveal(sound);
}

/// `code` starts with `front`.
pub open spec fn starts_with(code: Seq<Code>, front: Seq<Code>) -> bool {
    front.len() <= code.len() && forall|i: int|
        0 <= i < front.len() ==> #[trigger] code[i] == front[i]
}

/// From index `from` on `code` holds nothing but `LOAD`s.
pub open spec fn loads_only(code: Seq<Code>, from: int) -> bool {
    forall|i: int| from <= i < code.len() ==> (#[trigger] code[i]).opt == Opt::LOAD
}

/// The state of a compilation.
#[derive(Debug)]
pub struct Compiler {
    /// The code appended so far.
    pub codes: Vec<Code>,
    /// The symbols declared so far.
    pub table: SymbolTable,
    /// The position of the token under inspection.
    pub pos: usize,
}

/// The category of the token at position `p`.
pub fn peek(ts: &Vec<Token>, p: usize) -> (k: TokenKind)
    ensures
        k == kind_at(views(ts@), p as int),
{
    if p < ts.len() {
        ts[p].kind
    } else {
        TokenKind::End
    }
}

/// The opcode that computes a binary operator.
fn operator_of(k: TokenKind) -> (opt: Opt)
    ensures
        opt == grammar::operator(k),
{
    match k {
        TokenKind::Star => Opt::MULT,
        TokenKind::Slash => Opt::DIV,
        TokenKind::Plus => Opt::ADD,
        TokenKind::Minus => Opt::SUB,
        TokenKind::Greater => Opt::GT,
        TokenKind::GreaterEq => Opt::GE,
        TokenKind::Less => Opt::LES,
        TokenKind::LessEq => Opt::LE,
        TokenKind::Equal => Opt::EQ,
        _ => Opt::NOTEQ,
    }
}

fn is_mul(k: TokenKind) -> (b: bool)
    ensures
        b == grammar::is_mul_op(k),
{
    match k {
        TokenKind::Star | TokenKind::Slash => true,
        _ => false,
    }
}

fn is_add(k: TokenKind) -> (b: bool)
    ensures
        b == grammar::is_add_op(k),
{
    match k {
        TokenKind::Plus | TokenKind::Minus => true,
        _ => false,
    }
}

fn is_relop(k: TokenKind) -> (b: bool)
    ensures
        b == grammar::is_relation(k),
{
    match k {
        TokenKind::Greater | TokenKind::GreaterEq | TokenKind::Less | TokenKind::LessEq
        | TokenKind::Equal | TokenKind::NotEqual => true,
        _ => false,
    }
}

fn is_kind(k: TokenKind, expected: TokenKind) -> (b: bool)
    ensures
        b == (k == expected),
{
    k == expected
}

impl Compiler {
    /// What holds of a compiler between two phrases: the position is inside
    /// the stream or at its end, the code is no longer than the tokens read
    /// allow, the symbol table is well formed, and no function starts beyond
    /// the code.
    pub open spec fn inv(&self, ts: Seq<TokenView>) -> bool {
        &&& self.pos <= ts.len() <= MAX_TOKENS
        &&& self.codes.len() + (ts.len() - self.pos) <= MAX_TOKENS + 1
        &&& self.table@.wf()
        &&& forall|i: int|
            0 <= i < self.table@.entries.len() && (#[trigger] self.table@.entries[i]).kind
                == CategorySymbol::Function ==> 0 <= self.table@.entries[i].address
                <= self.codes.len()
    }

    /// What holds of a compiler after a phrase has failed: the code that
    /// `before` held still stands, with at most more code behind it; the
    /// symbol table is as it was; and the position has not gone back.
    pub open spec fn failed(&self, before: &Compiler) -> bool {
        &&& starts_with(self.codes@, before.codes@)
        &&& self.table == before.table
        &&& before.pos <= self.pos
    }

    /// The compiler has appended the code of phrase `e` to what `before`
    /// held and stands behind the phrase, with the symbol table as it was.
    pub open spec fn grown_by(&self, before: &Compiler, e: Emit) -> bool {
        &&& self.codes@ == before.codes@ + e.code
        &&& self.pos == before.pos + e.len()
        &&& self.table == before.table
    }

    /// Appends one instruction.
    pub fn add_code(&mut self, opt: Opt, operand: i32)
        ensures
            final(self).codes@ == old(self).codes@.push(Code { opt, operand }),
            final(self).pos == old(self).pos,
            final(self).table == old(self).table,
    {
        self.codes.push(Code { opt, operand });
    }

    /// `factor = "(" add_expr ")" | ID | NUM`.
    pub fn factor(&mut self, ts: &Vec<Token>) -> (r: Result<(), CompileError>)
        requires
            old(self).inv(views(ts@)),
        ensures
            match grammar::factor(views(ts@), old(self).pos as int, old(self).table@) {
                Ok(e) => r is Ok && final(self).grown_by(old(self), e) && final(self).inv(
                    views(ts@),
                ) && sound(e.code, 0, false) && e.code.len() <= e.len(),
                Err(x) => {
                    &&& r == Err::<(), CompileError>(x)
                    &&& final(self).failed(old(self))
                    &&& kind_at(views(ts@), old(self).pos as int) != TokenKind::LParen ==> final(self).codes@
                        == old(self).codes@
                },
            },
        decreases remaining(views(ts@), old(self).pos as int), 0nat,
    {
        reveal(sound);
        reveal(grammar::additive_expr);
        reveal(grammar::factor);
        let k = peek(ts, self.pos);
        match k {
            TokenKind::LParen => {
                self.pos = self.pos + 1;
                match self.additive_expr(ts) {
                    Err(e) => {
                        return Err(e);
                    },
                    Ok(_) => {},
                }
                if !is_kind(peek(ts, self.pos), TokenKind::RParen) {
                    return Err(CompileError::MissingCloseParen);
                }
                self.pos = self.pos + 1;
                Ok(())
            },
            TokenKind::Id => {
                let found = self.table.lookup(
                    ts[self.pos].lexeme.as_slice(),
                    self.table.last_defined_function.as_slice(),
                );
                match found {
                    None => Err(CompileError::Undeclared),
                    Some(i) => {
                        if !are_kinds_equal(self.table.symbol[i].kind, CategorySymbol::Variable) {
                            return Err(CompileError::FactorNonVariable);
                        }
                        let address = self.table.symbol[i].address;
                        self.add_code(Opt::LOAD, address);
                        self.pos = self.pos + 1;
                        proof {
                            let e = grammar::factor(
                                views(ts@),
                                old(self).pos as int,
                                old(self).table@,
                            )->Ok_0;
                            assert(e.code =~= seq![Code { opt: Opt::LOAD, operand: address }]);
                            assert(self.codes@ =~= old(self).codes@ + e.code);
                            assert(self.table@.entries[i as int].kind == CategorySymbol::Variable);
                        }
                        Ok(())
                    },
                }
            },
            TokenKind::Num => {
                match parse_number(ts[self.pos].lexeme.as_slice()) {
                    None => Err(CompileError::NumberTooLarge),
                    Some(v) => {
                        self.add_code(Opt::LOADI, v);
                        self.pos = self.pos + 1;
                        proof {
                            let e = grammar::factor(
                                views(ts@),
                                old(self).pos as int,
                                old(self).table@,
                            )->Ok_0;
                            assert(e.code =~= seq![Code { opt: Opt::LOADI, operand: v }]);
                            assert(self.codes@ =~= old(self).codes@ + e.code);
                        }
                        Ok(())
                    },
                }
            },
            _ => Err(CompileError::MissingOperand),
        }
    }

    /// `term = factor { ("*" | "/") factor }`.
    pub fn term(&mut self, ts: &Vec<Token>) -> (r: Result<(), CompileError>)
        requires
            old(self).inv(views(ts@)),
        ensures
            match grammar::term(views(ts@), old(self).pos as int, old(self).table@) {
                Ok(e) => r is Ok && final(self).grown_by(old(self), e) && final(self).inv(
                    views(ts@),
                ) && sound(e.code, 0, false) && e.code.len() <= e.len(),
                Err(x) => r == Err::<(), CompileError>(x) && final(self).failed(old(self)),
            },
        decreases remaining(views(ts@), old(self).pos as int), 2nat,
    {
        reveal(sound);
        reveal(grammar::factor);
        reveal(grammar::term);
        reveal(grammar::term_tail);
        let ghost tv = views(ts@);
        let ghost s = self.table@;
        let ghost whole = grammar::term(tv, self.pos as int, s);
        match self.factor(ts) {
            Err(e) => {
                return Err(e);
            },
            Ok(_) => {},
        }
        let ghost done: Seq<Code> = grammar::factor(tv, old(self).pos as int, s)->Ok_0.code;
        proof {
            let t = grammar::term_tail(tv, self.pos as int, s);
            if t is Ok {
                assert(done + t->Ok_0.code =~= whole->Ok_0.code);
            }
        }
        while is_mul(peek(ts, self.pos))
            invariant
                tv == views(ts@),
                s == old(self).table@,
                whole == grammar::term(tv, old(self).pos as int, s),
                self.inv(tv),
                old(self).inv(tv),
                self.table == old(self).table,
                self.codes@ == old(self).codes@ + done,
                old(self).pos < self.pos,
                done.len() <= self.pos - old(self).pos,
                sound(done, 0, false),
                match grammar::term_tail(tv, self.pos as int, s) {
                    Ok(t) => whole == Ok::<Emit, CompileError>(
                        Emit {
                            code: done + t.code,
                            more: (self.pos - old(self).pos - 1 + t.used) as nat,
                            low: false,
                        },
                    ),
                    Err(x) => whole == Err::<Emit, CompileError>(x),
                },
            decreases ts.len() - self.pos,
        {
            reveal(sound);
            reveal(grammar::factor);
            reveal(grammar::term);
            reveal(grammar::term_tail);
            let ghost here = self.pos as int;
            let op = peek(ts, self.pos);
            self.pos = self.pos + 1;
            match self.factor(ts) {
                Err(e) => {
                    return Err(e);
                },
                Ok(_) => {},
            }
            self.add_code(operator_of(op), 0);
            proof {
                let f = grammar::factor(tv, here + 1, s)->Ok_0;
                let earlier = done;
                done = done + f.code + grammar::plain(grammar::operator(op));
                assert(self.codes@ =~= old(self).codes@ + done);
                let t = grammar::term_tail(tv, self.pos as int, s);
                if t is Ok {
                    assert(earlier + (f.code + grammar::plain(grammar::operator(op))
                        + t->Ok_0.code) =~= done + t->Ok_0.code);
                }
            }
        }
        proof {
            assert(done + Seq::<Code>::empty() =~= done);
        }
        Ok(())
    }

    /// `add_expr = term { ("+" | "-") term }`.
    pub fn additive_expr(&mut self, ts: &Vec<Token>) -> (r: Result<(), CompileError>)
        requires
            old(self).inv(views(ts@)),
        ensures
            match grammar::additive_expr(views(ts@), old(self).pos as int, old(self).table@) {
                Ok(e) => r is Ok && final(self).grown_by(old(self), e) && final(self).inv(
                    views(ts@),
                ) && sound(e.code, 0, false) && e.code.len() <= e.len(),
                Err(x) => r == Err::<(), CompileError>(x) && final(self).failed(old(self)),
            },
        decreases remaining(views(ts@), old(self).pos as int), 4nat,
    {
        reveal(sound);
        reveal(grammar::term);
        reveal(grammar::additive_expr);
        reveal(grammar::additive_tail);
        let ghost tv = views(ts@);
        let ghost s = self.table@;
        let ghost whole = grammar::additive_expr(tv, self.pos as int, s);
        match self.term(ts) {
            Err(e) => {
                return Err(e);
            },
            Ok(_) => {},
        }
        let ghost done: Seq<Code> = grammar::term(tv, old(self).pos as int, s)->Ok_0.code;
        proof {
            let t = grammar::additive_tail(tv, self.pos as int, s);
            if t is Ok {
                assert(done + t->Ok_0.code =~= whole->Ok_0.code);
            }
        }
        while is_add(peek(ts, self.pos))
            invariant
                tv == views(ts@),
                s == old(self).table@,
                whole == grammar::additive_expr(tv, old(self).pos as int, s),
                self.inv(tv),
                old(self).inv(tv),
                self.table == old(self).table,
                self.codes@ == old(self).codes@ + done,
                old(self).pos < self.pos,
                done.len() <= self.pos - old(self).pos,
                sound(done, 0, false),
                match grammar::additive_tail(tv, self.pos as int, s) {
                    Ok(t) => whole == Ok::<Emit, CompileError>(
                        Emit {
                            code: done + t.code,
                            more: (self.pos - old(self).pos - 1 + t.used) as nat,
                            low: false,
                        },
                    ),
                    Err(x) => whole == Err::<Emit, CompileError>(x),
                },
            decreases ts.len() - self.pos,
        {
            reveal(sound);
            reveal(grammar::term);
            reveal(grammar::additive_expr);
            reveal(grammar::additive_tail);
            let ghost here = self.pos as int;
            let op = peek(ts, self.pos);
            self.pos = self.pos + 1;
            match self.term(ts) {
                Err(e) => {
                    return Err(e);
                },
                Ok(_) => {},
            }
            self.add_code(operator_of(op), 0);
            proof {
                let f = grammar::term(tv, here + 1, s)->Ok_0;
                let earlier = done;
                done = done + f.code + grammar::plain(grammar::operator(op));
                assert(self.codes@ =~= old(self).codes@ + done);
                let t = grammar::additive_tail(tv, self.pos as int, s);
                if t is Ok {
                    assert(earlier + (f.code + grammar::plain(grammar::operator(op))
                        + t->Ok_0.code) =~= done + t->Ok_0.code);
                }
            }
        }
        proof {
            assert(done + Seq::<Code>::empty() =~= done);
        }
        Ok(())
    }
}

impl Compiler {
    /// The address of the instruction appended next.
    pub fn here(&self) -> (a: i32)
        requires
            self.codes.len() <= i32::MAX,
        ensures
            a == self.codes.len(),
    {
        self.codes.len() as i32
    }

    /// Sets the operand of the instruction at `index`.
    pub fn patch(&mut self, index: usize, operand: i32)
        requires
            index < old(self).codes.len(),
        ensures
            final(self).codes@ == old(self).codes@.update(
                index as int,
                Code { opt: old(self).codes@[index as int].opt, operand },
            ),
            final(self).pos == old(self).pos,
            final(self).table == old(self).table,
    {
        self.codes[index].operand = operand;
    }

    /// `bool_expr = add_expr [ relop add_expr ]`.
    pub fn bool_expr(&mut self, ts: &Vec<Token>) -> (r: Result<(), CompileError>)
        requires
            old(self).inv(views(ts@)),
        ensures
            match grammar::bool_expr(views(ts@), old(self).pos as int, old(self).table@) {
                Ok(e) => r is Ok && final(self).grown_by(old(self), e) && final(self).inv(
                    views(ts@),
                ) && sound(e.code, 0, false) && e.code.len() <= e.len(),
                Err(x) => r == Err::<(), CompileError>(x) && final(self).failed(old(self)),
            },
    {
        reveal(sound);
        reveal(grammar::bool_expr);
        let ghost tv = views(ts@);
        let ghost s = self.table@;
        match self.additive_expr(ts) {
            Err(e) => {
                return Err(e);
            },
            Ok(_) => {},
        }
        let op = peek(ts, self.pos);
        if is_relop(op) {
            self.pos = self.pos + 1;
            match self.additive_expr(ts) {
                Err(e) => {
                    return Err(e);
                },
                Ok(_) => {},
            }
            self.add_code(operator_of(op), 0);
            proof {
                let e = grammar::bool_expr(tv, old(self).pos as int, s)->Ok_0;
                assert(self.codes@ =~= old(self).codes@ + e.code);
            }
        }
        Ok(())
    }

    /// `expr = ID "=" bool_expr | bool_expr`.
    pub fn expression(&mut self, ts: &Vec<Token>) -> (r: Result<(), CompileError>)
        requires
            old(self).inv(views(ts@)),
        ensures
            match grammar::expression(views(ts@), old(self).pos as int, old(self).table@) {
                Ok(e) => r is Ok && final(self).grown_by(old(self), e) && final(self).inv(
                    views(ts@),
                ) && sound(e.code, 0, false) && e.code.len() <= e.len(),
                Err(x) => {
                    &&& r == Err::<(), CompileError>(x)
                    &&& final(self).failed(old(self))
                    &&& grammar::bad_target(views(ts@), old(self).pos as int, old(self).table@)
                        ==> final(self).codes@ == old(self).codes@
                },
            },
    {
        reveal(sound);
        reveal(grammar::expression);
        let ghost tv = views(ts@);
        let ghost s = self.table@;
        if is_kind(peek(ts, self.pos), TokenKind::Id) && is_kind(
            peek(ts, self.pos + 1),
            TokenKind::Assign,
        ) {
            let found = self.table.lookup(
                ts[self.pos].lexeme.as_slice(),
                self.table.last_defined_function.as_slice(),
            );
            match found {
                None => Err(CompileError::Undeclared),
                Some(i) => {
                    if !are_kinds_equal(self.table.symbol[i].kind, CategorySymbol::Variable) {
                        return Err(CompileError::AssignNonVariable);
                    }
                    let address = self.table.symbol[i].address;
                    self.pos = self.pos + 2;
                    match self.bool_expr(ts) {
                        Err(e) => {
                            return Err(e);
                        },
                        Ok(_) => {},
                    }
                    self.add_code(Opt::STO, address);
                    proof {
                        let e = grammar::expression(tv, old(self).pos as int, s)->Ok_0;
                        assert(self.codes@ =~= old(self).codes@ + e.code);
                        assert(s.entries[i as int].kind == CategorySymbol::Variable);
                    }
                    Ok(())
                },
            }
        } else {
            self.bool_expr(ts)
        }
    }

    /// `read_stat = "read" ID ";"`.
    pub fn read_stat(&mut self, ts: &Vec<Token>) -> (r: Result<(), CompileError>)
        requires
            old(self).inv(views(ts@)),
        ensures
            match grammar::read_stat(views(ts@), old(self).pos as int, old(self).table@) {
                Ok(e) => r is Ok && final(self).grown_by(old(self), e) && final(self).inv(
                    views(ts@),
                ) && sound(e.code, 0, false) && e.code.len() <= e.len(),
                Err(x) => {
                    &&& r == Err::<(), CompileError>(x)
                    &&& final(self).failed(old(self))
                    &&& final(self).codes@ == old(self).codes@
                },
            },
    {
        reveal(sound);
        reveal(grammar::read_stat);
        let ghost tv = views(ts@);
        let ghost s = self.table@;
        if !is_kind(peek(ts, self.pos + 1), TokenKind::Id) {
            return Err(CompileError::MissingIdentifier);
        }
        let found = self.table.lookup(
            ts[self.pos + 1].lexeme.as_slice(),
            self.table.last_defined_function.as_slice(),
        );
        match found {
            None => Err(CompileError::Undeclared),
            Some(i) => {
                if !are_kinds_equal(self.table.symbol[i].kind, CategorySymbol::Variable) {
                    return Err(CompileError::ReadNonVariable);
                }
                if !is_kind(peek(ts, self.pos + 2), TokenKind::Semicolon) {
                    return Err(CompileError::MissingSemicolon);
                }
                let address = self.table.symbol[i].address;
                self.add_code(Opt::IN, 0);
                self.add_code(Opt::STO, address);
                self.pos = self.pos + 3;
                proof {
                    let e = grammar::read_stat(tv, old(self).pos as int, s)->Ok_0;
                    assert(self.codes@ =~= old(self).codes@ + e.code);
                    assert(s.entries[i as int].kind == CategorySymbol::Variable);
                }
                Ok(())
            },
        }
    }

    /// `write_stat = "write" expr ";"`.
    fn write_stat(&mut self, ts: &Vec<Token>) -> (r: Result<(), CompileError>)
        requires
            old(self).inv(views(ts@)),
            kind_at(views(ts@), old(self).pos as int) == TokenKind::Write,
        ensures
            match grammar::write_stat(views(ts@), old(self).pos as int, old(self).table@) {
                Ok(e) => r is Ok && final(self).grown_by(old(self), e) && final(self).inv(
                    views(ts@),
                ) && sound(e.code, 0, false) && e.code.len() <= e.len(),
                Err(x) => r == Err::<(), CompileError>(x) && final(self).failed(old(self)),
            },
    {
        reveal(sound);
        reveal(grammar::write_stat);
        let ghost tv = views(ts@);
        let ghost s = self.table@;
        self.pos = self.pos + 1;
        match self.expression(ts) {
            Err(e) => {
                return Err(e);
            },
            Ok(_) => {},
        }
        if !is_kind(peek(ts, self.pos), TokenKind::Semicolon) {
            return Err(CompileError::MissingSemicolon);
        }
        self.add_code(Opt::OUT, 0);
        self.pos = self.pos + 1;
        proof {
            let e = grammar::write_stat(tv, old(self).pos as int, s)->Ok_0;
            assert(self.codes@ =~= old(self).codes@ + e.code);
        }
        Ok(())
    }

    /// `expr_stat = [ expr ] ";"`.
    pub fn expression_stat(&mut self, ts: &Vec<Token>) -> (r: Result<(), CompileError>)
        requires
            old(self).inv(views(ts@)),
        ensures
            match grammar::expression_stat(views(ts@), old(self).pos as int, old(self).table@) {
                Ok(e) => r is Ok && final(self).grown_by(old(self), e) && final(self).inv(
                    views(ts@),
                ) && sound(e.code, 0, false) && e.code.len() <= e.len(),
                Err(x) => r == Err::<(), CompileError>(x) && final(self).failed(old(self)),
            },
    {
        reveal(sound);
        reveal(grammar::expression_stat);
        if is_kind(peek(ts, self.pos), TokenKind::Semicolon) {
            self.pos = self.pos + 1;
            assert(self.codes@ =~= old(self).codes@ + Seq::<Code>::empty());
            return Ok(());
        }
        match self.expression(ts) {
            Err(e) => {
                return Err(e);
            },
            Ok(_) => {},
        }
        if !is_kind(peek(ts, self.pos), TokenKind::Semicolon) {
            return Err(CompileError::MissingSemicolon);
        }
        self.pos = self.pos + 1;
        Ok(())
    }
}

impl Compiler {
    /// `[ ID { "," ID } ]`: loads each argument and returns their number.
    pub fn variable_list(&mut self, ts: &Vec<Token>) -> (r: Result<usize, CompileError>)
        requires
            old(self).inv(views(ts@)),
        ensures
            match grammar::arguments(views(ts@), old(self).pos as int, old(self).table@) {
                Ok(a) => {
                    &&& r == Ok::<usize, CompileError>(a.count as usize)
                    &&& final(self).codes@ == old(self).codes@ + a.code
                    &&& final(self).pos == old(self).pos + a.used
                    &&& final(self).table == old(self).table
                    &&& final(self).inv(views(ts@))
                    &&& sound(a.code, 0, a.low)
                    &&& a.code.len() == a.count
                    &&& 2 * a.count <= a.used + 1
                    &&& loads_only(a.code, 0)
                },
                Err(x) => {
                    &&& r == Err::<usize, CompileError>(x)
                    &&& final(self).failed(old(self))
                    &&& loads_only(final(self).codes@, old(self).codes@.len() as int)
                },
            },
    {
        reveal(sound);
        reveal(grammar::arguments);
        let ghost tv = views(ts@);
        let ghost s = self.table@;
        let ghost whole = grammar::arguments(tv, self.pos as int, s);
        let ghost done: Seq<Code> = Seq::empty();
        let ghost low = false;
        let mut count: usize = 0;
        let mut going = is_kind(peek(ts, self.pos), TokenKind::Id);
        proof {
            assert(self.codes@ =~= old(self).codes@ + done);
            if going {
                let rest = grammar::arguments(tv, self.pos as int, s);
                if rest is Ok {
                    assert(done + rest->Ok_0.code =~= rest->Ok_0.code);
                }
            }
        }
        while going
            invariant
                tv == views(ts@),
                s == old(self).table@,
                whole == grammar::arguments(tv, old(self).pos as int, s),
                self.inv(tv),
                self.table == old(self).table,
                self.codes@ == old(self).codes@ + done,
                old(self).pos <= self.pos,
                done.len() == count,
                loads_only(done, 0),
                going ==> 2 * count <= self.pos - old(self).pos,
                !going ==> 2 * count <= self.pos - old(self).pos + 1,
                sound(done, 0, low),
                going ==> kind_at(tv, self.pos as int) == TokenKind::Id,
                going ==> match grammar::arguments(tv, self.pos as int, s) {
                    Ok(rest) => whole == Ok::<grammar::Arguments, CompileError>(
                        grammar::Arguments {
                            code: done + rest.code,
                            count: count as nat + rest.count,
                            used: (self.pos - old(self).pos + rest.used) as nat,
                            low: low || rest.low,
                        },
                    ),
                    Err(x) => whole == Err::<grammar::Arguments, CompileError>(x),
                },
                !going ==> whole == Ok::<grammar::Arguments, CompileError>(
                    grammar::Arguments {
                        code: done,
                        count: count as nat,
                        used: (self.pos - old(self).pos) as nat,
                        low,
                    },
                ),
            decreases ts.len() - self.pos,
        {
            reveal(sound);
            reveal(grammar::arguments);
            let found = self.table.lookup(
                ts[self.pos].lexeme.as_slice(),
                self.table.last_defined_function.as_slice(),
            );
            match found {
                None => {
                    return Err(CompileError::Undeclared);
                },
                Some(i) => {
                    let address = self.table.symbol[i].address;
                    let ghost here = self.pos as int;
                    let ghost earlier = done;
                    self.add_code(Opt::LOAD, address);
                    count = count + 1;
                    proof {
                        done = done + grammar::with_operand(Opt::LOAD, address as int);
                        assert(self.codes@ =~= old(self).codes@ + done);
                        assert(s.entries[i as int].kind == CategorySymbol::Variable ==> address
                            >= 2);
                    }
                    if is_kind(peek(ts, self.pos + 1), TokenKind::Comma) {
                        if !is_kind(peek(ts, self.pos + 2), TokenKind::Id) {
                            return Err(CompileError::MalformedArguments);
                        }
                        self.pos = self.pos + 2;
                        proof {
                            let rest = grammar::arguments(tv, self.pos as int, s);
                            if rest is Ok {
                                assert(earlier + (grammar::with_operand(Opt::LOAD, address as int)
                                    + rest->Ok_0.code) =~= done + rest->Ok_0.code);
                            }
                            low = low || address < 2;
                        }
                    } else {
                        self.pos = self.pos + 1;
                        going = false;
                        proof {
                            assert(earlier + grammar::with_operand(Opt::LOAD, address as int)
                                =~= done);
                            low = low || address < 2;
                        }
                    }
                },
            }
        }
        Ok(count)
    }

    /// `call_stat = "call" ID "(" [ var_list ] ")" ";"`.
    pub fn call_stat(&mut self, ts: &Vec<Token>) -> (r: Result<(), CompileError>)
        requires
            old(self).inv(views(ts@)),
        ensures
            match grammar::call_stat(views(ts@), old(self).pos as int, old(self).table@) {
                Ok(e) => r is Ok && final(self).grown_by(old(self), e) && final(self).inv(
                    views(ts@),
                ) && sound(e.code, final(self).codes.len() as int, e.low) && e.code.len()
                    <= e.len(),
                Err(x) => {
                    &&& r == Err::<(), CompileError>(x)
                    &&& final(self).failed(old(self))
                    &&& loads_only(final(self).codes@, old(self).codes@.len() as int)
                },
            },
    {
        reveal(sound);
        reveal(grammar::call_stat);
        let ghost tv = views(ts@);
        let ghost s = self.table@;
        if !is_kind(peek(ts, self.pos + 1), TokenKind::Id) {
            return Err(CompileError::MissingIdentifier);
        }
        let found = self.table.lookup(
            ts[self.pos + 1].lexeme.as_slice(),
            ts[self.pos + 1].lexeme.as_slice(),
        );
        match found {
            None => Err(CompileError::Undeclared),
            Some(i) => {
                if !are_kinds_equal(self.table.symbol[i].kind, CategorySymbol::Function) {
                    return Err(CompileError::CallNonFunction);
                }
                if !is_kind(peek(ts, self.pos + 2), TokenKind::LParen) {
                    return Err(CompileError::MissingOpenParen);
                }
                let arity = self.table.symbol[i].var_num;
                let address = self.table.symbol[i].address;
                assert(s.entries[i as int].kind == CategorySymbol::Function);
                self.pos = self.pos + 3;
                let count = match self.variable_list(ts) {
                    Err(e) => {
                        return Err(e);
                    },
                    Ok(n) => n,
                };
                let ghost a = grammar::arguments(tv, old(self).pos + 3, s)->Ok_0;
                if arity < 0 || count != arity as usize {
                    return Err(CompileError::ArgumentCountMismatch);
                }
                if !is_kind(peek(ts, self.pos), TokenKind::RParen) {
                    return Err(CompileError::MissingCloseParen);
                }
                if !is_kind(peek(ts, self.pos + 1), TokenKind::Semicolon) {
                    return Err(CompileError::MissingSemicolon);
                }
                let mut passed: usize = 0;
                while passed < count
                    invariant
                        passed <= count,
                        self.codes@ == old(self).codes@ + a.code + grammar::passes(passed as nat),
                        self.pos == old(self).pos + 3 + a.used,
                        self.table == old(self).table,
                    decreases count - passed,
                {
                    self.add_code(Opt::PAS, 0);
                    passed = passed + 1;
                    assert(self.codes@ =~= old(self).codes@ + a.code + grammar::passes(
                        passed as nat,
                    ));
                }
                self.pos = self.pos + 2;
                self.add_code(Opt::CAL, address);
                proof {
                    let e = grammar::call_stat(tv, old(self).pos as int, s)->Ok_0;
                    assert(self.codes@ =~= old(self).codes@ + e.code);
                    assert forall|j: int| 0 <= j < e.code.len() implies instruction_sound(
                        #[trigger] e.code[j],
                        self.codes.len() as int,
                        e.low,
                    ) by {
                        if j < a.code.len() {
                            assert(e.code[j] == a.code[j]);
                        } else if j < a.code.len() + a.count {
                            assert(e.code[j] == grammar::passes(a.count)[j - a.code.len()]);
                        } else {
                            assert(e.code[j] == Code { opt: Opt::CAL, operand: address });
                        }
                    }
                }
                Ok(())
            },
        }
    }
}

fn starts_statement(k: TokenKind) -> (b: bool)
    ensures
        b == grammar::starts_statement(k),
{
    match k {
        TokenKind::If | TokenKind::While | TokenKind::For | TokenKind::Read | TokenKind::Write
        | TokenKind::LBrace | TokenKind::Call | TokenKind::Id | TokenKind::Num | TokenKind::LParen
        | TokenKind::Semicolon => true,
        _ => false,
    }
}

/// Pieces of sound code and sound instructions between them make sound
/// code: the layout of an `if` with an `else`.
pub proof fn lemma_sound_five(
    a: Seq<Code>,
    i: Code,
    b: Seq<Code>,
    j: Code,
    c: Seq<Code>,
    hi: int,
    low: bool,
)
    requires
        sound(a, hi, low),
        sound(b, hi, low),
        sound(c, hi, low),
        instruction_sound(i, hi, low),
        instruction_sound(j, hi, low),
    ensures
        sound(a + seq![i] + b + seq![j], hi, low),
        sound(a + seq![i] + b + seq![j] + c, hi, low),
{
    lemma_sound_one(i, hi, low);
    lemma_sound_one(j, hi, low);
    lemma_sound_join(a, seq![i], hi, low);
    lemma_sound_join(a + seq![i], b, hi, low);
    lemma_sound_join(a + seq![i] + b, seq![j], hi, low);
    lemma_sound_join(a + seq![i] + b + seq![j], c, hi, low);
}

/// Pieces of sound code and sound instructions between them make sound
/// code: the layout of a `for`.
pub proof fn lemma_sound_eight(
    a: Seq<Code>,
    b: Seq<Code>,
    i: Code,
    j: Code,
    c: Seq<Code>,
    k: Code,
    d: Seq<Code>,
    l: Code,
    hi: int,
    low: bool,
)
    requires
        sound(a, hi, low),
        sound(b, hi, low),
        sound(c, hi, low),
        sound(d, hi, low),
        instruction_sound(i, hi, low),
        instruction_sound(j, hi, low),
        instruction_sound(k, hi, low),
        instruction_sound(l, hi, low),
    ensures
        sound(a + b + seq![i] + seq![j] + c + seq![k] + d + seq![l], hi, low),
{
    lemma_sound_one(i, hi, low);
    lemma_sound_one(j, hi, low);
    lemma_sound_one(k, hi, low);
    lemma_sound_one(l, hi, low);
    lemma_sound_join(a, b, hi, low);
    lemma_sound_join(a + b, seq![i], hi, low);
    lemma_sound_join(a + b + seq![i], seq![j], hi, low);
    lemma_sound_join(a + b + seq![i] + seq![j], c, hi, low);
    lemma_sound_join(a + b + seq![i] + seq![j] + c, seq![k], hi, low);
    lemma_sound_join(a + b + seq![i] + seq![j] + c + seq![k], d, hi, low);
    lemma_sound_join(a + b + seq![i] + seq![j] + c + seq![k] + d, seq![l], hi, low);
}

/// The code vector after the steps by which an `if` is compiled, with and
/// without an `else`, is the code of the statement behind what stood before.
pub proof fn lemma_if_layout(
    pre: Seq<Code>,
    c: Seq<Code>,
    a: Seq<Code>,
    b: Seq<Code>,
    other: i32,
    end: i32,
)
    ensures
        ({
            let x1 = pre + c;
            let x2 = x1.push(Code { opt: Opt::BRF, operand: 0 });
            let x3 = x2 + a;
            let x4 = x3.push(Code { opt: Opt::BR, operand: 0 });
            let x5 = x4.update(
                x1.len() as int,
                Code { opt: x4[x1.len() as int].opt, operand: other },
            );
            let x6 = x5 + b;
            let x7 = x6.update(
                x3.len() as int,
                Code { opt: x6[x3.len() as int].opt, operand: end },
            );
            let y = x5.update(x3.len() as int, Code { opt: x5[x3.len() as int].opt, operand: end });
            &&& x7 == pre + (c + seq![Code { opt: Opt::BRF, operand: other }] + a + seq![
                Code { opt: Opt::BR, operand: end },
            ] + b)
            &&& y == pre + (c + seq![Code { opt: Opt::BRF, operand: other }] + a + seq![
                Code { opt: Opt::BR, operand: end },
            ])
        }),
{
    let x1 = pre + c;
    let x2 = x1.push(Code { opt: Opt::BRF, operand: 0 });
    let x3 = x2 + a;
    let x4 = x3.push(Code { opt: Opt::BR, operand: 0 });
    let x5 = x4.update(x1.len() as int, Code { opt: x4[x1.len() as int].opt, operand: other });
    let x6 = x5 + b;
    let x7 = x6.update(x3.len() as int, Code { opt: x6[x3.len() as int].opt, operand: end });
    let y = x5.update(x3.len() as int, Code { opt: x5[x3.len() as int].opt, operand: end });
    assert(x7 =~= pre + (c + seq![Code { opt: Opt::BRF, operand: other }] + a + seq![
        Code { opt: Opt::BR, operand: end },
    ] + b));
    assert(y =~= pre + (c + seq![Code { opt: Opt::BRF, operand: other }] + a + seq![
        Code { opt: Opt::BR, operand: end },
    ]));
}

/// The code vector after the steps by which a `while` is compiled.
pub proof fn lemma_while_layout(pre: Seq<Code>, c: Seq<Code>, a: Seq<Code>, head: i32, end: i32)
    ensures
        ({
            let x1 = pre + c;
            let x2 = x1.push(Code { opt: Opt::BRF, operand: 0 });
            let x3 = x2 + a;
            let x4 = x3.push(Code { opt: Opt::BR, operand: head });
            let x5 = x4.update(
                x1.len() as int,
                Code { opt: x4[x1.len() as int].opt, operand: end },
            );
            x5 == pre + (c + seq![Code { opt: Opt::BRF, operand: end }] + a + seq![
                Code { opt: Opt::BR, operand: head },
            ])
        }),
{
    let x1 = pre + c;
    let x2 = x1.push(Code { opt: Opt::BRF, operand: 0 });
    let x3 = x2 + a;
    let x4 = x3.push(Code { opt: Opt::BR, operand: head });
    let x5 = x4.update(x1.len() as int, Code { opt: x4[x1.len() as int].opt, operand: end });
    assert(x5 =~= pre + (c + seq![Code { opt: Opt::BRF, operand: end }] + a + seq![
        Code { opt: Opt::BR, operand: head },
    ]));
}

/// The code vector after the steps by which a `for` is compiled.
pub proof fn lemma_for_layout(
    pre: Seq<Code>,
    a: Seq<Code>,
    b: Seq<Code>,
    c: Seq<Code>,
    d: Seq<Code>,
    test: i32,
    step: i32,
    body: i32,
    end: i32,
)
    ensures
        ({
            let x1 = pre + a;
            let x2 = x1 + b;
            let x3 = x2.push(Code { opt: Opt::BRF, operand: 0 });
            let x4 = x3.push(Code { opt: Opt::BR, operand: 0 });
            let x5 = x4 + c;
            let x6 = x5.push(Code { opt: Opt::BR, operand: test });
            let x7 = x6.update(
                x3.len() as int,
                Code { opt: x6[x3.len() as int].opt, operand: body },
            );
            let x8 = x7 + d;
            let x9 = x8.push(Code { opt: Opt::BR, operand: step });
            let x10 = x9.update(
                x2.len() as int,
                Code { opt: x9[x2.len() as int].opt, operand: end },
            );
            x10 == pre + (a + b + seq![Code { opt: Opt::BRF, operand: end }] + seq![
                Code { opt: Opt::BR, operand: body },
            ] + c + seq![Code { opt: Opt::BR, operand: test }] + d + seq![
                Code { opt: Opt::BR, operand: step },
            ])
        }),
{
    let x1 = pre + a;
    let x2 = x1 + b;
    let x3 = x2.push(Code { opt: Opt::BRF, operand: 0 });
    let x4 = x3.push(Code { opt: Opt::BR, operand: 0 });
    let x5 = x4 + c;
    let x6 = x5.push(Code { opt: Opt::BR, operand: test });
    let x7 = x6.update(x3.len() as int, Code { opt: x6[x3.len() as int].opt, operand: body });
    let x8 = x7 + d;
    let x9 = x8.push(Code { opt: Opt::BR, operand: step });
    let x10 = x9.update(x2.len() as int, Code { opt: x9[x2.len() as int].opt, operand: end });
    assert(x10 =~= pre + (a + b + seq![Code { opt: Opt::BRF, operand: end }] + seq![
        Code { opt: Opt::BR, operand: body },
    ] + c + seq![Code { opt: Opt::BR, operand: test }] + d + seq![
        Code { opt: Opt::BR, operand: step },
    ]));
}

impl Compiler {
    /// What a statement function owes: on the tokens on which `expected` is
    /// code, that code stands behind what the compiler held, and is sound;
    /// on the others, the same error comes back.
    pub open spec fn compiled(
        &self,
        before: &Compiler,
        ts: Seq<TokenView>,
        expected: Result<Emit, CompileError>,
        r: Result<(), CompileError>,
    ) -> bool {
        match expected {
            Ok(e) => {
                &&& r is Ok
                &&& self.grown_by(before, e)
                &&& self.inv(ts)
                &&& sound(e.code, self.codes.len() as int, e.low)
                &&& e.code.len() <= e.len()
            },
            Err(x) => r == Err::<(), CompileError>(x) && self.failed(before),
        }
    }

    /// `if_stat = "if" "(" expr ")" statement [ "else" statement ]`.
    pub fn if_stat(&mut self, ts: &Vec<Token>) -> (r: Result<(), CompileError>)
        requires
            old(self).inv(views(ts@)),
        ensures
            r is Err && kind_at(views(ts@), old(self).pos + 1) != TokenKind::LParen
                ==> final(self).codes@ == old(self).codes@,
            final(self).compiled(
                old(self),
                views(ts@),
                grammar::if_stat(
                    views(ts@),
                    old(self).pos as int,
                    old(self).table@,
                    old(self).codes.len() as int,
                ),
                r,
            ),
        decreases remaining(views(ts@), old(self).pos as int), 0nat,
    {
        reveal(grammar::statement);
        reveal(grammar::if_stat);
        let ghost tv = views(ts@);
        let ghost s = self.table@;
        let ghost pre = self.codes@;
        let ghost at = self.codes.len() as int;
        if !is_kind(peek(ts, self.pos + 1), TokenKind::LParen) {
            return Err(CompileError::MissingOpenParen);
        }
        self.pos = self.pos + 2;
        match self.expression(ts) {
            Err(e) => {
                return Err(e);
            },
            Ok(_) => {},
        }
        let ghost c = grammar::expression(tv, old(self).pos + 2, s)->Ok_0;
        if !is_kind(peek(ts, self.pos), TokenKind::RParen) {
            return Err(CompileError::MissingCloseParen);
        }
        let cx1 = self.codes.len();
        self.add_code(Opt::BRF, 0);
        self.pos = self.pos + 1;
        match self.statement(ts) {
            Err(e) => {
                return Err(e);
            },
            Ok(_) => {},
        }
        let ghost a = grammar::statement(
            tv,
            old(self).pos + 3 + c.len(),
            s,
            at + c.code.len() + 1,
        )->Ok_0;
        let ghost hi_a = self.codes.len() as int;
        let cx2 = self.codes.len();
        self.add_code(Opt::BR, 0);
        let other = self.here();
        self.patch(cx1, other);
        let ghost b = Emit { code: Seq::empty(), more: 0, low: false };
        let ghost hi_b = self.codes.len() as int;
        let with_else = is_kind(peek(ts, self.pos), TokenKind::Else);
        if with_else {
            self.pos = self.pos + 1;
            match self.statement(ts) {
                Err(e) => {
                    return Err(e);
                },
                Ok(_) => {},
            }
            proof {
                b = grammar::statement(
                    tv,
                    old(self).pos + 4 + c.len() + a.len(),
                    s,
                    other as int,
                )->Ok_0;
                hi_b = self.codes.len() as int;
            }
        }
        let end = self.here();
        self.patch(cx2, end);
        proof {
            let e = grammar::if_stat(tv, old(self).pos as int, s, at)->Ok_0;
            let hi = self.codes.len() as int;
            let brf = Code { opt: Opt::BRF, operand: other };
            let br = Code { opt: Opt::BR, operand: end };
            lemma_if_layout(pre, c.code, a.code, b.code, other, end);
            lemma_sound_weaken(c.code, 0, false, hi, e.low);
            lemma_sound_weaken(a.code, hi_a, a.low, hi, e.low);
            if with_else {
                lemma_sound_weaken(b.code, hi_b, b.low, hi, e.low);
            } else {
                lemma_sound_none(hi, e.low);
            }
            lemma_sound_five(c.code, brf, a.code, br, b.code, hi, e.low);
        }
        Ok(())
    }

    /// `while_stat = "while" "(" expr ")" statement`.
    pub fn while_stat(&mut self, ts: &Vec<Token>) -> (r: Result<(), CompileError>)
        requires
            old(self).inv(views(ts@)),
        ensures
            r is Err && kind_at(views(ts@), old(self).pos + 1) != TokenKind::LParen
                ==> final(self).codes@ == old(self).codes@,
            final(self).compiled(
                old(self),
                views(ts@),
                grammar::while_stat(
                    views(ts@),
                    old(self).pos as int,
                    old(self).table@,
                    old(self).codes.len() as int,
                ),
                r,
            ),
        decreases remaining(views(ts@), old(self).pos as int), 0nat,
    {
        reveal(grammar::statement);
        reveal(grammar::while_stat);
        let ghost tv = views(ts@);
        let ghost s = self.table@;
        let ghost pre = self.codes@;
        let ghost at = self.codes.len() as int;
        if !is_kind(peek(ts, self.pos + 1), TokenKind::LParen) {
            return Err(CompileError::MissingOpenParen);
        }
        self.pos = self.pos + 2;
        let head = self.here();
        match self.expression(ts) {
            Err(e) => {
                return Err(e);
            },
            Ok(_) => {},
        }
        let ghost c = grammar::expression(tv, old(self).pos + 2, s)->Ok_0;
        if !is_kind(peek(ts, self.pos), TokenKind::RParen) {
            return Err(CompileError::MissingCloseParen);
        }
        let cx1 = self.codes.len();
        self.add_code(Opt::BRF, 0);
        self.pos = self.pos + 1;
        match self.statement(ts) {
            Err(e) => {
                return Err(e);
            },
            Ok(_) => {},
        }
        let ghost a = grammar::statement(
            tv,
            old(self).pos + 3 + c.len(),
            s,
            at + c.code.len() + 1,
        )->Ok_0;
        let ghost hi_a = self.codes.len() as int;
        self.add_code(Opt::BR, head);
        let end = self.here();
        self.patch(cx1, end);
        proof {
            let e = grammar::while_stat(tv, old(self).pos as int, s, at)->Ok_0;
            let hi = self.codes.len() as int;
            let brf = Code { opt: Opt::BRF, operand: end };
            let br = Code { opt: Opt::BR, operand: head };
            lemma_while_layout(pre, c.code, a.code, head, end);
            lemma_sound_weaken(c.code, 0, false, hi, e.low);
            lemma_sound_weaken(a.code, hi_a, a.low, hi, e.low);
            lemma_sound_none(hi, e.low);
            lemma_sound_five(c.code, brf, a.code, br, Seq::empty(), hi, e.low);
        }
        Ok(())
    }

    /// `for_stat = "for" "(" expr ";" expr ";" expr ")" statement`.
    #[verifier::rlimit(80)]
    pub fn for_stat(&mut self, ts: &Vec<Token>) -> (r: Result<(), CompileError>)
        requires
            old(self).inv(views(ts@)),
        ensures
            r is Err && kind_at(views(ts@), old(self).pos + 1) != TokenKind::LParen
                ==> final(self).codes@ == old(self).codes@,
            final(self).compiled(
                old(self),
                views(ts@),
                grammar::for_stat(
                    views(ts@),
                    old(self).pos as int,
                    old(self).table@,
                    old(self).codes.len() as int,
                ),
                r,
            ),
        decreases remaining(views(ts@), old(self).pos as int), 0nat,
    {
        reveal(grammar::statement);
        reveal(grammar::for_stat);
        let ghost tv = views(ts@);
        let ghost s = self.table@;
        let ghost pre = self.codes@;
        let ghost at = self.codes.len() as int;
        let ghost p = self.pos as int;
        if !is_kind(peek(ts, self.pos + 1), TokenKind::LParen) {
            return Err(CompileError::MissingOpenParen);
        }
        self.pos = self.pos + 2;
        match self.expression(ts) {
            Err(e) => {
                return Err(e);
            },
            Ok(_) => {},
        }
        let ghost a = grammar::expression(tv, p + 2, s)->Ok_0;
        if !is_kind(peek(ts, self.pos), TokenKind::Semicolon) {
            return Err(CompileError::MissingSemicolon);
        }
        let test = self.here();
        self.pos = self.pos + 1;
        match self.expression(ts) {
            Err(e) => {
                return Err(e);
            },
            Ok(_) => {},
        }
        let ghost b = grammar::expression(tv, p + 3 + a.len(), s)->Ok_0;
        if !is_kind(peek(ts, self.pos), TokenKind::Semicolon) {
            return Err(CompileError::MissingSemicolon);
        }
        let cx1 = self.codes.len();
        self.add_code(Opt::BRF, 0);
        let cx2 = self.codes.len();
        self.add_code(Opt::BR, 0);
        let step = self.here();
        self.pos = self.pos + 1;
        match self.expression(ts) {
            Err(e) => {
                return Err(e);
            },
            Ok(_) => {},
        }
        let ghost c = grammar::expression(tv, p + 4 + a.len() + b.len(), s)->Ok_0;
        if !is_kind(peek(ts, self.pos), TokenKind::RParen) {
            return Err(CompileError::MissingCloseParen);
        }
        self.add_code(Opt::BR, test);
        let body = self.here();
        self.patch(cx2, body);
        self.pos = self.pos + 1;
        match self.statement(ts) {
            Err(e) => {
                return Err(e);
            },
            Ok(_) => {},
        }
        let ghost d = grammar::statement(
            tv,
            p + 5 + a.len() + b.len() + c.len(),
            s,
            body as int,
        )->Ok_0;
        let ghost hi_d = self.codes.len() as int;
        self.add_code(Opt::BR, step);
        let end = self.here();
        self.patch(cx1, end);
        proof {
            let e = grammar::for_stat(tv, p, s, at)->Ok_0;
            let hi = self.codes.len() as int;
            let i1 = Code { opt: Opt::BRF, operand: end };
            let i2 = Code { opt: Opt::BR, operand: body };
            let i3 = Code { opt: Opt::BR, operand: test };
            let i4 = Code { opt: Opt::BR, operand: step };
            lemma_for_layout(pre, a.code, b.code, c.code, d.code, test, step, body, end);
            lemma_sound_weaken(a.code, 0, false, hi, e.low);
            lemma_sound_weaken(b.code, 0, false, hi, e.low);
            lemma_sound_weaken(c.code, 0, false, hi, e.low);
            lemma_sound_weaken(d.code, hi_d, d.low, hi, e.low);
            lemma_sound_eight(a.code, b.code, i1, i2, c.code, i3, d.code, i4, hi, e.low);
        }
        Ok(())
    }

    /// `{ statement } "}"`: the statements up to and with the closing brace;
    /// `missing` where it is not there.
    pub fn statement_list(&mut self, ts: &Vec<Token>, missing: CompileError) -> (r: Result<
        (),
        CompileError,
    >)
        requires
            old(self).inv(views(ts@)),
        ensures
            final(self).compiled(
                old(self),
                views(ts@),
                grammar::block(
                    views(ts@),
                    old(self).pos as int,
                    old(self).table@,
                    old(self).codes.len() as int,
                    missing,
                ),
                r,
            ),
            r is Ok ==> final(self).codes.len() - old(self).codes.len() < final(self).pos - old(
                self,
            ).pos,
        decreases remaining(views(ts@), old(self).pos as int), 2nat,
    {
        reveal(grammar::statement);
        reveal(grammar::block);
        let ghost tv = views(ts@);
        let ghost s = self.table@;
        let ghost at = self.codes.len() as int;
        let ghost whole = grammar::block(tv, self.pos as int, s, at, missing);
        let ghost done: Seq<Code> = Seq::empty();
        let ghost low = false;
        proof {
            assert(self.codes@ =~= old(self).codes@ + done);
            let rest = grammar::block(tv, self.pos as int, s, at, missing);
            if rest is Ok {
                assert(done + rest->Ok_0.code =~= rest->Ok_0.code);
            }
            reveal(sound);
        }
        while starts_statement(peek(ts, self.pos))
            invariant
                tv == views(ts@),
                s == old(self).table@,
                at == old(self).codes.len(),
                whole == grammar::block(tv, old(self).pos as int, s, at, missing),
                self.inv(tv),
                self.table == old(self).table,
                self.codes@ == old(self).codes@ + done,
                old(self).pos <= self.pos,
                done.len() <= self.pos - old(self).pos,
                sound(done, self.codes.len() as int, low),
                remaining(tv, self.pos as int) <= remaining(tv, old(self).pos as int),
                match grammar::block(tv, self.pos as int, s, self.codes.len() as int, missing) {
                    Ok(rest) => whole == Ok::<Emit, CompileError>(
                        Emit {
                            code: done + rest.code,
                            more: (self.pos - old(self).pos + rest.more) as nat,
                            low: low || rest.low,
                        },
                    ),
                    Err(x) => whole == Err::<Emit, CompileError>(x),
                },
            decreases ts.len() - self.pos,
        {
            reveal(sound);
            reveal(grammar::statement);
            reveal(grammar::block);
            let ghost here = self.pos as int;
            let ghost there = self.codes.len() as int;
            match self.statement(ts) {
                Err(e) => {
                    return Err(e);
                },
                Ok(_) => {},
            }
            proof {
                let a = grammar::statement(tv, here, s, there)->Ok_0;
                let earlier = done;
                let hi = self.codes.len() as int;
                done = done + a.code;
                assert(self.codes@ =~= old(self).codes@ + done);
                let rest = grammar::block(tv, self.pos as int, s, hi, missing);
                if rest is Ok {
                    assert(earlier + (a.code + rest->Ok_0.code) =~= done + rest->Ok_0.code);
                }
                lemma_sound_weaken(earlier, there, low, hi, low || a.low);
                lemma_sound_weaken(a.code, hi, a.low, hi, low || a.low);
                lemma_sound_join(earlier, a.code, hi, low || a.low);
                low = low || a.low;
            }
        }
        if !is_kind(peek(ts, self.pos), TokenKind::RBrace) {
            return Err(missing);
        }
        self.pos = self.pos + 1;
        proof {
            assert(done + Seq::<Code>::empty() =~= done);
        }
        Ok(())
    }

    /// `compound_stat = "{" { statement } "}"`.
    fn compound_stat(&mut self, ts: &Vec<Token>) -> (r: Result<(), CompileError>)
        requires
            old(self).inv(views(ts@)),
            kind_at(views(ts@), old(self).pos as int) == TokenKind::LBrace,
        ensures
            final(self).compiled(
                old(self),
                views(ts@),
                grammar::statement(
                    views(ts@),
                    old(self).pos as int,
                    old(self).table@,
                    old(self).codes.len() as int,
                ),
                r,
            ),
        decreases remaining(views(ts@), old(self).pos as int), 0nat,
    {
        reveal(grammar::block);
        reveal(grammar::statement);
        self.pos = self.pos + 1;
        self.statement_list(ts, CompileError::MissingCloseBrace)
    }

    /// `statement = if_stat | while_stat | for_stat | read_stat | write_stat |
    /// compound_stat | call_stat | expr_stat`.
    pub fn statement(&mut self, ts: &Vec<Token>) -> (r: Result<(), CompileError>)
        requires
            old(self).inv(views(ts@)),
        ensures
            final(self).compiled(
                old(self),
                views(ts@),
                grammar::statement(
                    views(ts@),
                    old(self).pos as int,
                    old(self).table@,
                    old(self).codes.len() as int,
                ),
                r,
            ),
        decreases remaining(views(ts@), old(self).pos as int), 1nat,
    {
        reveal(grammar::if_stat);
        reveal(grammar::while_stat);
        reveal(grammar::for_stat);
        reveal(grammar::block);
        reveal(grammar::statement);
        let r = match peek(ts, self.pos) {
            TokenKind::If => self.if_stat(ts),
            TokenKind::While => self.while_stat(ts),
            TokenKind::For => self.for_stat(ts),
            TokenKind::Read => self.read_stat(ts),
            TokenKind::Write => self.write_stat(ts),
            TokenKind::LBrace => self.compound_stat(ts),
            TokenKind::Call => self.call_stat(ts),
            _ => self.expression_stat(ts),
        };
        proof {
            let e = grammar::statement(
                views(ts@),
                old(self).pos as int,
                old(self).table@,
                old(self).codes.len() as int,
            );
            let k = kind_at(views(ts@), old(self).pos as int);
            if e is Ok && k != TokenKind::If && k != TokenKind::While && k != TokenKind::For && k
                != TokenKind::LBrace && k != TokenKind::Call {
                lemma_sound_weaken(e->Ok_0.code, 0, false, self.codes.len() as int, e->Ok_0.low);
            }
        }
        r
    }
}


/// The entries of `before` stand unchanged at the front of `after`.
pub open spec fn extends(after: Symbols, before: Symbols) -> bool {
    &&& before.entries.len() <= after.entries.len()
    &&& forall|k: int| 0 <= k < before.entries.len() ==> after.entries[k] == before.entries[k]
    &&& forall|k: int|
        before.entries.len() <= k < after.entries.len() ==> (#[trigger] after.entries[k]).kind
            == CategorySymbol::Variable
}

impl Compiler {
    /// `param_stat = "int" ID`: declares one parameter.
    pub fn parameter_stat(&mut self, ts: &Vec<Token>) -> (r: Result<(), CompileError>)
        requires
            old(self).inv(views(ts@)),
        ensures
            final(self).codes == old(self).codes,
            final(self).table@ == grammar::declared_one(
                views(ts@),
                old(self).pos as int,
                old(self).table@,
            ),
            r is Err ==> old(self).pos <= final(self).pos,
            if kind_at(views(ts@), old(self).pos + 1) != TokenKind::Id {
                r == Err::<(), CompileError>(CompileError::MissingIdentifier)
            } else {
                match inserted(
                    old(self).table@,
                    CategorySymbol::Variable,
                    lexeme_at(views(ts@), old(self).pos + 1),
                ) {
                    Ok(t) => r is Ok && final(self).table@ == t && final(self).pos == old(self).pos
                        + 2 && final(self).inv(views(ts@)) && extends(
                        final(self).table@,
                        old(self).table@,
                    ) && (in_function(old(self).table@) ==> in_function(t)),
                    Err(x) => r == Err::<(), CompileError>(x),
                }
            },
    {
        if !is_kind(peek(ts, self.pos + 1), TokenKind::Id) {
            return Err(CompileError::MissingIdentifier);
        }
        match self.table.insert_symbol(
            CategorySymbol::Variable,
            ts[self.pos + 1].lexeme.as_slice(),
        ) {
            Err(e) => {
                return Err(e);
            },
            Ok(_) => {},
        }
        proof {
            if in_function(old(self).table@) {
                lemma_scoped_variable(old(self).table@, lexeme_at(views(ts@), old(self).pos + 1));
            }
        }
        self.pos = self.pos + 2;
        Ok(())
    }

    /// `param_list = [ param_stat { "," param_stat } ]`: starts the frame
    /// offsets over, declares the parameters and returns their number.
    pub fn parameter_list(&mut self, ts: &Vec<Token>) -> (r: Result<usize, CompileError>)
        requires
            old(self).inv(views(ts@)),
        ensures
            final(self).codes == old(self).codes,
            old(self).pos <= final(self).pos,
            final(self).table@ == grammar::parameters_reach(
                views(ts@),
                old(self).pos as int,
                old(self).table@.rewound(),
            ),
            match grammar::parameters(
                views(ts@),
                old(self).pos as int,
                old(self).table@.rewound(),
            ) {
                Ok(d) => {
                    &&& r == Ok::<usize, CompileError>(d.count as usize)
                    &&& final(self).codes == old(self).codes
                    &&& final(self).pos == old(self).pos + d.used
                    &&& final(self).table@ == d.symbols
                    &&& final(self).inv(views(ts@))
                    &&& extends(d.symbols, old(self).table@)
                    &&& d.symbols.offset == 2 + d.count
                    &&& d.symbols.current == old(self).table@.current
                    &&& in_function(old(self).table@.rewound()) ==> in_function(d.symbols)
                },
                Err(x) => r == Err::<usize, CompileError>(x),
            },
    {
        let ghost tv = views(ts@);
        self.table.offset = 2;
        let ghost start = self.table@;
        let ghost whole = grammar::parameters(tv, self.pos as int, start);
        let mut count: usize = 0;
        let mut going = is_kind(peek(ts, self.pos), TokenKind::Int);
        while going
            invariant
                tv == views(ts@),
                whole == grammar::parameters(tv, old(self).pos as int, start),
                start == old(self).table@.rewound(),
                grammar::parameters_reach(tv, old(self).pos as int, start) == if going {
                    grammar::parameters_reach(tv, self.pos as int, self.table@)
                } else {
                    self.table@
                },
                self.inv(tv),
                self.codes == old(self).codes,
                old(self).pos <= self.pos,
                count <= self.pos - old(self).pos,
                extends(self.table@, old(self).table@),
                in_function(start) ==> in_function(self.table@),
                self.table@.offset == 2 + count,
                self.table@.current == start.current,
                going ==> kind_at(tv, self.pos as int) == TokenKind::Int,
                going ==> match grammar::parameters(tv, self.pos as int, self.table@) {
                    Ok(rest) => whole == Ok::<grammar::Declared, CompileError>(
                        grammar::Declared {
                            symbols: rest.symbols,
                            count: count as nat + rest.count,
                            used: (self.pos - old(self).pos + rest.used) as nat,
                        },
                    ),
                    Err(x) => whole == Err::<grammar::Declared, CompileError>(x),
                },
                !going ==> whole == Ok::<grammar::Declared, CompileError>(
                    grammar::Declared {
                        symbols: self.table@,
                        count: count as nat,
                        used: (self.pos - old(self).pos) as nat,
                    },
                ),
            decreases ts.len() - self.pos,
        {
            match self.parameter_stat(ts) {
                Err(e) => {
                    return Err(e);
                },
                Ok(_) => {},
            }
            count = count + 1;
            if is_kind(peek(ts, self.pos), TokenKind::Comma) {
                if !is_kind(peek(ts, self.pos + 1), TokenKind::Int) {
                    return Err(CompileError::MalformedParameters);
                }
                self.pos = self.pos + 1;
            } else {
                going = false;
            }
        }
        Ok(count)
    }

    /// `decl_stat = "int" ID ";"`: declares one variable.
    pub fn declaration_stat(&mut self, ts: &Vec<Token>) -> (r: Result<(), CompileError>)
        requires
            old(self).inv(views(ts@)),
        ensures
            final(self).codes == old(self).codes,
            final(self).table@ == grammar::declared_one(
                views(ts@),
                old(self).pos as int,
                old(self).table@,
            ),
            r is Err ==> old(self).pos <= final(self).pos,
            if kind_at(views(ts@), old(self).pos + 1) != TokenKind::Id {
                r == Err::<(), CompileError>(CompileError::MissingIdentifier)
            } else {
                match inserted(
                    old(self).table@,
                    CategorySymbol::Variable,
                    lexeme_at(views(ts@), old(self).pos + 1),
                ) {
                    Ok(t) => if kind_at(views(ts@), old(self).pos + 2) != TokenKind::Semicolon {
                        r == Err::<(), CompileError>(CompileError::MissingSemicolon)
                    } else {
                        r is Ok && final(self).table@ == t && final(self).pos == old(self).pos + 3
                            && final(self).inv(views(ts@)) && extends(
                            final(self).table@,
                            old(self).table@,
                        ) && (in_function(old(self).table@) ==> in_function(t))
                    },
                    Err(x) => r == Err::<(), CompileError>(x),
                }
            },
    {
        if !is_kind(peek(ts, self.pos + 1), TokenKind::Id) {
            return Err(CompileError::MissingIdentifier);
        }
        match self.table.insert_symbol(
            CategorySymbol::Variable,
            ts[self.pos + 1].lexeme.as_slice(),
        ) {
            Err(e) => {
                return Err(e);
            },
            Ok(_) => {},
        }
        proof {
            if in_function(old(self).table@) {
                lemma_scoped_variable(old(self).table@, lexeme_at(views(ts@), old(self).pos + 1));
            }
        }
        if !is_kind(peek(ts, self.pos + 2), TokenKind::Semicolon) {
            return Err(CompileError::MissingSemicolon);
        }
        self.pos = self.pos + 3;
        Ok(())
    }

    /// `{ decl_stat }`: declares the variables of a body and returns their
    /// number.
    pub fn declaration_list(&mut self, ts: &Vec<Token>) -> (r: Result<usize, CompileError>)
        requires
            old(self).inv(views(ts@)),
        ensures
            final(self).codes == old(self).codes,
            old(self).pos <= final(self).pos,
            final(self).table@ == grammar::declarations_reach(
                views(ts@),
                old(self).pos as int,
                old(self).table@,
            ),
            match grammar::declarations(views(ts@), old(self).pos as int, old(self).table@) {
                Ok(d) => {
                    &&& r == Ok::<usize, CompileError>(d.count as usize)
                    &&& final(self).codes == old(self).codes
                    &&& final(self).pos == old(self).pos + d.used
                    &&& final(self).table@ == d.symbols
                    &&& final(self).inv(views(ts@))
                    &&& extends(d.symbols, old(self).table@)
                    &&& d.symbols.offset == old(self).table@.offset + d.count
                    &&& d.symbols.current == old(self).table@.current
                    &&& in_function(old(self).table@) ==> in_function(d.symbols)
                },
                Err(x) => r == Err::<usize, CompileError>(x),
            },
    {
        let ghost tv = views(ts@);
        let ghost whole = grammar::declarations(tv, self.pos as int, self.table@);
        let mut count: usize = 0;
        while is_kind(peek(ts, self.pos), TokenKind::Int)
            invariant
                tv == views(ts@),
                whole == grammar::declarations(tv, old(self).pos as int, old(self).table@),
                grammar::declarations_reach(tv, old(self).pos as int, old(self).table@)
                    == grammar::declarations_reach(tv, self.pos as int, self.table@),
                self.inv(tv),
                self.codes == old(self).codes,
                old(self).pos <= self.pos,
                count <= self.pos - old(self).pos,
                extends(self.table@, old(self).table@),
                in_function(old(self).table@) ==> in_function(self.table@),
                self.table@.offset == old(self).table@.offset + count,
                self.table@.current == old(self).table@.current,
                match grammar::declarations(tv, self.pos as int, self.table@) {
                    Ok(rest) => whole == Ok::<grammar::Declared, CompileError>(
                        grammar::Declared {
                            symbols: rest.symbols,
                            count: count as nat + rest.count,
                            used: (self.pos - old(self).pos + rest.used) as nat,
                        },
                    ),
                    Err(x) => whole == Err::<grammar::Declared, CompileError>(x),
                },
            decreases ts.len() - self.pos,
        {
            match self.declaration_stat(ts) {
                Err(e) => {
                    return Err(e);
                },
                Ok(_) => {},
            }
            count = count + 1;
        }
        Ok(count)
    }
}

/// The code of one function that starts at address `at`: an `ENTER` that
/// reserves `cells` cells, then sound instructions whose jumps stay at or
/// before the last of them.
pub open spec fn unit_sound(code: Seq<Code>, at: int, cells: int, low: bool) -> bool {
    &&& code.len() >= 2
    &&& 2 <= cells <= i32::MAX
    &&& code[0] == Code { opt: Opt::ENTER, operand: cells as i32 }
    &&& sound(code.skip(1), at + code.len() - 1, low)
}

/// `after` is `before` with one function more: the entries of `before`,
/// then the function `name` with its address and arity, then its variables.
pub open spec fn declares_unit(
    after: Symbols,
    before: Symbols,
    name: Seq<u8>,
    at: int,
    arity: nat,
) -> bool {
    &&& before.entries.len() < after.entries.len()
    &&& forall|k: int| 0 <= k < before.entries.len() ==> after.entries[k] == before.entries[k]
    &&& after.entries[before.entries.len() as int] == SymbolView {
        name,
        kind: CategorySymbol::Function,
        address: at as i32,
        owner: name,
        arity: arity as i32,
    }
    &&& forall|k: int|
        before.entries.len() < k < after.entries.len() ==> (#[trigger] after.entries[k]).kind
            == CategorySymbol::Variable
}

impl Compiler {
    /// `fun_body = "{" { decl_stat } { statement } "}"`.
    pub fn function_body(&mut self, ts: &Vec<Token>) -> (r: Result<(), CompileError>)
        requires
            old(self).inv(views(ts@)),
        ensures
            final(self).table@ == grammar::body_reach(
                views(ts@),
                old(self).pos as int,
                old(self).table@,
            ),
            match grammar::function_body(
                views(ts@),
                old(self).pos as int,
                old(self).table@,
                old(self).codes.len() as int,
            ) {
                Ok(b) => {
                    &&& r is Ok
                    &&& final(self).codes@ == old(self).codes@ + b.code
                    &&& final(self).pos == old(self).pos + b.len()
                    &&& final(self).table@ == b.symbols
                    &&& final(self).inv(views(ts@))
                    &&& unit_sound(
                        b.code,
                        old(self).codes.len() as int,
                        old(self).table@.offset + b.locals,
                        b.low,
                    )
                    &&& extends(b.symbols, old(self).table@)
                    &&& b.symbols.current == old(self).table@.current
                    &&& in_function(old(self).table@) ==> in_function(b.symbols)
                    &&& b.code.len() <= b.len()
                },
                Err(x) => {
                    &&& r == Err::<(), CompileError>(x)
                    &&& starts_with(final(self).codes@, old(self).codes@)
                    &&& old(self).pos <= final(self).pos
                },
            },
    {
        reveal(grammar::function_body);
        let ghost tv = views(ts@);
        if !is_kind(peek(ts, self.pos), TokenKind::LBrace) {
            return Err(CompileError::MissingBodyOpen);
        }
        self.pos = self.pos + 1;
        match self.declaration_list(ts) {
            Err(e) => {
                return Err(e);
            },
            Ok(_) => {},
        }
        let ghost ds = grammar::declarations(tv, old(self).pos + 1, old(self).table@)->Ok_0;
        let cells = self.table.offset;
        self.add_code(Opt::ENTER, cells);
        match self.statement_list(ts, CompileError::MissingBodyClose) {
            Err(e) => {
                return Err(e);
            },
            Ok(_) => {},
        }
        let ghost hi = self.codes.len() as int;
        self.add_code(Opt::RETURN, 0);
        proof {
            let b = grammar::function_body(
                tv,
                old(self).pos as int,
                old(self).table@,
                old(self).codes.len() as int,
            )->Ok_0;
            let inner = grammar::block(
                tv,
                old(self).pos + 1 + ds.used,
                ds.symbols,
                old(self).codes.len() + 1,
                CompileError::MissingBodyClose,
            )->Ok_0;
            assert(self.codes@ =~= old(self).codes@ + b.code);
            let last = Code { opt: Opt::RETURN, operand: 0 };
            lemma_sound_one(last, hi, b.low);
            lemma_sound_join(inner.code, seq![last], hi, b.low);
            assert(b.code.skip(1) =~= inner.code + seq![last]);
        }
        Ok(())
    }

    /// A function from its `(` on: `"(" param_list ")" fun_body`. Declares
    /// the function `name` with the address of the next instruction.
    pub fn function_unit(&mut self, ts: &Vec<Token>, name: &[u8]) -> (r: Result<
        (),
        CompileError,
    >)
        requires
            old(self).inv(views(ts@)),
        ensures
            final(self).table@ == grammar::unit_reach(
                views(ts@),
                old(self).pos as int,
                old(self).table@,
                old(self).codes.len() as int,
                name@,
            ),
            match grammar::function_unit(
                views(ts@),
                old(self).pos as int,
                old(self).table@,
                old(self).codes.len() as int,
                name@,
            ) {
                Ok(u) => {
                    &&& r is Ok
                    &&& final(self).codes@ == old(self).codes@ + u.code
                    &&& final(self).pos == old(self).pos + u.len()
                    &&& final(self).table@ == u.symbols
                    &&& final(self).inv(views(ts@))
                    &&& unit_sound(
                        u.code,
                        old(self).codes.len() as int,
                        (2 + u.arity + u.locals) as int,
                        u.low,
                    )
                    &&& declares_unit(
                        u.symbols,
                        old(self).table@,
                        name@,
                        old(self).codes.len() as int,
                        u.arity,
                    )
                    &&& u.code.len() <= u.len()
                    &&& scoped(old(self).table@) ==> in_function(u.symbols)
                },
                Err(x) => {
                    &&& r == Err::<(), CompileError>(x)
                    &&& starts_with(final(self).codes@, old(self).codes@)
                    &&& old(self).pos <= final(self).pos
                },
            },
    {
        reveal(grammar::function_unit);
        let ghost tv = views(ts@);
        let ghost s = self.table@;
        match self.table.insert_symbol(CategorySymbol::Function, name) {
            Err(e) => {
                return Err(e);
            },
            Ok(_) => {},
        }
        let ghost t = self.table@;
        if !is_kind(peek(ts, self.pos), TokenKind::LParen) {
            return Err(CompileError::MissingOpenParen);
        }
        let own = self.table.symbol.len() - 1;
        let entry = self.here();
        self.table.set_address(own, entry);
        self.pos = self.pos + 1;
        assert(self.inv(tv));
        proof {
            if scoped(s) {
                lemma_scoped_function(s, name@, entry);
            }
        }
        let count = match self.parameter_list(ts) {
            Err(e) => {
                return Err(e);
            },
            Ok(n) => n,
        };
        let ghost ps = grammar::parameters(
            tv,
            old(self).pos + 1,
            t.with_address(own as int, entry).rewound(),
        )->Ok_0;
        self.table.set_arity(own, count as i32);
        proof {
            if scoped(s) {
                lemma_scoped_arity(ps.symbols, own as int, count as i32);
            }
        }
        if !is_kind(peek(ts, self.pos), TokenKind::RParen) {
            return Err(CompileError::MissingCloseParen);
        }
        self.pos = self.pos + 1;
        assert(self.inv(tv));
        self.function_body(ts)
    }

    /// `fun_decl = "function" ID "(" param_list ")" fun_body`, from the
    /// identifier on.
    pub fn fun_declaration(&mut self, ts: &Vec<Token>) -> (r: Result<(), CompileError>)
        requires
            old(self).inv(views(ts@)),
        ensures
            final(self).table@ == if kind_at(views(ts@), old(self).pos as int) != TokenKind::Id {
                old(self).table@
            } else {
                grammar::unit_reach(
                    views(ts@),
                    old(self).pos + 1,
                    old(self).table@,
                    old(self).codes.len() as int,
                    lexeme_at(views(ts@), old(self).pos as int),
                )
            },
            r is Err ==> starts_with(final(self).codes@, old(self).codes@) && old(self).pos
                <= final(self).pos,
            if kind_at(views(ts@), old(self).pos as int) != TokenKind::Id {
                r == Err::<(), CompileError>(CompileError::MissingIdentifier)
            } else {
                match grammar::function_unit(
                    views(ts@),
                    old(self).pos + 1,
                    old(self).table@,
                    old(self).codes.len() as int,
                    lexeme_at(views(ts@), old(self).pos as int),
                ) {
                    Ok(u) => {
                        &&& r is Ok
                        &&& final(self).codes@ == old(self).codes@ + u.code
                        &&& final(self).pos == old(self).pos + 1 + u.len()
                        &&& final(self).table@ == u.symbols
                        &&& final(self).inv(views(ts@))
                        &&& unit_sound(
                            u.code,
                            old(self).codes.len() as int,
                            (2 + u.arity + u.locals) as int,
                            u.low,
                        )
                        &&& declares_unit(
                            u.symbols,
                            old(self).table@,
                            lexeme_at(views(ts@), old(self).pos as int),
                            old(self).codes.len() as int,
                            u.arity,
                        )
                        &&& u.code.len() <= u.len()
                        &&& scoped(old(self).table@) ==> in_function(u.symbols)
                    },
                    Err(x) => {
                        &&& r == Err::<(), CompileError>(x)
                        &&& starts_with(final(self).codes@, old(self).codes@)
                        &&& old(self).pos <= final(self).pos
                    },
                }
            },
    {
        if !is_kind(peek(ts, self.pos), TokenKind::Id) {
            return Err(CompileError::MissingIdentifier);
        }
        let at = self.pos;
        self.pos = self.pos + 1;
        self.function_unit(ts, ts[at].lexeme.as_slice())
    }

    /// `main_decl = "main" "(" param_list ")" fun_body`, from the `(` on:
    /// compiles the function and makes instruction 0 branch to it. Where the
    /// function is not accepted, instruction 0 stays as it was.
    pub fn main_declaration(&mut self, ts: &Vec<Token>) -> (r: Result<(), CompileError>)
        requires
            old(self).inv(views(ts@)),
            old(self).codes.len() >= 1,
        ensures
            final(self).table@ == grammar::unit_reach(
                views(ts@),
                old(self).pos as int,
                old(self).table@,
                old(self).codes.len() as int,
                main_name(),
            ),
            match grammar::function_unit(
                views(ts@),
                old(self).pos as int,
                old(self).table@,
                old(self).codes.len() as int,
                main_name(),
            ) {
                Ok(u) => {
                    &&& r is Ok
                    &&& final(self).codes@ == old(self).codes@.update(
                        0,
                        Code { opt: old(self).codes@[0].opt, operand: old(self).codes.len() as i32 },
                    ) + u.code
                    &&& final(self).pos == old(self).pos + u.len()
                    &&& final(self).table@ == u.symbols
                    &&& final(self).inv(views(ts@))
                    &&& unit_sound(
                        u.code,
                        old(self).codes.len() as int,
                        (2 + u.arity + u.locals) as int,
                        u.low,
                    )
                    &&& declares_unit(
                        u.symbols,
                        old(self).table@,
                        main_name(),
                        old(self).codes.len() as int,
                        u.arity,
                    )
                    &&& u.code.len() <= u.len()
                    &&& scoped(old(self).table@) ==> in_function(u.symbols)
                },
                Err(x) => {
                    &&& r == Err::<(), CompileError>(x)
                    &&& starts_with(final(self).codes@, old(self).codes@)
                    &&& old(self).pos <= final(self).pos
                },
            },
    {
        let entry = self.here();
        let name = main_bytes();
        match self.function_unit(ts, name.as_slice()) {
            Err(e) => {
                return Err(e);
            },
            Ok(_) => {},
        }
        self.patch(0, entry);
        proof {
            let u = grammar::function_unit(
                views(ts@),
                old(self).pos as int,
                old(self).table@,
                old(self).codes.len() as int,
                main_name(),
            )->Ok_0;
            assert(self.codes@ =~= old(self).codes@.update(
                0,
                Code { opt: old(self).codes@[0].opt, operand: entry },
            ) + u.code);
        }
        Ok(())
    }
}

/// The name `main`.
pub fn main_bytes() -> (v: Vec<u8>)
    ensures
        v@ == main_name(),
{
    let v = vec!['m' as u8, 'a' as u8, 'i' as u8, 'n' as u8];
    assert(v@ =~= main_name());
    v
}

/// Every `BR`, `BRF` and `CAL` operand is the index of an instruction.
#[verifier::opaque]
pub open spec fn jumps_inside(code: Seq<Code>) -> bool {
    forall|i: int|
        0 <= i < code.len() && is_jump((#[trigger] code[i]).opt) ==> 0 <= code[i].operand
            < code.len()
}

/// Every `ENTER` is the first instruction of a function, and its operand is
/// 2 more than the function's arity and the number of its local variables
/// together.
#[verifier::opaque]
pub open spec fn frames_reserved(code: Seq<Code>, frames: Seq<Frame>) -> bool {
    forall|i: int|
        0 <= i < code.len() && (#[trigger] code[i]).opt == Opt::ENTER ==> exists|j: int|
            0 <= j < frames.len() && (#[trigger] frames[j]).entry == i && code[i].operand == 2
                + frames[j].arity + frames[j].locals
}

/// No `LOAD` and no `STO` addresses one of the two linkage cells of a frame.
#[verifier::opaque]
pub open spec fn beyond_linkage(code: Seq<Code>) -> bool {
    forall|i: int|
        0 <= i < code.len() && ((#[trigger] code[i]).opt == Opt::LOAD || code[i].opt == Opt::STO)
            ==> code[i].operand >= 2
}

/// The symbol table holds function `f` with the address of its first
/// instruction and its arity.
pub open spec fn recorded(symbols: Symbols, f: Frame) -> bool {
    exists|k: int|
        0 <= k < symbols.entries.len() && is_record(#[trigger] symbols.entries[k], f)
}

/// `entry` is the entry of function `f`: a function of that name, which
/// owns itself, with the function's first instruction as its address and
/// the number of its parameters as its arity.
pub open spec fn is_record(entry: SymbolView, f: Frame) -> bool {
    &&& entry.kind == CategorySymbol::Function
    &&& entry.name == f.name
    &&& entry.owner == f.name
    &&& entry.address == f.entry
    &&& entry.arity == f.arity
}

/// Every function starts with an `ENTER` inside the code and stands in the
/// symbol table with the index of that instruction as its address.
#[verifier::opaque]
pub open spec fn frames_recorded(code: Seq<Code>, frames: Seq<Frame>, symbols: Symbols) -> bool {
    forall|j: int|
        0 <= j < frames.len() ==> 1 <= (#[trigger] frames[j]).entry < code.len()
            && code[frames[j].entry].opt == Opt::ENTER && recorded(symbols, frames[j])
}

/// Instruction 0 is a branch to the first instruction of the last function,
/// which is called `main`.
pub open spec fn starts_at_main(code: Seq<Code>, frames: Seq<Frame>) -> bool {
    &&& frames.len() > 0
    &&& frames.last().name == main_name()
    &&& 1 <= frames.last().entry < code.len()
    &&& code[0].opt == Opt::BR
    &&& code[0].operand == frames.last().entry
    &&& code[frames.last().entry].opt == Opt::ENTER
}

/// What holds of the code and the functions compiled so far.
pub open spec fn linked(code: Seq<Code>, frames: Seq<Frame>, symbols: Symbols, low: bool) -> bool {
    &&& jumps_inside(code)
    &&& frames_reserved(code, frames)
    &&& frames_recorded(code, frames, symbols)
    &&& !low ==> beyond_linkage(code)
}

/// Code that is linked stays linked when one more function is appended.
pub proof fn lemma_link(
    code: Seq<Code>,
    frames: Seq<Frame>,
    symbols: Symbols,
    low: bool,
    unit: Seq<Code>,
    frame: Frame,
    after: Symbols,
    unit_low: bool,
)
    requires
        linked(code, frames, symbols, low),
        code.len() >= 1,
        frame.entry == code.len(),
        unit_sound(unit, code.len() as int, (2 + frame.arity + frame.locals) as int, unit_low),
        declares_unit(after, symbols, frame.name, frame.entry, frame.arity),
        code.len() + unit.len() <= i32::MAX,
    ensures
        linked(code + unit, frames.push(frame), after, low || unit_low),
{
    reveal(jumps_inside);
    reveal(frames_reserved);
    reveal(frames_recorded);
    reveal(beyond_linkage);
    reveal(sound);
    let all = code + unit;
    let more = frames.push(frame);
    assert forall|i: int| 0 <= i < all.len() implies (is_jump((#[trigger] all[i]).opt) ==> 0
        <= all[i].operand < all.len()) && (all[i].opt == Opt::ENTER ==> exists|j: int|
        0 <= j < more.len() && (#[trigger] more[j]).entry == i && all[i].operand == 2
            + more[j].arity + more[j].locals) && (!(low || unit_low) && (all[i].opt == Opt::LOAD
        || all[i].opt == Opt::STO) ==> all[i].operand >= 2) by {
        if i < code.len() {
            assert(all[i] == code[i]);
            if code[i].opt == Opt::ENTER {
                let j = choose|j: int|
                    0 <= j < frames.len() && (#[trigger] frames[j]).entry == i && code[i].operand
                        == 2 + frames[j].arity + frames[j].locals;
                assert(more[j] == frames[j]);
            }
        } else if i == code.len() {
            assert(all[i] == unit[0]);
            assert(more[frames.len() as int] == frame);
        } else {
            assert(all[i] == unit[i - code.len()]);
            assert(unit.skip(1)[i - code.len() - 1] == unit[i - code.len()]);
        }
    }
    assert forall|j: int| 0 <= j < more.len() implies 1 <= (#[trigger] more[j]).entry < all.len()
        && all[more[j].entry].opt == Opt::ENTER && recorded(after, more[j]) by {
        if j < frames.len() {
            assert(more[j] == frames[j]);
            assert(all[frames[j].entry] == code[frames[j].entry]);
            let k = choose|k: int|
                0 <= k < symbols.entries.len() && is_record(
                    #[trigger] symbols.entries[k],
                    frames[j],
                );
            assert(after.entries[k] == symbols.entries[k]);
        } else {
            assert(more[j] == frame);
            assert(all[frame.entry] == unit[0]);
            assert(is_record(after.entries[symbols.entries.len() as int], frame));
        }
    }
}

/// Linked code stays linked when instruction 0, a branch, is pointed at an
/// instruction.
pub proof fn lemma_link_entry(
    code: Seq<Code>,
    frames: Seq<Frame>,
    symbols: Symbols,
    low: bool,
    target: i32,
)
    requires
        linked(code, frames, symbols, low),
        code.len() >= 1,
        code[0].opt == Opt::BR,
        0 <= target < code.len(),
    ensures
        linked(code.update(0, Code { opt: Opt::BR, operand: target }), frames, symbols, low),
{
    reveal(jumps_inside);
    reveal(frames_reserved);
    reveal(frames_recorded);
    reveal(beyond_linkage);
    let all = code.update(0, Code { opt: Opt::BR, operand: target });
    assert forall|i: int| 0 <= i < all.len() && (#[trigger] all[i]).opt == Opt::ENTER implies exists|
        j: int,
    |
        0 <= j < frames.len() && (#[trigger] frames[j]).entry == i && all[i].operand == 2
            + frames[j].arity + frames[j].locals by {
        assert(all[i] == code[i]);
    }
    assert forall|i: int| 0 <= i < all.len() implies (is_jump((#[trigger] all[i]).opt) ==> 0
        <= all[i].operand < all.len()) && (!low && (all[i].opt == Opt::LOAD || all[i].opt
        == Opt::STO) ==> all[i].operand >= 2) by {
        if i > 0 {
            assert(all[i] == code[i]);
        }
    }
    assert forall|j: int| 0 <= j < frames.len() implies 1 <= (#[trigger] frames[j]).entry
        < all.len() && all[frames[j].entry].opt == Opt::ENTER && recorded(symbols, frames[j]) by {
        assert(all[frames[j].entry] == code[frames[j].entry]);
    }
}

impl Compiler {
    /// A compiler that has seen nothing yet.
    pub fn new() -> (c: Compiler)
        ensures
            c.codes@ == Seq::<Code>::empty(),
            c.table@ == grammar::no_symbols(),
            c.pos == 0,
    {
        Compiler { codes: Vec::new(), table: SymbolTable::new(), pos: 0 }
    }

    /// `program = { fun_decl } main_decl`: compiles a whole token stream.
    ///
    /// On the streams that the grammar accepts, the code is the code of the
    /// program and the table holds its symbols; on the others, the first
    /// error comes back. In the code of an accepted program instruction 0
    /// branches to the `ENTER` of `main`, every jump and call stays inside
    /// the code, every `ENTER` reserves the two linkage cells and one cell
    /// for each parameter and local variable of its function, every function
    /// stands in the symbol table with its entry as its address, and no load
    /// or store touches a linkage cell, unless a call passes a symbol that is
    /// stored below address 2.
    ///
    /// Whatever the outcome, the table holds in the end what had been
    /// declared when the compilation stopped.
    pub fn program(&mut self, ts: &Vec<Token>) -> (r: Result<(), CompileError>)
        requires
            old(self).codes@ == Seq::<Code>::empty(),
            old(self).table@ == grammar::no_symbols(),
            old(self).pos == 0,
        ensures
            final(self).table@ == grammar::program_reach(views(ts@)),
            r is Err ==> final(self).codes@.len() == 0 || final(self).codes@[0].opt == Opt::BR,
            match grammar::program(views(ts@)) {
                Ok(p) => {
                    &&& r is Ok
                    &&& final(self).codes@ == p.code
                    &&& final(self).table@ == p.symbols
                    &&& final(self).pos == ts.len()
                    &&& starts_at_main(p.code, p.frames)
                    &&& jumps_inside(p.code)
                    &&& frames_reserved(p.code, p.frames)
                    &&& frames_recorded(p.code, p.frames, p.symbols)
                    &&& !p.low ==> beyond_linkage(p.code)
                    &&& p.symbols.wf()
                    &&& scoped(p.symbols)
                },
                Err(x) => r == Err::<(), CompileError>(x),
            },
    {
        reveal(grammar::functions);
        let ghost tv = views(ts@);
        if ts.len() > MAX_TOKENS {
            return Err(CompileError::ProgramTooLong);
        }
        self.add_code(Opt::BR, 0);
        let ghost whole = grammar::functions(tv, 0, grammar::no_symbols(), 1);
        let ghost done: Seq<Code> = Seq::empty();
        let ghost frames: Seq<Frame> = Seq::empty();
        let ghost low = false;
        let ghost first = Code { opt: Opt::BR, operand: 0 };
        proof {
            assert(self.codes@ =~= seq![first] + done);
            assert(self.table@.wf());
            lemma_scoped_empty(self.table@);
            let rest = grammar::functions(tv, 0, self.table@, 1);
            if rest is Ok {
                assert(done + rest->Ok_0.code =~= rest->Ok_0.code);
                assert(frames + rest->Ok_0.frames =~= rest->Ok_0.frames);
            }
            assert(linked(self.codes@, frames, self.table@, low)) by {
                reveal(jumps_inside);
                reveal(frames_reserved);
                reveal(frames_recorded);
                reveal(beyond_linkage);
            }
        }
        while is_kind(peek(ts, self.pos), TokenKind::Function)
            invariant
                tv == views(ts@),
                whole == grammar::functions(tv, 0, grammar::no_symbols(), 1),
                first == (Code { opt: Opt::BR, operand: 0 }),
                self.inv(tv),
                self.codes@ == seq![first] + done,
                grammar::program_reach(tv) == grammar::functions_reach(
                    tv,
                    self.pos as int,
                    self.table@,
                    self.codes.len() as int,
                ),
                linked(self.codes@, frames, self.table@, low),
                scoped(self.table@),
                match grammar::functions(
                    tv,
                    self.pos as int,
                    self.table@,
                    self.codes.len() as int,
                ) {
                    Ok(rest) => whole == Ok::<grammar::Linked, CompileError>(
                        grammar::Linked {
                            code: done + rest.code,
                            symbols: rest.symbols,
                            frames: frames + rest.frames,
                            low: low || rest.low,
                        },
                    ),
                    Err(x) => whole == Err::<grammar::Linked, CompileError>(x),
                },
            decreases ts.len() - self.pos,
        {
            reveal(grammar::functions);
            let ghost here = self.pos as int;
            let ghost at = self.codes.len() as int;
            let ghost before = self.table@;
            let ghost code_before = self.codes@;
            self.pos = self.pos + 1;
            match self.fun_declaration(ts) {
                Err(e) => {
                    return Err(e);
                },
                Ok(_) => {},
            }
            proof {
                let name = lexeme_at(tv, here + 1);
                let u = grammar::function_unit(tv, here + 2, before, at, name)->Ok_0;
                let frame = Frame { name, entry: at, arity: u.arity, locals: u.locals };
                lemma_link(code_before, frames, before, low, u.code, frame, u.symbols, u.low);
                let earlier = done;
                let earlier_frames = frames;
                done = done + u.code;
                frames = frames.push(frame);
                low = low || u.low;
                assert(self.codes@ =~= seq![first] + done);
                let rest = grammar::functions(
                    tv,
                    self.pos as int,
                    self.table@,
                    self.codes.len() as int,
                );
                if rest is Ok {
                    assert(earlier + (u.code + rest->Ok_0.code) =~= done + rest->Ok_0.code);
                    assert(earlier_frames + (seq![frame] + rest->Ok_0.frames) =~= frames
                        + rest->Ok_0.frames);
                }
            }
        }
        if !is_kind(peek(ts, self.pos), TokenKind::Id) {
            if self.table.symbol.len() > 0 {
                return Err(CompileError::LastMustBeMain);
            }
            return Err(CompileError::MissingIdentifier);
        }
        let name = main_bytes();
        if !bytes_eq(ts[self.pos].lexeme.as_slice(), name.as_slice()) {
            return Err(CompileError::LastMustBeMain);
        }
        let ghost here = self.pos as int;
        let ghost at = self.codes.len() as int;
        let ghost before = self.table@;
        let ghost code_before = self.codes@;
        self.pos = self.pos + 1;
        match self.main_declaration(ts) {
            Err(e) => {
                return Err(e);
            },
            Ok(_) => {},
        }
        if self.pos != ts.len() {
            return Err(CompileError::TrailingTokens);
        }
        proof {
            let u = grammar::function_unit(tv, here + 1, before, at, main_name())->Ok_0;
            let frame = Frame { name: main_name(), entry: at, arity: u.arity, locals: u.locals };
            let p = grammar::program(tv)->Ok_0;
            lemma_link(code_before, frames, before, low, u.code, frame, u.symbols, u.low);
            lemma_link_entry(
                code_before + u.code,
                frames.push(frame),
                u.symbols,
                low || u.low,
                at as i32,
            );
            assert(frames + seq![frame] =~= frames.push(frame));
            assert(self.codes@ =~= (code_before + u.code).update(
                0,
                Code { opt: Opt::BR, operand: at as i32 },
            ));
            assert(self.codes@ =~= p.code);
            assert(p.frames.last() == frame);
            assert(p.code[at] == u.code[0]);
        }
        Ok(())
    }

    /// Compiles a token stream into code.
    ///
    /// The result is the code of the program where the grammar accepts the
    /// stream, and the first error where it does not. What
    /// [`Compiler::program`] promises of the code holds of it.
    pub fn test_parse(ts: &Vec<Token>) -> (r: Result<Vec<Code>, CompileError>)
        ensures
            match grammar::program(views(ts@)) {
                Ok(p) => {
                    &&& r is Ok
                    &&& r->Ok_0@ == p.code
                    &&& starts_at_main(p.code, p.frames)
                    &&& jumps_inside(p.code)
                    &&& frames_reserved(p.code, p.frames)
                    &&& frames_recorded(p.code, p.frames, p.symbols)
                    &&& !p.low ==> beyond_linkage(p.code)
                    &&& p.symbols.wf()
                    &&& scoped(p.symbols)
                },
                Err(x) => r == Err::<Vec<Code>, CompileError>(x),
            },
    {
        let mut compiler = Compiler::new();
        match compiler.program(ts) {
            Err(e) => Err(e),
            Ok(_) => Ok(compiler.codes),
        }
    }
}

} // verus!
