//! Tokens: the words of the source language.

use vstd::prelude::*;

verus! {

/// The category of a token.
#[derive(Debug, Clone, Copy, PartialEq, Eq, Hash, Structural)]
pub enum TokenKind {
    /// An identifier.
    Id,
    /// A run of decimal digits.
    Num,
    Int,
    If,
    Else,
    While,
    For,
    Read,
    Write,
    Function,
    Call,
    Plus,
    Minus,
    Star,
    Slash,
    LParen,
    RParen,
    Semicolon,
    Comma,
    Colon,
    LBrace,
    RBrace,
    Less,
    Greater,
    Assign,
    Not,
    LessEq,
    GreaterEq,
    Equal,
    NotEqual,
    /// What stands behind the last token of a stream. A stream that is read
    /// from text also holds it where a line names no category of the language.
    End,
}

/// A token: its category and the text it was read from.
#[derive(Debug, Clone, PartialEq, Eq)]
pub struct Token {
    pub kind: TokenKind,
    pub lexeme: Vec<u8>,
}

/// A token as a mathematical value.
pub struct TokenView {
    pub kind: TokenKind,
    pub lexeme: Seq<u8>,
}

impl View for Token {
    type V = TokenView;

    open spec fn view(&self) -> TokenView {
        TokenView { kind: self.kind, lexeme: self.lexeme@ }
    }
}

/// A token stream as a sequence of mathematical values.
pub open spec fn views(tokens: Seq<Token>) -> Seq<TokenView> {
    tokens.map_values(|t: Token| t@)
}

/// The category of the token at position `p`; `End` outside the stream.
pub open spec fn kind_at(ts: Seq<TokenView>, p: int) -> TokenKind {
    if 0 <= p < ts.len() {
        ts[p].kind
    } else {
        TokenKind::End
    }
}

/// The text of the token at position `p`; empty outside the stream.
pub open spec fn lexeme_at(ts: Seq<TokenView>, p: int) -> Seq<u8> {
    if 0 <= p < ts.len() {
        ts[p].lexeme
    } else {
        Seq::empty()
    }
}

/// The number of tokens from position `p` on.
pub open spec fn remaining(ts: Seq<TokenView>, p: int) -> nat {
    if p < ts.len() {
        (ts.len() - p) as nat
    } else {
        0
    }
}

impl Token {
    /// A token of the given category and text.
    pub fn new(kind: TokenKind, lexeme: Vec<u8>) -> (t: Token)
        ensures
            t@ == (TokenView { kind, lexeme: lexeme@ }),
    {
        Token { kind, lexeme }
    }
}

} // verus!
