//! The lexer: source text to tokens.
//!
//! The source is a string of bytes. Letters are the ASCII letters; white
//! space is the space and the control characters from tab to carriage
//! return. A byte that starts no token and is no white space is illegal:
//! the lexer stops there, with the tokens that stand before it.

use crate::text::{bytes_eq, bytes_part, is_digit, is_space, space, spaces};
use crate::token::{Token, TokenKind, TokenView};
use vstd::prelude::*;

verus! {

/// Why a source text was rejected.
#[derive(Debug, Clone, Copy, PartialEq, Eq, Structural)]
pub enum LexError {
    /// The byte `ch` in line `row` starts no token. Lines count from 1.
    IllegalCharacter { ch: u8, row: usize },
}

/// The ASCII letters.
pub open spec fn is_letter(b: u8) -> bool {
    65 <= b <= 90 || 97 <= b <= 122
}

/// Letters and digits.
pub open spec fn is_alphanumeric(b: u8) -> bool {
    is_letter(b) || is_digit(b)
}

/// The punctuators of one character: `+ - * / ( ) ; , : { }`.
pub open spec fn single_word(b: u8) -> bool {
    b == '+' as u8 || b == '-' as u8 || b == '*' as u8 || b == '/' as u8 || b == '(' as u8 || b
        == ')' as u8 || b == ';' as u8 || b == ',' as u8 || b == ':' as u8 || b == '{' as u8 || b
        == '}' as u8
}

/// The characters that form an operator alone or with a following `=`:
/// `< > = !`.
pub open spec fn double_word(b: u8) -> bool {
    b == '<' as u8 || b == '>' as u8 || b == '=' as u8 || b == '!' as u8
}

/// The number of letters and digits from position `p` on.
pub open spec fn alphanumeric_run(src: Seq<u8>, p: int) -> nat
    decreases src.len() - p,
{
    if 0 <= p < src.len() && is_alphanumeric(src[p]) {
        1 + alphanumeric_run(src, p + 1)
    } else {
        0
    }
}

/// The number of digits from position `p` on.
pub open spec fn digit_run(src: Seq<u8>, p: int) -> nat
    decreases src.len() - p,
{
    if 0 <= p < src.len() && is_digit(src[p]) {
        1 + digit_run(src, p + 1)
    } else {
        0
    }
}

/// The length of the longest token that starts at position `p`; 0 where
/// none does.
pub open spec fn lexeme_len(src: Seq<u8>, p: int) -> nat {
    if !(0 <= p < src.len()) {
        0
    } else if is_letter(src[p]) {
        1 + alphanumeric_run(src, p + 1)
    } else if is_digit(src[p]) {
        1 + digit_run(src, p + 1)
    } else if single_word(src[p]) {
        1
    } else if double_word(src[p]) {
        if p + 1 < src.len() && src[p + 1] == '=' as u8 {
            2
        } else {
            1
        }
    } else {
        0
    }
}

/// A letter in lower case; any other byte as it is.
pub open spec fn lower(b: u8) -> u8 {
    if 65 <= b <= 90 {
        (b + 32) as u8
    } else {
        b
    }
}

/// The text of a reserved word.
pub open spec fn keyword_text(k: TokenKind) -> Seq<u8> {
    match k {
        TokenKind::Int => seq!['i' as u8, 'n' as u8, 't' as u8],
        TokenKind::If => seq!['i' as u8, 'f' as u8],
        TokenKind::Else => seq!['e' as u8, 'l' as u8, 's' as u8, 'e' as u8],
        TokenKind::While => seq!['w' as u8, 'h' as u8, 'i' as u8, 'l' as u8, 'e' as u8],
        TokenKind::For => seq!['f' as u8, 'o' as u8, 'r' as u8],
        TokenKind::Read => seq!['r' as u8, 'e' as u8, 'a' as u8, 'd' as u8],
        TokenKind::Write => seq!['w' as u8, 'r' as u8, 'i' as u8, 't' as u8, 'e' as u8],
        TokenKind::Function => seq![
            'f' as u8,
            'u' as u8,
            'n' as u8,
            'c' as u8,
            't' as u8,
            'i' as u8,
            'o' as u8,
            'n' as u8,
        ],
        TokenKind::Call => seq!['c' as u8, 'a' as u8, 'l' as u8, 'l' as u8],
        _ => Seq::empty(),
    }
}

/// Whether `word` is the reserved word `k` in whatever case.
pub open spec fn spells(word: Seq<u8>, k: TokenKind) -> bool {
    word.map_values(|b: u8| lower(b)) == keyword_text(k)
}

/// The category of a word: the reserved word that it spells, or an
/// identifier.
pub open spec fn word_kind(word: Seq<u8>) -> TokenKind {
    if spells(word, TokenKind::Int) {
        TokenKind::Int
    } else if spells(word, TokenKind::If) {
        TokenKind::If
    } else if spells(word, TokenKind::While) {
        TokenKind::While
    } else if spells(word, TokenKind::For) {
        TokenKind::For
    } else if spells(word, TokenKind::Else) {
        TokenKind::Else
    } else if spells(word, TokenKind::Read) {
        TokenKind::Read
    } else if spells(word, TokenKind::Write) {
        TokenKind::Write
    } else if spells(word, TokenKind::Function) {
        TokenKind::Function
    } else if spells(word, TokenKind::Call) {
        TokenKind::Call
    } else {
        TokenKind::Id
    }
}

/// The category of a punctuator.
pub open spec fn punctuator_kind(b: u8) -> TokenKind {
    if b == '+' as u8 {
        TokenKind::Plus
    } else if b == '-' as u8 {
        TokenKind::Minus
    } else if b == '*' as u8 {
        TokenKind::Star
    } else if b == '/' as u8 {
        TokenKind::Slash
    } else if b == '(' as u8 {
        TokenKind::LParen
    } else if b == ')' as u8 {
        TokenKind::RParen
    } else if b == ';' as u8 {
        TokenKind::Semicolon
    } else if b == ',' as u8 {
        TokenKind::Comma
    } else if b == ':' as u8 {
        TokenKind::Colon
    } else if b == '{' as u8 {
        TokenKind::LBrace
    } else {
        TokenKind::RBrace
    }
}

/// The category of an operator that starts with `b`, alone or with `=`.
pub open spec fn operator_kind(b: u8, with_equals: bool) -> TokenKind {
    if b == '<' as u8 {
        if with_equals {
            TokenKind::LessEq
        } else {
            TokenKind::Less
        }
    } else if b == '>' as u8 {
        if with_equals {
            TokenKind::GreaterEq
        } else {
            TokenKind::Greater
        }
    } else if b == '=' as u8 {
        if with_equals {
            TokenKind::Equal
        } else {
            TokenKind::Assign
        }
    } else {
        if with_equals {
            TokenKind::NotEqual
        } else {
            TokenKind::Not
        }
    }
}

/// The category of a token from its text.
pub open spec fn lexeme_kind(lexeme: Seq<u8>) -> TokenKind {
    if lexeme.len() == 0 {
        TokenKind::End
    } else if is_letter(lexeme[0]) {
        word_kind(lexeme)
    } else if is_digit(lexeme[0]) {
        TokenKind::Num
    } else if single_word(lexeme[0]) {
        punctuator_kind(lexeme[0])
    } else {
        operator_kind(lexeme[0], lexeme.len() == 2)
    }
}

/// The number of line feeds in `s`.
pub open spec fn line_feeds(s: Seq<u8>) -> nat
    decreases s.len(),
{
    if s.len() == 0 {
        0
    } else {
        line_feeds(s.drop_last()) + if s.last() == 10 {
            1nat
        } else {
            0nat
        }
    }
}

/// The number of bytes from position `p` on.
pub open spec fn unread(src: Seq<u8>, p: int) -> nat {
    if p < src.len() {
        (src.len() - p) as nat
    } else {
        0
    }
}

/// The tokens of `src` from position `p` on: white space is skipped, and
/// each token is the longest that starts where it starts. An illegal
/// character is reported with the line it stands in.
pub open spec fn tokens_from(src: Seq<u8>, p: int) -> Result<Seq<TokenView>, LexError>
    decreases unread(src, p),
{
    let q = p + spaces(src, p);
    if p < 0 || q >= src.len() {
        Ok(Seq::empty())
    } else if lexeme_len(src, q) == 0 {
        Err(
            LexError::IllegalCharacter {
                ch: src[q],
                row: (1 + line_feeds(src.take(q))) as usize,
            },
        )
    } else {
        let lexeme = src.subrange(q, q + lexeme_len(src, q));
        match tokens_from(src, q + lexeme_len(src, q)) {
            Err(e) => Err(e),
            Ok(rest) => Ok(seq![TokenView { kind: lexeme_kind(lexeme), lexeme }] + rest),
        }
    }
}

/// The tokens of a source text.
pub open spec fn tokens_of(src: Seq<u8>) -> Result<Seq<TokenView>, LexError> {
    tokens_from(src, 0)
}

/// The tokens of `src` from position `p` on that stand before the first
/// illegal character; all of them where there is none.
pub open spec fn tokens_before(src: Seq<u8>, p: int) -> Seq<TokenView>
    decreases unread(src, p),
{
    let q = p + spaces(src, p);
    if p < 0 || q >= src.len() || lexeme_len(src, q) == 0 {
        Seq::empty()
    } else {
        let lexeme = src.subrange(q, q + lexeme_len(src, q));
        seq![TokenView { kind: lexeme_kind(lexeme), lexeme }] + tokens_before(
            src,
            q + lexeme_len(src, q),
        )
    }
}

/// Whether `ch` is a punctuator of one character.
pub fn is_single_word(ch: u8) -> (b: bool)
    ensures
        b == single_word(ch),
{
    ch == '+' as u8 || ch == '-' as u8 || ch == '*' as u8 || ch == '/' as u8 || ch == '(' as u8
        || ch == ')' as u8 || ch == ';' as u8 || ch == ',' as u8 || ch == ':' as u8 || ch
        == '{' as u8 || ch == '}' as u8
}

/// Whether `ch` starts an operator of one or two characters.
pub fn is_double_word(ch: u8) -> (b: bool)
    ensures
        b == double_word(ch),
{
    ch == '<' as u8 || ch == '>' as u8 || ch == '=' as u8 || ch == '!' as u8
}

fn letter(b: u8) -> (r: bool)
    ensures
        r == is_letter(b),
{
    (65 <= b && b <= 90) || (97 <= b && b <= 122)
}

fn digit(b: u8) -> (r: bool)
    ensures
        r == is_digit(b),
{
    48 <= b && b <= 57
}

/// The text of a reserved word.
fn keyword(k: TokenKind) -> (v: Vec<u8>)
    ensures
        v@ == keyword_text(k),
{
    let v = match k {
        TokenKind::Int => vec!['i' as u8, 'n' as u8, 't' as u8],
        TokenKind::If => vec!['i' as u8, 'f' as u8],
        TokenKind::Else => vec!['e' as u8, 'l' as u8, 's' as u8, 'e' as u8],
        TokenKind::While => vec!['w' as u8, 'h' as u8, 'i' as u8, 'l' as u8, 'e' as u8],
        TokenKind::For => vec!['f' as u8, 'o' as u8, 'r' as u8],
        TokenKind::Read => vec!['r' as u8, 'e' as u8, 'a' as u8, 'd' as u8],
        TokenKind::Write => vec!['w' as u8, 'r' as u8, 'i' as u8, 't' as u8, 'e' as u8],
        TokenKind::Function => vec![
            'f' as u8,
            'u' as u8,
            'n' as u8,
            'c' as u8,
            't' as u8,
            'i' as u8,
            'o' as u8,
            'n' as u8,
        ],
        TokenKind::Call => vec!['c' as u8, 'a' as u8, 'l' as u8, 'l' as u8],
        _ => Vec::new(),
    };
    assert(v@ =~= keyword_text(k));
    v
}

/// Whether `word` is the reserved word `k` in whatever case.
fn is_keyword(word: &[u8], k: TokenKind) -> (r: bool)
    ensures
        r == spells(word@, k),
{
    let text = keyword(k);
    let mut lowered: Vec<u8> = Vec::new();
    let mut i: usize = 0;
    while i < word.len()
        invariant
            i <= word.len(),
            lowered.len() == i,
            forall|j: int| 0 <= j < i ==> lowered[j] == lower(word[j]),
        decreases word.len() - i,
    {
        let b = word[i];
        lowered.push(
            if 65 <= b && b <= 90 {
                b + 32
            } else {
                b
            },
        );
        i += 1;
    }
    assert(lowered@ =~= word@.map_values(|b: u8| lower(b)));
    bytes_eq(lowered.as_slice(), text.as_slice())
}

/// The category of a word.
fn classify_word(word: &[u8]) -> (k: TokenKind)
    ensures
        k == word_kind(word@),
{
    if is_keyword(word, TokenKind::Int) {
        TokenKind::Int
    } else if is_keyword(word, TokenKind::If) {
        TokenKind::If
    } else if is_keyword(word, TokenKind::While) {
        TokenKind::While
    } else if is_keyword(word, TokenKind::For) {
        TokenKind::For
    } else if is_keyword(word, TokenKind::Else) {
        TokenKind::Else
    } else if is_keyword(word, TokenKind::Read) {
        TokenKind::Read
    } else if is_keyword(word, TokenKind::Write) {
        TokenKind::Write
    } else if is_keyword(word, TokenKind::Function) {
        TokenKind::Function
    } else if is_keyword(word, TokenKind::Call) {
        TokenKind::Call
    } else {
        TokenKind::Id
    }
}

/// The category of a punctuator.
fn classify_punctuator(b: u8) -> (k: TokenKind)
    ensures
        k == punctuator_kind(b),
{
    if b == '+' as u8 {
        TokenKind::Plus
    } else if b == '-' as u8 {
        TokenKind::Minus
    } else if b == '*' as u8 {
        TokenKind::Star
    } else if b == '/' as u8 {
        TokenKind::Slash
    } else if b == '(' as u8 {
        TokenKind::LParen
    } else if b == ')' as u8 {
        TokenKind::RParen
    } else if b == ';' as u8 {
        TokenKind::Semicolon
    } else if b == ',' as u8 {
        TokenKind::Comma
    } else if b == ':' as u8 {
        TokenKind::Colon
    } else if b == '{' as u8 {
        TokenKind::LBrace
    } else {
        TokenKind::RBrace
    }
}

/// The category of an operator.
fn classify_operator(b: u8, with_equals: bool) -> (k: TokenKind)
    ensures
        k == operator_kind(b, with_equals),
{
    if b == '<' as u8 {
        if with_equals {
            TokenKind::LessEq
        } else {
            TokenKind::Less
        }
    } else if b == '>' as u8 {
        if with_equals {
            TokenKind::GreaterEq
        } else {
            TokenKind::Greater
        }
    } else if b == '=' as u8 {
        if with_equals {
            TokenKind::Equal
        } else {
            TokenKind::Assign
        }
    } else {
        if with_equals {
            TokenKind::NotEqual
        } else {
            TokenKind::Not
        }
    }
}

/// What stands at a position of the source, white space aside.
#[derive(Debug)]
pub enum Word {
    /// Nothing but white space is left.
    End,
    /// A token, and the position behind it.
    Found { token: Token, next: usize },
    /// A byte that starts no token, and its position.
    Illegal { ch: u8, at: usize },
}

/// Skips white space from `pos` on and reads the token that follows.
pub fn compile_word(src: &[u8], pos: usize) -> (w: Word)
    ensures
        ({
            let q = pos + spaces(src@, pos as int);
            match w {
                Word::End => q >= src.len(),
                Word::Found { token, next } => {
                    &&& q < src.len()
                    &&& lexeme_len(src@, q) > 0
                    &&& next == q + lexeme_len(src@, q)
                    &&& next <= src.len()
                    &&& token@.lexeme == src@.subrange(q, next as int)
                    &&& token@.kind == lexeme_kind(token@.lexeme)
                },
                Word::Illegal { ch, at } => {
                    &&& q < src.len()
                    &&& lexeme_len(src@, q) == 0
                    &&& at == q
                    &&& ch == src[q]
                },
            }
        }),
{
    if pos >= src.len() {
        return Word::End;
    }
    let mut q: usize = pos;
    while q < src.len() && space(src[q])
        invariant
            pos <= q <= src.len(),
            pos + spaces(src@, pos as int) == q + spaces(src@, q as int),
        decreases src.len() - q,
    {
        q += 1;
    }
    if q >= src.len() {
        return Word::End;
    }
    let ch = src[q];
    if letter(ch) {
        let mut end: usize = q + 1;
        while end < src.len() && (letter(src[end]) || digit(src[end]))
            invariant
                q < end <= src.len(),
                alphanumeric_run(src@, q + 1) == (end - q - 1) + alphanumeric_run(src@, end as int),
            decreases src.len() - end,
        {
            end += 1;
        }
        let lexeme = bytes_part(src, q, end);
        let kind = classify_word(lexeme.as_slice());
        Word::Found { token: Token { kind, lexeme }, next: end }
    } else if digit(ch) {
        let mut end: usize = q + 1;
        while end < src.len() && digit(src[end])
            invariant
                q < end <= src.len(),
                digit_run(src@, q + 1) == (end - q - 1) + digit_run(src@, end as int),
            decreases src.len() - end,
        {
            end += 1;
        }
        let lexeme = bytes_part(src, q, end);
        Word::Found { token: Token { kind: TokenKind::Num, lexeme }, next: end }
    } else if is_single_word(ch) {
        let lexeme = bytes_part(src, q, q + 1);
        Word::Found { token: Token { kind: classify_punctuator(ch), lexeme }, next: q + 1 }
    } else if is_double_word(ch) {
        let with_equals = q + 1 < src.len() && src[q + 1] == '=' as u8;
        let end: usize = if with_equals {
            q + 2
        } else {
            q + 1
        };
        let lexeme = bytes_part(src, q, end);
        Word::Found { token: Token { kind: classify_operator(ch, with_equals), lexeme }, next: end }
    } else {
        Word::Illegal { ch, at: q }
    }
}

/// The number of the line that position `at` stands in, counted from 1.
pub fn row_of(src: &[u8], at: usize) -> (row: usize)
    requires
        at < src.len(),
    ensures
        row == 1 + line_feeds(src@.take(at as int)),
{
    let mut row: usize = 1;
    let mut i: usize = 0;
    while i < at
        invariant
            i <= at < src.len(),
            row == 1 + line_feeds(src@.take(i as int)),
            row <= i + 1,
        decreases at - i,
    {
        assert(src@.take(i + 1).drop_last() =~= src@.take(i as int));
        if src[i] == 10 {
            row += 1;
        }
        i += 1;
    }
    row
}

/// What a scan of a source text found: the tokens up to the first illegal
/// character, and that character, if there is one.
#[derive(Debug)]
pub struct Scanned {
    pub tokens: Vec<Token>,
    pub error: Option<LexError>,
}

/// Reads the tokens of a source text up to its end or to the first illegal
/// character, and hands back what it read together with the error.
pub fn scan(src: &[u8]) -> (r: Scanned)
    ensures
        crate::token::views(r.tokens@) == tokens_before(src@, 0),
        match tokens_of(src@) {
            Ok(ts) => r.error is None && crate::token::views(r.tokens@) == ts,
            Err(e) => r.error == Some(e),
        },
{
    let mut tokens: Vec<Token> = Vec::new();
    let mut pos: usize = 0;
    let ghost done: Seq<TokenView> = Seq::empty();
    proof {
        let rest = tokens_from(src@, 0);
        if rest is Ok {
            assert(done + rest->Ok_0 =~= rest->Ok_0);
        }
        assert(done + tokens_before(src@, 0) =~= tokens_before(src@, 0));
        assert(crate::token::views(tokens@) =~= done);
    }
    loop
        invariant
            pos <= src.len(),
            crate::token::views(tokens@) == done,
            tokens_before(src@, 0) == done + tokens_before(src@, pos as int),
            match tokens_from(src@, pos as int) {
                Ok(rest) => tokens_of(src@) == Ok::<Seq<TokenView>, LexError>(done + rest),
                Err(e) => tokens_of(src@) == Err::<Seq<TokenView>, LexError>(e),
            },
        decreases src.len() - pos,
    {
        match compile_word(src, pos) {
            Word::End => {
                proof {
                    assert(done + Seq::<TokenView>::empty() =~= done);
                }
                return Scanned { tokens, error: None };
            },
            Word::Illegal { ch, at } => {
                let row = row_of(src, at);
                proof {
                    assert(done + Seq::<TokenView>::empty() =~= done);
                }
                return Scanned { tokens, error: Some(LexError::IllegalCharacter { ch, row }) };
            },
            Word::Found { token, next } => {
                proof {
                    let rest = tokens_from(src@, next as int);
                    let earlier = done;
                    done = done.push(token@);
                    if rest is Ok {
                        assert(earlier + (seq![token@] + rest->Ok_0) =~= done + rest->Ok_0);
                    }
                    assert(earlier + (seq![token@] + tokens_before(src@, next as int)) =~= done
                        + tokens_before(src@, next as int));
                    assert(crate::token::views(tokens@.push(token)) =~= done);
                }
                tokens.push(token);
                pos = next;
            },
        }
    }
}

/// Splits a source text into its tokens.
pub fn tokenize(src: &[u8]) -> (r: Result<Vec<Token>, LexError>)
    ensures
        match tokens_of(src@) {
            Ok(ts) => r is Ok && crate::token::views(r->Ok_0@) == ts,
            Err(e) => r == Err::<Vec<Token>, LexError>(e),
        },
{
    let scanned = scan(src);
    match scanned.error {
        None => Ok(scanned.tokens),
        Some(e) => Err(e),
    }
}

} // verus!
