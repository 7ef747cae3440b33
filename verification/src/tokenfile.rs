//! The token stream as text: one token in each line, its category and its
//! text, set apart by white space.

use crate::lexer::{
    alphanumeric_run, digit_run, is_alphanumeric, keyword_text, lexeme_kind, lexeme_len,
    tokens_from, tokens_of, unread,
};
use crate::text::{append_bytes, bytes_eq, bytes_part, is_digit, is_space, space, spaces};
use crate::token::{views, Token, TokenKind, TokenView};
use vstd::prelude::*;

verus! {

/// The name by which a category is written.
///
/// A reserved word is written as itself, a punctuator and an operator as
/// itself, an identifier as `ID` and a number as `NUM`. `End` has no name.
pub open spec fn category_text(k: TokenKind) -> Seq<u8> {
    match k {
        TokenKind::Id => seq!['I' as u8, 'D' as u8],
        TokenKind::Num => seq!['N' as u8, 'U' as u8, 'M' as u8],
        TokenKind::Plus => seq!['+' as u8],
        TokenKind::Minus => seq!['-' as u8],
        TokenKind::Star => seq!['*' as u8],
        TokenKind::Slash => seq!['/' as u8],
        TokenKind::LParen => seq!['(' as u8],
        TokenKind::RParen => seq![')' as u8],
        TokenKind::Semicolon => seq![';' as u8],
        TokenKind::Comma => seq![',' as u8],
        TokenKind::Colon => seq![':' as u8],
        TokenKind::LBrace => seq!['{' as u8],
        TokenKind::RBrace => seq!['}' as u8],
        TokenKind::Less => seq!['<' as u8],
        TokenKind::Greater => seq!['>' as u8],
        TokenKind::Assign => seq!['=' as u8],
        TokenKind::Not => seq!['!' as u8],
        TokenKind::LessEq => seq!['<' as u8, '=' as u8],
        TokenKind::GreaterEq => seq!['>' as u8, '=' as u8],
        TokenKind::Equal => seq!['=' as u8, '=' as u8],
        TokenKind::NotEqual => seq!['!' as u8, '=' as u8],
        TokenKind::End => Seq::empty(),
        _ => keyword_text(k),
    }
}

/// The line of a token: a tab, the category, two tabs, the text of the
/// token, and a line feed.
pub open spec fn token_line(t: TokenView) -> Seq<u8> {
    seq![9u8] + category_text(t.kind) + seq![9u8, 9u8] + t.lexeme + seq![10u8]
}

/// The text of a token stream: the lines of its tokens.
pub open spec fn token_text(ts: Seq<TokenView>) -> Seq<u8>
    decreases ts.len(),
{
    if ts.len() == 0 {
        Seq::empty()
    } else {
        token_text(ts.drop_last()) + token_line(ts.last())
    }
}

/// The category that is written as `name`; `End` where none is.
pub open spec fn category_kind(name: Seq<u8>) -> TokenKind {
    if name == category_text(TokenKind::Id) {
        TokenKind::Id
    } else if name == category_text(TokenKind::Num) {
        TokenKind::Num
    } else if name == category_text(TokenKind::Int) {
        TokenKind::Int
    } else if name == category_text(TokenKind::If) {
        TokenKind::If
    } else if name == category_text(TokenKind::Else) {
        TokenKind::Else
    } else if name == category_text(TokenKind::While) {
        TokenKind::While
    } else if name == category_text(TokenKind::For) {
        TokenKind::For
    } else if name == category_text(TokenKind::Read) {
        TokenKind::Read
    } else if name == category_text(TokenKind::Write) {
        TokenKind::Write
    } else if name == category_text(TokenKind::Function) {
        TokenKind::Function
    } else if name == category_text(TokenKind::Call) {
        TokenKind::Call
    } else if name == category_text(TokenKind::Plus) {
        TokenKind::Plus
    } else if name == category_text(TokenKind::Minus) {
        TokenKind::Minus
    } else if name == category_text(TokenKind::Star) {
        TokenKind::Star
    } else if name == category_text(TokenKind::Slash) {
        TokenKind::Slash
    } else if name == category_text(TokenKind::LParen) {
        TokenKind::LParen
    } else if name == category_text(TokenKind::RParen) {
        TokenKind::RParen
    } else if name == category_text(TokenKind::Semicolon) {
        TokenKind::Semicolon
    } else if name == category_text(TokenKind::Comma) {
        TokenKind::Comma
    } else if name == category_text(TokenKind::Colon) {
        TokenKind::Colon
    } else if name == category_text(TokenKind::LBrace) {
        TokenKind::LBrace
    } else if name == category_text(TokenKind::RBrace) {
        TokenKind::RBrace
    } else if name == category_text(TokenKind::Less) {
        TokenKind::Less
    } else if name == category_text(TokenKind::Greater) {
        TokenKind::Greater
    } else if name == category_text(TokenKind::Assign) {
        TokenKind::Assign
    } else if name == category_text(TokenKind::Not) {
        TokenKind::Not
    } else if name == category_text(TokenKind::LessEq) {
        TokenKind::LessEq
    } else if name == category_text(TokenKind::GreaterEq) {
        TokenKind::GreaterEq
    } else if name == category_text(TokenKind::Equal) {
        TokenKind::Equal
    } else if name == category_text(TokenKind::NotEqual) {
        TokenKind::NotEqual
    } else {
        TokenKind::End
    }
}

/// The number of bytes of `line` from position `p` on that are no white
/// space.
pub open spec fn solid(line: Seq<u8>, p: int) -> nat
    decreases line.len() - p,
{
    if 0 <= p < line.len() && !is_space(line[p]) {
        1 + solid(line, p + 1)
    } else {
        0
    }
}

/// The token that a line holds: its first field names the category, its
/// second field is the text. A field that is missing is empty.
pub open spec fn line_token(line: Seq<u8>) -> TokenView {
    let a = spaces(line, 0) as int;
    let b = a + solid(line, a);
    let c = b + spaces(line, b);
    let d = c + solid(line, c);
    TokenView { kind: category_kind(line.subrange(a, b)), lexeme: line.subrange(c, d) }
}

/// The number of bytes of `text` from position `p` on up to the next line
/// feed.
pub open spec fn line_len(text: Seq<u8>, p: int) -> nat
    decreases text.len() - p,
{
    if 0 <= p < text.len() && text[p] != 10 {
        1 + line_len(text, p + 1)
    } else {
        0
    }
}

/// The tokens of the lines of `text` from position `p` on, one for each
/// line.
pub open spec fn tokens_in(text: Seq<u8>, p: int) -> Seq<TokenView>
    decreases unread(text, p),
{
    if p < 0 || p >= text.len() {
        Seq::empty()
    } else {
        seq![line_token(text.subrange(p, p + line_len(text, p)))] + tokens_in(
            text,
            p + line_len(text, p) + 1,
        )
    }
}

/// A token that its line gives back: its category has a name, and its text
/// is not empty and holds no white space.
pub open spec fn printable(t: TokenView) -> bool {
    &&& t.kind != TokenKind::End
    &&& t.lexeme.len() > 0
    &&& forall|i: int| 0 <= i < t.lexeme.len() ==> !is_space(#[trigger] t.lexeme[i])
}

/// The name of a category is not empty, holds no white space, and is the
/// name of no other category.
pub proof fn lemma_category_names(k: TokenKind)
    requires
        k != TokenKind::End,
    ensures
        category_text(k).len() > 0,
        forall|i: int| 0 <= i < category_text(k).len() ==> !is_space(#[trigger] category_text(k)[i]),
        category_kind(category_text(k)) == k,
{
    assert(category_text(TokenKind::Id).len() == 2 && category_text(TokenKind::Id)[0] == 73 && category_text(TokenKind::Id)[1] == 68);
    assert(category_text(TokenKind::Num).len() == 3 && category_text(TokenKind::Num)[0] == 78 && category_text(TokenKind::Num)[1] == 85 && category_text(TokenKind::Num)[2] == 77);
    assert(category_text(TokenKind::Int).len() == 3 && category_text(TokenKind::Int)[0] == 105 && category_text(TokenKind::Int)[1] == 110 && category_text(TokenKind::Int)[2] == 116);
    assert(category_text(TokenKind::If).len() == 2 && category_text(TokenKind::If)[0] == 105 && category_text(TokenKind::If)[1] == 102);
    assert(category_text(TokenKind::Else).len() == 4 && category_text(TokenKind::Else)[0] == 101 && category_text(TokenKind::Else)[1] == 108 && category_text(TokenKind::Else)[2] == 115 && category_text(TokenKind::Else)[3] == 101);
    assert(category_text(TokenKind::While).len() == 5 && category_text(TokenKind::While)[0] == 119 && category_text(TokenKind::While)[1] == 104 && category_text(TokenKind::While)[2] == 105 && category_text(TokenKind::While)[3] == 108 && category_text(TokenKind::While)[4] == 101);
    assert(category_text(TokenKind::For).len() == 3 && category_text(TokenKind::For)[0] == 102 && category_text(TokenKind::For)[1] == 111 && category_text(TokenKind::For)[2] == 114);
    assert(category_text(TokenKind::Read).len() == 4 && category_text(TokenKind::Read)[0] == 114 && category_text(TokenKind::Read)[1] == 101 && category_text(TokenKind::Read)[2] == 97 && category_text(TokenKind::Read)[3] == 100);
    assert(category_text(TokenKind::Write).len() == 5 && category_text(TokenKind::Write)[0] == 119 && category_text(TokenKind::Write)[1] == 114 && category_text(TokenKind::Write)[2] == 105 && category_text(TokenKind::Write)[3] == 116 && category_text(TokenKind::Write)[4] == 101);
    assert(category_text(TokenKind::Function).len() == 8 && category_text(TokenKind::Function)[0] == 102 && category_text(TokenKind::Function)[1] == 117 && category_text(TokenKind::Function)[2] == 110 && category_text(TokenKind::Function)[3] == 99 && category_text(TokenKind::Function)[4] == 116 && category_text(TokenKind::Function)[5] == 105 && category_text(TokenKind::Function)[6] == 111 && category_text(TokenKind::Function)[7] == 110);
    assert(category_text(TokenKind::Call).len() == 4 && category_text(TokenKind::Call)[0] == 99 && category_text(TokenKind::Call)[1] == 97 && category_text(TokenKind::Call)[2] == 108 && category_text(TokenKind::Call)[3] == 108);
    assert(category_text(TokenKind::Plus).len() == 1 && category_text(TokenKind::Plus)[0] == 43);
    assert(category_text(TokenKind::Minus).len() == 1 && category_text(TokenKind::Minus)[0] == 45);
    assert(category_text(TokenKind::Star).len() == 1 && category_text(TokenKind::Star)[0] == 42);
    assert(category_text(TokenKind::Slash).len() == 1 && category_text(TokenKind::Slash)[0] == 47);
    assert(category_text(TokenKind::LParen).len() == 1 && category_text(TokenKind::LParen)[0] == 40);
    assert(category_text(TokenKind::RParen).len() == 1 && category_text(TokenKind::RParen)[0] == 41);
    assert(category_text(TokenKind::Semicolon).len() == 1 && category_text(TokenKind::Semicolon)[0] == 59);
    assert(category_text(TokenKind::Comma).len() == 1 && category_text(TokenKind::Comma)[0] == 44);
    assert(category_text(TokenKind::Colon).len() == 1 && category_text(TokenKind::Colon)[0] == 58);
    assert(category_text(TokenKind::LBrace).len() == 1 && category_text(TokenKind::LBrace)[0] == 123);
    assert(category_text(TokenKind::RBrace).len() == 1 && category_text(TokenKind::RBrace)[0] == 125);
    assert(category_text(TokenKind::Less).len() == 1 && category_text(TokenKind::Less)[0] == 60);
    assert(category_text(TokenKind::Greater).len() == 1 && category_text(TokenKind::Greater)[0] == 62);
    assert(category_text(TokenKind::Assign).len() == 1 && category_text(TokenKind::Assign)[0] == 61);
    assert(category_text(TokenKind::Not).len() == 1 && category_text(TokenKind::Not)[0] == 33);
    assert(category_text(TokenKind::LessEq).len() == 2 && category_text(TokenKind::LessEq)[0] == 60 && category_text(TokenKind::LessEq)[1] == 61);
    assert(category_text(TokenKind::GreaterEq).len() == 2 && category_text(TokenKind::GreaterEq)[0] == 62 && category_text(TokenKind::GreaterEq)[1] == 61);
    assert(category_text(TokenKind::Equal).len() == 2 && category_text(TokenKind::Equal)[0] == 61 && category_text(TokenKind::Equal)[1] == 61);
    assert(category_text(TokenKind::NotEqual).len() == 2 && category_text(TokenKind::NotEqual)[0] == 33 && category_text(TokenKind::NotEqual)[1] == 61);
}

/// A run of white space ends where the first other byte stands.
proof fn lemma_spaces_run(text: Seq<u8>, p: int, e: int)
    requires
        0 <= p <= e <= text.len(),
        forall|i: int| p <= i < e ==> is_space(#[trigger] text[i]),
        e == text.len() || !is_space(text[e]),
    ensures
        spaces(text, p) == e - p,
    decreases e - p,
{
    if p < e {
        lemma_spaces_run(text, p + 1, e);
    }
}

/// A field ends where the first white space stands.
proof fn lemma_solid_run(text: Seq<u8>, p: int, e: int)
    requires
        0 <= p <= e <= text.len(),
        forall|i: int| p <= i < e ==> !is_space(#[trigger] text[i]),
        e == text.len() || is_space(text[e]),
    ensures
        solid(text, p) == e - p,
    decreases e - p,
{
    if p < e {
        lemma_solid_run(text, p + 1, e);
    }
}

/// A line ends where the first line feed stands.
proof fn lemma_line_run(text: Seq<u8>, p: int, e: int)
    requires
        0 <= p <= e <= text.len(),
        forall|i: int| p <= i < e ==> #[trigger] text[i] != 10,
        e == text.len() || text[e] == 10,
    ensures
        line_len(text, p) == e - p,
    decreases e - p,
{
    if p < e {
        lemma_line_run(text, p + 1, e);
    }
}

/// Inside a text that ends with a line feed every line ends inside it,
/// whatever follows the text.
proof fn lemma_line_inside(x: Seq<u8>, y: Seq<u8>, p: int)
    requires
        0 <= p < x.len(),
        x.last() == 10,
    ensures
        line_len(x + y, p) == line_len(x, p),
        p + line_len(x, p) < x.len(),
    decreases x.len() - p,
{
    assert((x + y)[p] == x[p]);
    if x[p] != 10 {
        lemma_line_inside(x, y, p + 1);
    }
}

/// Behind a text the lines are those of what follows it.
proof fn lemma_line_behind(x: Seq<u8>, y: Seq<u8>, q: int)
    requires
        0 <= q,
    ensures
        line_len(x + y, x.len() + q) == line_len(y, q),
    decreases y.len() - q,
{
    if q < y.len() {
        assert((x + y)[x.len() + q] == y[q]);
        if y[q] != 10 {
            lemma_line_behind(x, y, q + 1);
        }
    }
}

/// Behind a text the tokens are those of what follows it.
proof fn lemma_tokens_behind(x: Seq<u8>, y: Seq<u8>, q: int)
    requires
        0 <= q,
    ensures
        tokens_in(x + y, x.len() + q) == tokens_in(y, q),
    decreases unread(y, q),
{
    if q < y.len() {
        lemma_line_behind(x, y, q);
        let n: int = line_len(y, q) as int;
        lemma_line_bound(y, q);
        assert((x + y).subrange(x.len() + q, x.len() + q + n) =~= y.subrange(q, q + n));
        lemma_tokens_behind(x, y, q + n + 1);
    }
}

/// A line ends inside its text.
proof fn lemma_line_bound(text: Seq<u8>, p: int)
    requires
        0 <= p <= text.len(),
    ensures
        p + line_len(text, p) <= text.len(),
    decreases text.len() - p,
{
    if p < text.len() && text[p] != 10 {
        lemma_line_bound(text, p + 1);
    }
}

/// The tokens of two texts, the first of which is empty or ends with a
/// line feed, are the tokens of the first and then those of the second.
proof fn lemma_tokens_joined(x: Seq<u8>, y: Seq<u8>, p: int)
    requires
        0 <= p <= x.len(),
        x.len() == 0 || x.last() == 10,
    ensures
        tokens_in(x + y, p) == tokens_in(x, p) + tokens_in(y, 0),
    decreases unread(x, p),
{
    if p == x.len() {
        lemma_tokens_behind(x, y, 0);
        assert(tokens_in(x, p) + tokens_in(y, 0) =~= tokens_in(y, 0));
    } else {
        lemma_line_inside(x, y, p);
        let n: int = line_len(x, p) as int;
        assert((x + y).subrange(p, p + n) =~= x.subrange(p, p + n));
        lemma_tokens_joined(x, y, p + n + 1);
        assert(seq![line_token(x.subrange(p, p + n))] + (tokens_in(x, p + n + 1) + tokens_in(y, 0))
            =~= tokens_in(x, p) + tokens_in(y, 0));
    }
}

/// The line of a printable token holds that token, and nothing else.
#[verifier::rlimit(40)]
proof fn lemma_line_round_trip(t: TokenView)
    requires
        printable(t),
    ensures
        tokens_in(token_line(t), 0) == seq![t],
        token_line(t).len() > 0,
        token_line(t).last() == 10,
{
    lemma_category_names(t.kind);
    let name = category_text(t.kind);
    let text = token_line(t);
    let line = seq![9u8] + name + seq![9u8, 9u8] + t.lexeme;
    let b: int = name.len() as int + 1;
    let c: int = b + 2;
    let d: int = c + t.lexeme.len() as int;
    assert(text =~= line + seq![10u8]);
    assert(line.len() == d);
    assert forall|i: int| 0 <= i < d implies #[trigger] text[i] != 10 by {
        if 1 <= i < b {
            assert(text[i] == name[i - 1]);
        } else if c <= i {
            assert(text[i] == t.lexeme[i - c]);
        }
    }
    lemma_line_run(text, 0, d);
    assert(text.subrange(0, d) =~= line);
    assert(tokens_in(text, d + 1) =~= Seq::<TokenView>::empty());
    assert forall|i: int| 1 <= i < b implies !is_space(#[trigger] line[i]) by {
        assert(line[i] == name[i - 1]);
    }
    assert forall|i: int| c <= i < d implies !is_space(#[trigger] line[i]) by {
        assert(line[i] == t.lexeme[i - c]);
    }
    assert(line[1] == name[0]);
    assert(line[c] == t.lexeme[0]);
    lemma_spaces_run(line, 0, 1);
    lemma_solid_run(line, 1, b);
    lemma_spaces_run(line, b, c);
    lemma_solid_run(line, c, d);
    assert(line.subrange(1, b) =~= name);
    assert(line.subrange(c, d) =~= t.lexeme);
    assert(line_token(line) == t);
    assert(tokens_in(text, 0) =~= seq![t]);
}

/// The text of a token stream is empty or ends with a line feed.
proof fn lemma_text_ends_lines(ts: Seq<TokenView>)
    ensures
        token_text(ts).len() == 0 || token_text(ts).last() == 10,
    decreases ts.len(),
{
    if ts.len() > 0 {
        assert(token_text(ts).last() == token_line(ts.last()).last());
    }
}

/// Round trip of the token stream. The text of a stream of printable tokens
/// reads back as the stream.
pub proof fn lemma_tokens_round_trip(ts: Seq<TokenView>)
    requires
        forall|i: int| 0 <= i < ts.len() ==> printable(#[trigger] ts[i]),
    ensures
        tokens_in(token_text(ts), 0) == ts,
    decreases ts.len(),
{
    if ts.len() == 0 {
        assert(tokens_in(token_text(ts), 0) =~= ts);
    } else {
        let front = ts.drop_last();
        assert forall|i: int| 0 <= i < front.len() implies printable(#[trigger] front[i]) by {
            assert(front[i] == ts[i]);
        }
        lemma_tokens_round_trip(front);
        lemma_text_ends_lines(front);
        lemma_line_round_trip(ts.last());
        lemma_tokens_joined(token_text(front), token_line(ts.last()), 0);
        assert(front + seq![ts.last()] =~= ts);
    }
}

/// A run of letters and digits stays inside the source and holds nothing
/// else.
proof fn lemma_alphanumeric_run(src: Seq<u8>, p: int)
    requires
        0 <= p <= src.len(),
    ensures
        p + alphanumeric_run(src, p) <= src.len(),
        forall|i: int| p <= i < p + alphanumeric_run(src, p) ==> is_alphanumeric(#[trigger] src[i]),
    decreases src.len() - p,
{
    if p < src.len() && is_alphanumeric(src[p]) {
        lemma_alphanumeric_run(src, p + 1);
    }
}

/// A run of digits stays inside the source and holds nothing else.
proof fn lemma_digit_run(src: Seq<u8>, p: int)
    requires
        0 <= p <= src.len(),
    ensures
        p + digit_run(src, p) <= src.len(),
        forall|i: int| p <= i < p + digit_run(src, p) ==> is_digit(#[trigger] src[i]),
    decreases src.len() - p,
{
    if p < src.len() && is_digit(src[p]) {
        lemma_digit_run(src, p + 1);
    }
}

/// The white space before a token stays inside the source.
proof fn lemma_spaces_bound(src: Seq<u8>, p: int)
    requires
        0 <= p <= src.len(),
    ensures
        p + spaces(src, p) <= src.len(),
    decreases src.len() - p,
{
    if p < src.len() && is_space(src[p]) {
        lemma_spaces_bound(src, p + 1);
    }
}

/// Every token that the lexer finds is printable.
pub proof fn lemma_lexed_printable(src: Seq<u8>, p: int)
    requires
        0 <= p <= src.len(),
        tokens_from(src, p) is Ok,
    ensures
        forall|i: int|
            0 <= i < tokens_from(src, p)->Ok_0.len() ==> printable(
                #[trigger] tokens_from(src, p)->Ok_0[i],
            ),
    decreases unread(src, p),
{
    lemma_spaces_bound(src, p);
    let q = p + spaces(src, p);
    if q < src.len() {
        let n = lexeme_len(src, q) as int;
        lemma_alphanumeric_run(src, q + 1);
        lemma_digit_run(src, q + 1);
        let lexeme = src.subrange(q, q + n);
        let first = TokenView { kind: lexeme_kind(lexeme), lexeme };
        assert(lexeme[0] == src[q]);
        assert forall|i: int| 0 <= i < lexeme.len() implies !is_space(#[trigger] lexeme[i]) by {
            assert(lexeme[i] == src[q + i]);
        }
        assert(printable(first));
        lemma_lexed_printable(src, q + n);
        let rest = tokens_from(src, q + n)->Ok_0;
        let all = tokens_from(src, p)->Ok_0;
        assert forall|i: int| 0 <= i < all.len() implies printable(#[trigger] all[i]) by {
            if i > 0 {
                assert(all[i] == rest[i - 1]);
            }
        }
    }
}

/// What the lexer finds in a source is what a reader finds in the text
/// written for it: the token stream passes through its text unchanged.
pub proof fn lemma_words_read_back(src: Seq<u8>)
    requires
        tokens_of(src) is Ok,
    ensures
        tokens_in(token_text(tokens_of(src)->Ok_0), 0) == tokens_of(src)->Ok_0,
{
    lemma_lexed_printable(src, 0);
    lemma_tokens_round_trip(tokens_of(src)->Ok_0);
}

/// The name by which a category is written.
pub fn category(k: TokenKind) -> (v: Vec<u8>)
    ensures
        v@ == category_text(k),
{
    let v = match k {
        TokenKind::Id => vec!['I' as u8, 'D' as u8],
        TokenKind::Num => vec!['N' as u8, 'U' as u8, 'M' as u8],
        TokenKind::Int => vec!['i' as u8, 'n' as u8, 't' as u8],
        TokenKind::If => vec!['i' as u8, 'f' as u8],
        TokenKind::Else => vec!['e' as u8, 'l' as u8, 's' as u8, 'e' as u8],
        TokenKind::While => vec!['w' as u8, 'h' as u8, 'i' as u8, 'l' as u8, 'e' as u8],
        TokenKind::For => vec!['f' as u8, 'o' as u8, 'r' as u8],
        TokenKind::Read => vec!['r' as u8, 'e' as u8, 'a' as u8, 'd' as u8],
        TokenKind::Write => vec!['w' as u8, 'r' as u8, 'i' as u8, 't' as u8, 'e' as u8],
        TokenKind::Function => vec![
            'f' as u8,
            'u' as u8,
            'n' as u8,
            'c' as u8,
            't' as u8,
            'i' as u8,
            'o' as u8,
            'n' as u8,
        ],
        TokenKind::Call => vec!['c' as u8, 'a' as u8, 'l' as u8, 'l' as u8],
        TokenKind::Plus => vec!['+' as u8],
        TokenKind::Minus => vec!['-' as u8],
        TokenKind::Star => vec!['*' as u8],
        TokenKind::Slash => vec!['/' as u8],
        TokenKind::LParen => vec!['(' as u8],
        TokenKind::RParen => vec![')' as u8],
        TokenKind::Semicolon => vec![';' as u8],
        TokenKind::Comma => vec![',' as u8],
        TokenKind::Colon => vec![':' as u8],
        TokenKind::LBrace => vec!['{' as u8],
        TokenKind::RBrace => vec!['}' as u8],
        TokenKind::Less => vec!['<' as u8],
        TokenKind::Greater => vec!['>' as u8],
        TokenKind::Assign => vec!['=' as u8],
        TokenKind::Not => vec!['!' as u8],
        TokenKind::LessEq => vec!['<' as u8, '=' as u8],
        TokenKind::GreaterEq => vec!['>' as u8, '=' as u8],
        TokenKind::Equal => vec!['=' as u8, '=' as u8],
        TokenKind::NotEqual => vec!['!' as u8, '=' as u8],
        TokenKind::End => Vec::new(),
    };
    assert(v@ =~= category_text(k));
    v
}

/// Writes a token stream as text.
pub fn write_tokens(tokens: &Vec<Token>) -> (text: Vec<u8>)
    ensures
        text@ == token_text(views(tokens@)),
{
    let mut text: Vec<u8> = Vec::new();
    let mut i: usize = 0;
    while i < tokens.len()
        invariant
            i <= tokens.len(),
            text@ == token_text(views(tokens@).take(i as int)),
        decreases tokens.len() - i,
    {
        let ghost before = text@;
        let name = category(tokens[i].kind);
        text.push(9);
        append_bytes(&mut text, name.as_slice());
        text.push(9);
        text.push(9);
        append_bytes(&mut text, tokens[i].lexeme.as_slice());
        text.push(10);
        i += 1;
        proof {
            let front = views(tokens@).take(i as int);
            assert(front.drop_last() =~= views(tokens@).take(i - 1));
            assert(front.last() == tokens[i - 1]@);
            assert(text@ =~= before + token_line(tokens[i - 1]@));
        }
    }
    assert(views(tokens@).take(tokens.len() as int) =~= views(tokens@));
    text
}

/// Whether `name` is the name of category `k`.
fn is_category(name: &[u8], k: TokenKind) -> (r: bool)
    ensures
        r == (name@ == category_text(k)),
{
    let text = category(k);
    bytes_eq(name, text.as_slice())
}

/// The category that is written as `name`.
fn kind_of(name: &[u8]) -> (k: TokenKind)
    ensures
        k == category_kind(name@),
{
    if is_category(name, TokenKind::Id) {
        TokenKind::Id
    } else if is_category(name, TokenKind::Num) {
        TokenKind::Num
    } else if is_category(name, TokenKind::Int) {
        TokenKind::Int
    } else if is_category(name, TokenKind::If) {
        TokenKind::If
    } else if is_category(name, TokenKind::Else) {
        TokenKind::Else
    } else if is_category(name, TokenKind::While) {
        TokenKind::While
    } else if is_category(name, TokenKind::For) {
        TokenKind::For
    } else if is_category(name, TokenKind::Read) {
        TokenKind::Read
    } else if is_category(name, TokenKind::Write) {
        TokenKind::Write
    } else if is_category(name, TokenKind::Function) {
        TokenKind::Function
    } else if is_category(name, TokenKind::Call) {
        TokenKind::Call
    } else if is_category(name, TokenKind::Plus) {
        TokenKind::Plus
    } else if is_category(name, TokenKind::Minus) {
        TokenKind::Minus
    } else if is_category(name, TokenKind::Star) {
        TokenKind::Star
    } else if is_category(name, TokenKind::Slash) {
        TokenKind::Slash
    } else if is_category(name, TokenKind::LParen) {
        TokenKind::LParen
    } else if is_category(name, TokenKind::RParen) {
        TokenKind::RParen
    } else if is_category(name, TokenKind::Semicolon) {
        TokenKind::Semicolon
    } else if is_category(name, TokenKind::Comma) {
        TokenKind::Comma
    } else if is_category(name, TokenKind::Colon) {
        TokenKind::Colon
    } else if is_category(name, TokenKind::LBrace) {
        TokenKind::LBrace
    } else if is_category(name, TokenKind::RBrace) {
        TokenKind::RBrace
    } else if is_category(name, TokenKind::Less) {
        TokenKind::Less
    } else if is_category(name, TokenKind::Greater) {
        TokenKind::Greater
    } else if is_category(name, TokenKind::Assign) {
        TokenKind::Assign
    } else if is_category(name, TokenKind::Not) {
        TokenKind::Not
    } else if is_category(name, TokenKind::LessEq) {
        TokenKind::LessEq
    } else if is_category(name, TokenKind::GreaterEq) {
        TokenKind::GreaterEq
    } else if is_category(name, TokenKind::Equal) {
        TokenKind::Equal
    } else if is_category(name, TokenKind::NotEqual) {
        TokenKind::NotEqual
    } else {
        TokenKind::End
    }
}

/// The end of the white space of `line` that starts at `from`.
fn skip_spaces(line: &[u8], from: usize) -> (to: usize)
    requires
        from <= line.len(),
    ensures
        to == from + spaces(line@, from as int),
        to <= line.len(),
{
    let mut to: usize = from;
    while to < line.len() && space(line[to])
        invariant
            from <= to <= line.len(),
            from + spaces(line@, from as int) == to + spaces(line@, to as int),
        decreases line.len() - to,
    {
        to += 1;
    }
    to
}

/// The end of the field of `line` that starts at `from`.
fn skip_solid(line: &[u8], from: usize) -> (to: usize)
    requires
        from <= line.len(),
    ensures
        to == from + solid(line@, from as int),
        to <= line.len(),
{
    let mut to: usize = from;
    while to < line.len() && !space(line[to])
        invariant
            from <= to <= line.len(),
            from + solid(line@, from as int) == to + solid(line@, to as int),
        decreases line.len() - to,
    {
        to += 1;
    }
    to
}

/// The token that a line holds.
pub fn fscanf_token(line: &[u8]) -> (t: Token)
    ensures
        t@ == line_token(line@),
{
    let a = skip_spaces(line, 0);
    let b = skip_solid(line, a);
    let c = skip_spaces(line, b);
    let d = skip_solid(line, c);
    let name = bytes_part(line, a, b);
    let kind = kind_of(name.as_slice());
    Token { kind, lexeme: bytes_part(line, c, d) }
}

/// Reads a token stream from its text.
pub fn read_tokens(text: &[u8]) -> (tokens: Vec<Token>)
    ensures
        views(tokens@) == tokens_in(text@, 0),
{
    let mut tokens: Vec<Token> = Vec::new();
    let mut pos: usize = 0;
    let ghost done: Seq<TokenView> = Seq::empty();
    proof {
        assert(views(tokens@) =~= done);
        assert(done + tokens_in(text@, 0) =~= tokens_in(text@, 0));
    }
    while pos < text.len()
        invariant
            pos <= text.len(),
            views(tokens@) == done,
            tokens_in(text@, 0) == done + tokens_in(text@, pos as int),
        decreases text.len() - pos,
    {
        let mut end: usize = pos;
        while end < text.len() && text[end] != 10
            invariant
                pos <= end <= text.len(),
                pos + line_len(text@, pos as int) == end + line_len(text@, end as int),
            decreases text.len() - end,
        {
            end += 1;
        }
        let line = bytes_part(text, pos, end);
        let token = fscanf_token(line.as_slice());
        proof {
            let earlier = done;
            done = done.push(token@);
            assert(views(tokens@.push(token)) =~= done);
            let next: int = if end < text.len() {
                end + 1
            } else {
                text.len() as int
            };
            assert(tokens_in(text@, end + 1) =~= tokens_in(text@, next));
            assert(earlier + (seq![token@] + tokens_in(text@, end + 1)) =~= done + tokens_in(
                text@,
                next,
            ));
        }
        tokens.push(token);
        pos = if end < text.len() {
            end + 1
        } else {
            end
        };
    }
    proof {
        assert(done + Seq::<TokenView>::empty() =~= done);
    }
    tokens
}

} // verus!
