use tinyc::lexer::tokenize;
use tinyc::token::{Token, TokenKind};
use tinyc::tokenfile::{category, fscanf_token, read_tokens, write_tokens};

fn token(kind: TokenKind, text: &str) -> Token {
    Token { kind, lexeme: text.as_bytes().to_vec() }
}

#[test]
fn tokens_are_written_one_in_each_line() {
    let tokens = tokenize(b"INT a; a <= 10").unwrap();
    assert_eq!(
        write_tokens(&tokens),
        b"\tint\t\tINT\n\tID\t\ta\n\t;\t\t;\n\tID\t\ta\n\t<=\t\t<=\n\tNUM\t\t10\n".to_vec()
    );
}

#[test]
fn no_tokens_no_text() {
    assert_eq!(write_tokens(&vec![]), Vec::<u8>::new());
    assert_eq!(read_tokens(b""), vec![]);
}

#[test]
fn written_tokens_read_back() {
    let source = b"function f(int x, int y) { write x * y / 2; }
        main() { int a; read a; if (a != 0) call f(a, a); else { a = a - 1; } for (;;) ; while (a >= 1 : !a) ; }";
    let tokens = tokenize(source).unwrap();
    assert_eq!(read_tokens(&write_tokens(&tokens)), tokens);
}

#[test]
fn every_category_has_its_name() {
    assert_eq!(category(TokenKind::Id), b"ID".to_vec());
    assert_eq!(category(TokenKind::Num), b"NUM".to_vec());
    assert_eq!(category(TokenKind::Function), b"function".to_vec());
    assert_eq!(category(TokenKind::NotEqual), b"!=".to_vec());
    assert_eq!(category(TokenKind::LBrace), b"{".to_vec());
    assert_eq!(category(TokenKind::End), Vec::<u8>::new());
}

#[test]
fn a_line_is_split_at_white_space() {
    assert_eq!(fscanf_token(b"\tID\t\tabc"), token(TokenKind::Id, "abc"));
    assert_eq!(fscanf_token(b"NUM 42\r"), token(TokenKind::Num, "42"));
    assert_eq!(fscanf_token(b"  while   WHILE  more"), token(TokenKind::While, "WHILE"));
    assert_eq!(fscanf_token(b"== =="), token(TokenKind::Equal, "=="));
}

#[test]
fn a_line_without_a_known_category_is_an_end_token() {
    assert_eq!(fscanf_token(b""), token(TokenKind::End, ""));
    assert_eq!(fscanf_token(b"   "), token(TokenKind::End, ""));
    assert_eq!(fscanf_token(b"what ever"), token(TokenKind::End, "ever"));
    assert_eq!(fscanf_token(b"ID"), token(TokenKind::Id, ""));
    assert_eq!(fscanf_token(b"id x"), token(TokenKind::End, "x"));
}

#[test]
fn every_line_gives_one_token() {
    assert_eq!(
        read_tokens(b"ID a\n\n; ;"),
        vec![
            token(TokenKind::Id, "a"),
            token(TokenKind::End, ""),
            token(TokenKind::Semicolon, ";"),
        ]
    );
    assert_eq!(read_tokens(b"ID a\n"), vec![token(TokenKind::Id, "a")]);
    assert_eq!(
        read_tokens(b"\n"),
        vec![token(TokenKind::End, "")]
    );
}
