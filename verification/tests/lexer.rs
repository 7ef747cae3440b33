use tinyc::lexer::{
    compile_word, is_double_word, is_single_word, row_of, scan, tokenize, LexError, Word,
};
use tinyc::token::{Token, TokenKind};

fn token(kind: TokenKind, text: &str) -> Token {
    Token { kind, lexeme: text.as_bytes().to_vec() }
}

#[test]
fn declaration_is_three_tokens() {
    assert_eq!(
        tokenize(b"int a;"),
        Ok(vec![
            token(TokenKind::Int, "int"),
            token(TokenKind::Id, "a"),
            token(TokenKind::Semicolon, ";"),
        ])
    );
}

#[test]
fn empty_source_has_no_tokens() {
    assert_eq!(tokenize(b""), Ok(vec![]));
    assert_eq!(tokenize(b" \t\r\n\x0b\x0c "), Ok(vec![]));
}

#[test]
fn reserved_words_in_any_case_keep_their_spelling() {
    assert_eq!(
        tokenize(b"WHILE While while"),
        Ok(vec![
            token(TokenKind::While, "WHILE"),
            token(TokenKind::While, "While"),
            token(TokenKind::While, "while"),
        ])
    );
}

#[test]
fn every_reserved_word() {
    assert_eq!(
        tokenize(b"int if else while for read write function call"),
        Ok(vec![
            token(TokenKind::Int, "int"),
            token(TokenKind::If, "if"),
            token(TokenKind::Else, "else"),
            token(TokenKind::While, "while"),
            token(TokenKind::For, "for"),
            token(TokenKind::Read, "read"),
            token(TokenKind::Write, "write"),
            token(TokenKind::Function, "function"),
            token(TokenKind::Call, "call"),
        ])
    );
}

#[test]
fn a_longer_word_is_an_identifier() {
    assert_eq!(
        tokenize(b"integer iff a1b2 main"),
        Ok(vec![
            token(TokenKind::Id, "integer"),
            token(TokenKind::Id, "iff"),
            token(TokenKind::Id, "a1b2"),
            token(TokenKind::Id, "main"),
        ])
    );
}

#[test]
fn numbers_are_digit_runs() {
    assert_eq!(
        tokenize(b"007 12ab"),
        Ok(vec![
            token(TokenKind::Num, "007"),
            token(TokenKind::Num, "12"),
            token(TokenKind::Id, "ab"),
        ])
    );
}

#[test]
fn every_punctuator() {
    assert_eq!(
        tokenize(b"+-*/();,:{}"),
        Ok(vec![
            token(TokenKind::Plus, "+"),
            token(TokenKind::Minus, "-"),
            token(TokenKind::Star, "*"),
            token(TokenKind::Slash, "/"),
            token(TokenKind::LParen, "("),
            token(TokenKind::RParen, ")"),
            token(TokenKind::Semicolon, ";"),
            token(TokenKind::Comma, ","),
            token(TokenKind::Colon, ":"),
            token(TokenKind::LBrace, "{"),
            token(TokenKind::RBrace, "}"),
        ])
    );
}

#[test]
fn every_operator() {
    assert_eq!(
        tokenize(b"< > = ! <= >= == !="),
        Ok(vec![
            token(TokenKind::Less, "<"),
            token(TokenKind::Greater, ">"),
            token(TokenKind::Assign, "="),
            token(TokenKind::Not, "!"),
            token(TokenKind::LessEq, "<="),
            token(TokenKind::GreaterEq, ">="),
            token(TokenKind::Equal, "=="),
            token(TokenKind::NotEqual, "!="),
        ])
    );
}

#[test]
fn the_longest_operator_wins() {
    assert_eq!(
        tokenize(b"<== a=!b"),
        Ok(vec![
            token(TokenKind::LessEq, "<="),
            token(TokenKind::Assign, "="),
            token(TokenKind::Id, "a"),
            token(TokenKind::Assign, "="),
            token(TokenKind::Not, "!"),
            token(TokenKind::Id, "b"),
        ])
    );
}

#[test]
fn an_illegal_character_is_reported_with_its_line() {
    assert_eq!(
        tokenize(b"int a;\nint b;\n a = @;"),
        Err(LexError::IllegalCharacter { ch: b'@', row: 3 })
    );
    assert_eq!(
        tokenize(b"#"),
        Err(LexError::IllegalCharacter { ch: b'#', row: 1 })
    );
}

#[test]
fn a_byte_beyond_ascii_is_illegal() {
    assert_eq!(
        tokenize(&[b'a', b' ', 0xe9]),
        Err(LexError::IllegalCharacter { ch: 0xe9, row: 1 })
    );
}

#[test]
fn words_are_read_one_at_a_time() {
    let src = b"  ab <= 1";
    match compile_word(src, 0) {
        Word::Found { token: t, next } => {
            assert_eq!(t, token(TokenKind::Id, "ab"));
            assert_eq!(next, 4);
        }
        other => panic!("{:?}", other),
    }
    match compile_word(src, 4) {
        Word::Found { token: t, next } => {
            assert_eq!(t, token(TokenKind::LessEq, "<="));
            assert_eq!(next, 7);
        }
        other => panic!("{:?}", other),
    }
    match compile_word(src, 7) {
        Word::Found { token: t, next } => {
            assert_eq!(t, token(TokenKind::Num, "1"));
            assert_eq!(next, 9);
        }
        other => panic!("{:?}", other),
    }
    assert!(matches!(compile_word(src, 9), Word::End));
    assert!(matches!(compile_word(src, 10), Word::End));
    assert!(matches!(compile_word(src, usize::MAX), Word::End));
    assert!(matches!(
        compile_word(b" \n ?", 0),
        Word::Illegal { ch: b'?', at: 3 }
    ));
}

#[test]
fn character_classes() {
    for ch in b"+-*/();,:{}" {
        assert!(is_single_word(*ch));
        assert!(!is_double_word(*ch));
    }
    for ch in b"<>=!" {
        assert!(is_double_word(*ch));
        assert!(!is_single_word(*ch));
    }
    for ch in b"a0 @\n" {
        assert!(!is_single_word(*ch));
        assert!(!is_double_word(*ch));
    }
}

#[test]
fn rows_count_from_one() {
    let src = b"a\nb\n\nc";
    assert_eq!(row_of(src, 0), 1);
    assert_eq!(row_of(src, 1), 1);
    assert_eq!(row_of(src, 2), 2);
    assert_eq!(row_of(src, 5), 4);
}

#[test]
fn a_scan_keeps_the_tokens_before_an_illegal_character() {
    let scanned = scan(b"a # b");
    assert_eq!(scanned.tokens, vec![token(TokenKind::Id, "a")]);
    assert_eq!(scanned.error, Some(LexError::IllegalCharacter { ch: b'#', row: 1 }));
    let scanned = scan(b"int x;\nx = 1 ? 2;");
    assert_eq!(
        scanned.tokens,
        vec![
            token(TokenKind::Int, "int"),
            token(TokenKind::Id, "x"),
            token(TokenKind::Semicolon, ";"),
            token(TokenKind::Id, "x"),
            token(TokenKind::Assign, "="),
            token(TokenKind::Num, "1"),
        ]
    );
    assert_eq!(scanned.error, Some(LexError::IllegalCharacter { ch: b'?', row: 2 }));
    let scanned = scan(b"@");
    assert_eq!(scanned.tokens, vec![]);
    assert_eq!(scanned.error, Some(LexError::IllegalCharacter { ch: b'@', row: 1 }));
}

#[test]
fn a_scan_without_an_error_is_the_token_stream() {
    let source = b"main() { write 1; }";
    let scanned = scan(source);
    assert_eq!(scanned.error, None);
    assert_eq!(Ok(scanned.tokens), tokenize(source));
}
