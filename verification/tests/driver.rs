use tinyc::driver::{build, words, BuildError};
use tinyc::error::CompileError;
use tinyc::image::{init_map, read_codes, to_records, ByteOrder};
use tinyc::lexer::LexError;
use tinyc::machine::{test_machine, Status};
use tinyc::opcode::{Code, Opt};
use tinyc::parser::Compiler;
use tinyc::tokenfile::read_tokens;

#[test]
fn a_build_holds_words_code_listing_and_image() {
    let b = build(b"main() { write 3; }", ByteOrder::LittleEndian).unwrap();
    assert_eq!(
        b.words,
        b"\tID\t\tmain\n\t(\t\t(\n\t)\t\t)\n\t{\t\t{\n\twrite\t\twrite\n\tNUM\t\t3\n\t;\t\t;\n\t}\t\t}\n".to_vec()
    );
    assert_eq!(
        b.codes,
        vec![
            Code { opt: Opt::BR, operand: 1 },
            Code { opt: Opt::ENTER, operand: 2 },
            Code { opt: Opt::LOADI, operand: 3 },
            Code { opt: Opt::OUT, operand: 0 },
            Code { opt: Opt::RETURN, operand: 0 },
        ]
    );
    assert_eq!(
        b.listing,
        "   0 BR    1  \n   1 ENTER 2  \n   2 LOADI 3  \n   3 OUT  \n   4 RETURN\n"
    );
    assert_eq!(b.image.len(), 5 * 14);
    assert_eq!(&b.image[..14], &[b'B', b'R', 0, 0, 0, 0, 0, 0, 0, 0, 1, 0, 0, 0]);
}

#[test]
fn the_stages_agree() {
    let source = b"function f(int x) { write x + x; } main() { int a; read a; call f(a); }";
    for order in [ByteOrder::LittleEndian, ByteOrder::BigEndian] {
        let b = build(source, order).unwrap();
        assert_eq!(Compiler::test_parse(&read_tokens(&b.words)), Ok(b.codes.clone()));
        let records = read_codes(&b.image, order).unwrap();
        assert_eq!(records, to_records(&b.codes));
        let execution = test_machine(&records, &init_map(), &[21], 1000);
        assert_eq!(execution.outputs, vec![42]);
        assert_eq!(execution.machine.status, Status::Halted);
    }
}

#[test]
fn a_build_stops_at_the_first_stage_that_fails() {
    assert_eq!(
        build(b"main() { $ }", ByteOrder::LittleEndian).unwrap_err(),
        BuildError::Lex(LexError::IllegalCharacter { ch: b'$', row: 1 })
    );
    assert_eq!(
        build(b"foo() { $ }", ByteOrder::LittleEndian).unwrap_err(),
        BuildError::Lex(LexError::IllegalCharacter { ch: b'$', row: 1 })
    );
    assert_eq!(
        build(b"foo() { }", ByteOrder::LittleEndian).unwrap_err(),
        BuildError::Compile(CompileError::LastMustBeMain)
    );
}

#[test]
fn the_token_text_holds_what_stands_before_an_illegal_character() {
    let w = words(b"a # b");
    assert_eq!(w.text, b"\tID\t\ta\n".to_vec());
    assert_eq!(w.error, Some(LexError::IllegalCharacter { ch: b'#', row: 1 }));
    let w = words(b"main() { }");
    assert_eq!(w.error, None);
    assert_eq!(w.text, build(b"main() { }", ByteOrder::BigEndian).unwrap().words);
}
