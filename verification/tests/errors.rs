use tinyc::error::CompileError;
use tinyc::lexer::tokenize;
use tinyc::opcode::{Code, Opt};
use tinyc::parser::Compiler;
use tinyc::symbol::{CategorySymbol, Symbol, SymbolTable};

fn compile(source: &str) -> Result<Vec<Code>, CompileError> {
    let tokens = tokenize(source.as_bytes()).expect("the source holds legal characters only");
    Compiler::test_parse(&tokens)
}

fn code(opt: Opt, operand: i32) -> Code {
    Code { opt, operand }
}

#[test]
fn errors_have_their_numbers() {
    assert_eq!(CompileError::MissingCloseBrace.code(), 2);
    assert_eq!(CompileError::MissingIdentifier.code(), 3);
    assert_eq!(CompileError::MissingSemicolon.code(), 4);
    assert_eq!(CompileError::MissingOpenParen.code(), 5);
    assert_eq!(CompileError::MissingCloseParen.code(), 6);
    assert_eq!(CompileError::MissingOperand.code(), 7);
    assert_eq!(CompileError::NumberTooLarge.code(), 8);
    assert_eq!(CompileError::ProgramTooLong.code(), 9);
    assert_eq!(CompileError::MissingBodyOpen.code(), 11);
    assert_eq!(CompileError::MissingBodyClose.code(), 12);
    assert_eq!(CompileError::LastMustBeMain.code(), 13);
    assert_eq!(CompileError::SymbolTableFull.code(), 21);
    assert_eq!(CompileError::VariableRedefined.code(), 22);
    assert_eq!(CompileError::Undeclared.code(), 23);
    assert_eq!(CompileError::TrailingTokens.code(), 24);
    assert_eq!(CompileError::MalformedParameters.code(), 25);
    assert_eq!(CompileError::MalformedArguments.code(), 26);
    assert_eq!(CompileError::FunctionRedefined.code(), 32);
    assert_eq!(CompileError::CallNonFunction.code(), 34);
    assert_eq!(CompileError::ReadNonVariable.code(), 35);
    assert_eq!(CompileError::AssignNonVariable.code(), 36);
    assert_eq!(CompileError::FactorNonVariable.code(), 37);
    assert_eq!(CompileError::ArgumentCountMismatch.code(), 38);
}

#[test]
fn a_program_without_a_function_misses_an_identifier() {
    assert_eq!(compile(""), Err(CompileError::MissingIdentifier));
    assert_eq!(compile("{ }"), Err(CompileError::MissingIdentifier));
    assert_eq!(compile("1"), Err(CompileError::MissingIdentifier));
}

#[test]
fn a_program_that_ends_after_a_function_does_not_end_with_main() {
    assert_eq!(compile("function foo() { }"), Err(CompileError::LastMustBeMain));
    assert_eq!(compile("function f() { } 1"), Err(CompileError::LastMustBeMain));
    assert_eq!(
        compile("function f() { } function g() { } { }"),
        Err(CompileError::LastMustBeMain)
    );
    assert_eq!(CompileError::LastMustBeMain.code(), 13);
}

#[test]
fn a_function_needs_a_name() {
    assert_eq!(compile("function () { } main() { }"), Err(CompileError::MissingIdentifier));
    assert_eq!(compile("function"), Err(CompileError::MissingIdentifier));
    assert_eq!(compile("function f() { } function"), Err(CompileError::MissingIdentifier));
}

#[test]
fn a_compound_statement_needs_its_closing_brace() {
    assert_eq!(compile("main() { { write 1; "), Err(CompileError::MissingCloseBrace));
    assert_eq!(compile("main() { { write 1; ) }"), Err(CompileError::MissingCloseBrace));
}

#[test]
fn missing_identifier() {
    assert_eq!(compile("main() { int ; }"), Err(CompileError::MissingIdentifier));
    assert_eq!(compile("main() { int 1; }"), Err(CompileError::MissingIdentifier));
    assert_eq!(compile("main() { read 1; }"), Err(CompileError::MissingIdentifier));
    assert_eq!(compile("main() { call 1(); }"), Err(CompileError::MissingIdentifier));
    assert_eq!(compile("main(int) { }"), Err(CompileError::MissingIdentifier));
}

#[test]
fn missing_semicolon() {
    assert_eq!(compile("main() { int a }"), Err(CompileError::MissingSemicolon));
    assert_eq!(compile("main() { write 1 }"), Err(CompileError::MissingSemicolon));
    assert_eq!(compile("main() { int a; read a }"), Err(CompileError::MissingSemicolon));
    assert_eq!(compile("main() { int a; a = 1 }"), Err(CompileError::MissingSemicolon));
    assert_eq!(
        compile("main() { int i; for (i = 0 i < 1; i = i + 1) ; }"),
        Err(CompileError::MissingSemicolon)
    );
    assert_eq!(
        compile("main() { int i; for (i = 0; i < 1 i = i + 1) ; }"),
        Err(CompileError::MissingSemicolon)
    );
    assert_eq!(
        compile("function f() { } main() { call f() }"),
        Err(CompileError::MissingSemicolon)
    );
    assert_eq!(compile("main() { int a; a + 1 = 3; }"), Err(CompileError::MissingSemicolon));
}

#[test]
fn missing_open_paren() {
    assert_eq!(compile("main { }"), Err(CompileError::MissingOpenParen));
    assert_eq!(compile("function f { } main() { }"), Err(CompileError::MissingOpenParen));
    assert_eq!(compile("main() { if 1 ; }"), Err(CompileError::MissingOpenParen));
    assert_eq!(compile("main() { while 1 ; }"), Err(CompileError::MissingOpenParen));
    assert_eq!(compile("main() { for ; }"), Err(CompileError::MissingOpenParen));
    assert_eq!(
        compile("function f() { } main() { call f; }"),
        Err(CompileError::MissingOpenParen)
    );
}

#[test]
fn missing_close_paren() {
    assert_eq!(compile("main( { }"), Err(CompileError::MissingCloseParen));
    assert_eq!(compile("main(int a { }"), Err(CompileError::MissingCloseParen));
    assert_eq!(compile("main() { if (1 ; }"), Err(CompileError::MissingCloseParen));
    assert_eq!(compile("main() { while (1 ; }"), Err(CompileError::MissingCloseParen));
    assert_eq!(compile("main() { write (1; }"), Err(CompileError::MissingCloseParen));
    assert_eq!(
        compile("main() { int i; for (i = 0; i < 1; i = i + 1 ; }"),
        Err(CompileError::MissingCloseParen)
    );
    assert_eq!(
        compile("function f(int a) { } main() { int x; call f(x; }"),
        Err(CompileError::MissingCloseParen)
    );
    assert_eq!(
        compile("function f(int a) { } main() { int x; int y; call f(x y); }"),
        Err(CompileError::MissingCloseParen)
    );
}

#[test]
fn missing_operand() {
    assert_eq!(compile("main() { write ; }"), Err(CompileError::MissingOperand));
    assert_eq!(compile("main() { write 1 + ; }"), Err(CompileError::MissingOperand));
    assert_eq!(compile("main() { write 1 * ); }"), Err(CompileError::MissingOperand));
    assert_eq!(compile("main() { write 1 < ; }"), Err(CompileError::MissingOperand));
    assert_eq!(compile("main() { if (1) }"), Err(CompileError::MissingOperand));
    assert_eq!(compile("main() { int a; a = ; }"), Err(CompileError::MissingOperand));
}

#[test]
fn a_number_must_fit_in_32_bits() {
    assert_eq!(compile("main() { write 2147483648; }"), Err(CompileError::NumberTooLarge));
    assert_eq!(
        compile("main() { write 2147483647; }").unwrap()[2],
        code(Opt::LOADI, 2147483647)
    );
}

#[test]
fn a_body_needs_its_braces() {
    assert_eq!(compile("main() write 1;"), Err(CompileError::MissingBodyOpen));
    assert_eq!(compile("main()"), Err(CompileError::MissingBodyOpen));
    assert_eq!(compile("main() { write 1;"), Err(CompileError::MissingBodyClose));
    assert_eq!(compile("main() { )"), Err(CompileError::MissingBodyClose));
    assert_eq!(compile("main() { write 1; int a; }"), Err(CompileError::MissingBodyClose));
    assert_eq!(compile("main() { else ; }"), Err(CompileError::MissingBodyClose));
}

#[test]
fn the_table_holds_one_hundred_symbols() {
    let mut source = String::from("main() {");
    for i in 0..99 {
        source.push_str(&format!(" int v{};", i));
    }
    let full = format!("{} }}", source);
    assert_eq!(compile(&full).unwrap()[1], code(Opt::ENTER, 101));
    let over = format!("{} int last; }}", source);
    assert_eq!(compile(&over), Err(CompileError::SymbolTableFull));
}

#[test]
fn nothing_may_follow_main() {
    assert_eq!(compile("main() { } ;"), Err(CompileError::TrailingTokens));
    assert_eq!(compile("main() { } main() { }"), Err(CompileError::TrailingTokens));
    assert_eq!(compile("main() { } }"), Err(CompileError::TrailingTokens));
}

#[test]
fn lists_must_not_break_off_after_a_comma() {
    assert_eq!(
        compile("function f(int a, ) { } main() { }"),
        Err(CompileError::MalformedParameters)
    );
    assert_eq!(
        compile("function f(int a, b) { } main() { }"),
        Err(CompileError::MalformedParameters)
    );
    assert_eq!(
        compile("function f(int a) { } main() { int x; call f(x, ); }"),
        Err(CompileError::MalformedArguments)
    );
    assert_eq!(
        compile("function f(int a) { } main() { int x; call f(x, 1); }"),
        Err(CompileError::MalformedArguments)
    );
}

#[test]
fn a_function_is_declared_once() {
    assert_eq!(
        compile("function f() { } function f() { } main() { }"),
        Err(CompileError::FunctionRedefined)
    );
    assert_eq!(
        compile("function main() { } main() { }"),
        Err(CompileError::FunctionRedefined)
    );
}

#[test]
fn kinds_are_checked() {
    assert_eq!(
        compile("function f() { read f; } main() { }"),
        Err(CompileError::ReadNonVariable)
    );
    assert_eq!(
        compile("function f() { f = 1; } main() { }"),
        Err(CompileError::AssignNonVariable)
    );
    assert_eq!(
        compile("function f() { write f; } main() { }"),
        Err(CompileError::FactorNonVariable)
    );
    assert_eq!(
        compile("function f() { write 1 + f; } main() { }"),
        Err(CompileError::FactorNonVariable)
    );
}

#[test]
fn a_call_of_a_variable_is_rejected() {
    let tokens = tokenize(b"call v();").unwrap();
    let mut compiler = Compiler {
        codes: vec![],
        table: SymbolTable {
            symbol: vec![Symbol {
                name: b"v".to_vec(),
                kind: CategorySymbol::Variable,
                address: 2,
                action_function: b"v".to_vec(),
                var_num: 0,
            }],
            last_defined_function: b"v".to_vec(),
            offset: 3,
        },
        pos: 0,
    };
    assert_eq!(compiler.call_stat(&tokens), Err(CompileError::CallNonFunction));
}

#[test]
fn a_call_passes_as_many_arguments_as_the_function_declares() {
    let two = "function f(int a, int b) { } main() { int x; ";
    assert_eq!(compile(&format!("{} call f(); }}", two)), Err(CompileError::ArgumentCountMismatch));
    assert_eq!(compile(&format!("{} call f(x); }}", two)), Err(CompileError::ArgumentCountMismatch));
    assert_eq!(
        compile(&format!("{} call f(x, x, x); }}", two)),
        Err(CompileError::ArgumentCountMismatch)
    );
    assert!(compile(&format!("{} call f(x, x); }}", two)).is_ok());
    assert_eq!(
        compile("function g() { } main() { int x; call g(x); }"),
        Err(CompileError::ArgumentCountMismatch)
    );
    assert_eq!(
        compile("function g(int a) { } main() { call g(1); }"),
        Err(CompileError::ArgumentCountMismatch)
    );
}

#[test]
fn every_function_counts_its_own_parameters() {
    let source = "function f(int a) { } function g(int b) { } main() { int x; call g(x); call f(x); }";
    let codes = compile(source).unwrap();
    assert_eq!(codes[0], code(Opt::BR, 5));
    assert_eq!(codes[1], code(Opt::ENTER, 3));
    assert_eq!(codes[3], code(Opt::ENTER, 3));
    assert_eq!(codes[5], code(Opt::ENTER, 3));
    assert_eq!(codes[8], code(Opt::CAL, 3));
    assert_eq!(codes[11], code(Opt::CAL, 1));
}

#[test]
fn calls_of_unknown_functions_and_arguments_are_undeclared() {
    assert_eq!(compile("main() { call g(); }"), Err(CompileError::Undeclared));
    assert_eq!(
        compile("function f(int a) { } main() { call f(y); }"),
        Err(CompileError::Undeclared)
    );
    assert_eq!(
        compile("function f(int a) { } main() { call f(a); }"),
        Err(CompileError::Undeclared)
    );
    assert_eq!(
        compile("main() { int a; call a(); }"),
        Err(CompileError::Undeclared)
    );
}

#[test]
fn the_first_error_wins() {
    assert_eq!(compile("main() { int x; int x; y = 1 }"), Err(CompileError::VariableRedefined));
    assert_eq!(compile("main() { y = 1 } ;"), Err(CompileError::Undeclared));
    assert_eq!(compile("foo( { "), Err(CompileError::LastMustBeMain));
}

#[test]
fn main_may_have_parameters_and_locals() {
    assert_eq!(
        compile("main(int a, int b) { int c; }").unwrap(),
        vec![code(Opt::BR, 1), code(Opt::ENTER, 5), code(Opt::RETURN, 0)]
    );
}

#[test]
fn a_function_may_pass_its_own_name() {
    assert_eq!(
        compile("function f(int a) { call f(f); } main() { }").unwrap(),
        vec![
            code(Opt::BR, 6),
            code(Opt::ENTER, 3),
            code(Opt::LOAD, 1),
            code(Opt::PAS, 0),
            code(Opt::CAL, 1),
            code(Opt::RETURN, 0),
            code(Opt::ENTER, 2),
            code(Opt::RETURN, 0),
        ]
    );
}

#[test]
fn an_if_governs_one_statement() {
    let codes = compile("main() { int a; if (0) read a; write 5; }").unwrap();
    assert_eq!(
        codes,
        vec![
            code(Opt::BR, 1),
            code(Opt::ENTER, 3),
            code(Opt::LOADI, 0),
            code(Opt::BRF, 7),
            code(Opt::IN, 0),
            code(Opt::STO, 2),
            code(Opt::BR, 7),
            code(Opt::LOADI, 5),
            code(Opt::OUT, 0),
            code(Opt::RETURN, 0),
        ]
    );
}

#[test]
fn empty_statements_and_blocks() {
    assert_eq!(
        compile("main() { ; { } { ; ; } }").unwrap(),
        vec![code(Opt::BR, 1), code(Opt::ENTER, 2), code(Opt::RETURN, 0)]
    );
}

#[test]
fn jumps_stay_inside_and_frames_are_reserved() {
    let source = "function f(int x, int y) { int z; z = x; while (z > 0) { if (z == y) write z; else write y; z = z - 1; } }
        function g() { int i; for (i = 0; i < 3; i = i + 1) call f(i, i); }
        main() { int a; int b; read a; read b; call f(a, b); call g(); }";
    let codes = compile(source).unwrap();
    assert_eq!(codes[0].opt, Opt::BR);
    assert_eq!(codes[codes[0].operand as usize].opt, Opt::ENTER);
    let mut enters = Vec::new();
    for c in &codes {
        match c.opt {
            Opt::BR | Opt::BRF | Opt::CAL => {
                assert!(0 <= c.operand && (c.operand as usize) < codes.len());
            }
            Opt::LOAD | Opt::STO => assert!(c.operand >= 2),
            Opt::ENTER => enters.push(c.operand),
            _ => {}
        }
        if c.opt == Opt::CAL {
            assert_eq!(codes[c.operand as usize].opt, Opt::ENTER);
        }
    }
    assert_eq!(enters, vec![2 + 2 + 1, 2 + 0 + 1, 2 + 0 + 2]);
}

fn tokens(source: &str) -> Vec<tinyc::token::Token> {
    tokenize(source.as_bytes()).unwrap()
}

/// A compiler that has compiled `source` and now stands before `next`.
fn after(source: &str) -> Compiler {
    let mut compiler = Compiler::new();
    assert_eq!(compiler.program(&tokens(source)), Ok(()));
    compiler.pos = 0;
    compiler
}

#[test]
fn a_factor_that_fails_appends_nothing() {
    let start = after("main() { int a; }");
    let before = start.codes.clone();

    let mut c = after("main() { int a; }");
    assert_eq!(c.factor(&tokens("007")), Ok(()));
    let mut expected = before.clone();
    expected.push(code(Opt::LOADI, 7));
    assert_eq!(c.codes, expected);

    let mut c = after("main() { int a; }");
    assert_eq!(c.factor(&tokens("a")), Ok(()));
    let mut expected = before.clone();
    expected.push(code(Opt::LOAD, 2));
    assert_eq!(c.codes, expected);

    for (source, error) in [
        ("main", CompileError::FactorNonVariable),
        ("zz", CompileError::Undeclared),
        (";", CompileError::MissingOperand),
        ("", CompileError::MissingOperand),
    ] {
        let mut c = after("main() { int a; }");
        assert_eq!(c.factor(&tokens(source)), Err(error));
        assert_eq!(c.codes, before);
        assert_eq!(c.table.symbol, start.table.symbol);
    }

    let mut c = after("main() { int a; }");
    assert_eq!(c.factor(&tokens("(a + 1 ;")), Err(CompileError::MissingCloseParen));
    assert_eq!(&c.codes[..before.len()], &before[..]);
    assert_eq!(c.table.symbol, start.table.symbol);
}

#[test]
fn an_assignment_to_what_is_no_variable_appends_nothing() {
    let before = after("main() { int a; }").codes;
    let mut c = after("main() { int a; }");
    assert_eq!(c.expression(&tokens("main = 1 ;")), Err(CompileError::AssignNonVariable));
    assert_eq!(c.codes, before);
    let mut c = after("main() { int a; }");
    assert_eq!(c.expression(&tokens("b = 1 ;")), Err(CompileError::Undeclared));
    assert_eq!(c.codes, before);
    let mut c = after("main() { int a; }");
    assert_eq!(c.expression(&tokens("a = 1 ;")), Ok(()));
    assert_eq!(&c.codes[before.len()..], &[code(Opt::LOADI, 1), code(Opt::STO, 2)]);
}

#[test]
fn a_call_that_fails_appends_no_call() {
    let before = after("function f(int x) { } main() { int a; }").codes;
    for (source, error) in [
        ("call f ( ) ;", CompileError::ArgumentCountMismatch),
        ("call f ( a , a ) ;", CompileError::ArgumentCountMismatch),
        ("call f ( a , ) ;", CompileError::MalformedArguments),
        ("call f ( a ;", CompileError::MissingCloseParen),
        ("call f ( a )", CompileError::MissingSemicolon),
        ("call g ( a ) ;", CompileError::Undeclared),
        ("call f ( b ) ;", CompileError::Undeclared),
    ] {
        let mut c = after("function f(int x) { } main() { int a; }");
        assert_eq!(c.call_stat(&tokens(source)), Err(error));
        assert_eq!(&c.codes[..before.len()], &before[..]);
        assert!(c.codes[before.len()..].iter().all(|i| i.opt == Opt::LOAD));
    }
    let mut c = after("function f(int x) { } main() { int a; }");
    assert_eq!(c.call_stat(&tokens("call f ( ) ;")), Err(CompileError::ArgumentCountMismatch));
    assert_eq!(c.codes, before);
}

#[test]
fn a_read_that_fails_appends_nothing() {
    let before = after("main() { int a; }").codes;
    for source in ["read main ;", "read b ;", "read 1 ;", "read a"] {
        let mut c = after("main() { int a; }");
        assert!(c.read_stat(&tokens(source)).is_err());
        assert_eq!(c.codes, before);
    }
}

#[test]
fn a_variable_declared_twice_stands_once_in_the_table() {
    let mut c = Compiler::new();
    assert_eq!(
        c.program(&tokens("main() { int x; int x; }")),
        Err(CompileError::VariableRedefined)
    );
    let names: Vec<(Vec<u8>, CategorySymbol, Vec<u8>, i32)> = c
        .table
        .symbol
        .iter()
        .map(|s| (s.name.clone(), s.kind, s.action_function.clone(), s.address))
        .collect();
    assert_eq!(
        names,
        vec![
            (b"main".to_vec(), CategorySymbol::Function, b"main".to_vec(), 1),
            (b"x".to_vec(), CategorySymbol::Variable, b"main".to_vec(), 2),
        ]
    );
    assert_eq!(c.codes, vec![code(Opt::BR, 0)]);
}

#[test]
fn a_failure_keeps_what_was_declared_before_it() {
    let mut c = Compiler::new();
    assert_eq!(
        c.program(&tokens("function f(int a, int b) { int c; write d; } main() { }")),
        Err(CompileError::Undeclared)
    );
    let names: Vec<Vec<u8>> = c.table.symbol.iter().map(|s| s.name.clone()).collect();
    assert_eq!(names, vec![b"f".to_vec(), b"a".to_vec(), b"b".to_vec(), b"c".to_vec()]);
    assert_eq!(c.table.symbol[0].var_num, 2);
    assert_eq!(c.codes[0], code(Opt::BR, 0));
    assert_eq!(c.codes[1], code(Opt::ENTER, 5));

    let mut c = Compiler::new();
    assert_eq!(c.program(&tokens("main() { } ;")), Err(CompileError::TrailingTokens));
    assert_eq!(c.codes[0], code(Opt::BR, 1));

    let mut c = Compiler::new();
    assert_eq!(c.program(&tokens("function f() { } function f() { } main() { }")),
        Err(CompileError::FunctionRedefined));
    assert_eq!(c.table.symbol.len(), 1);
}
