use tinyc::error::CompileError;
use tinyc::lexer::tokenize;
use tinyc::image::{init_map, to_records};
use tinyc::machine::{test_machine, Execution, Fault, Status};
use tinyc::opcode::{Code, Opt};
use tinyc::parser::Compiler;

fn compile(source: &str) -> Result<Vec<Code>, CompileError> {
    let tokens = tokenize(source.as_bytes()).expect("the source holds legal characters only");
    Compiler::test_parse(&tokens)
}

fn code(opt: Opt, operand: i32) -> Code {
    Code { opt, operand }
}

fn execute(codes: &[Code], inputs: &[i32], limit: usize) -> Execution {
    test_machine(&to_records(codes), &init_map(), inputs, limit)
}

fn run(source: &str, inputs: &[i32]) -> (Vec<i32>, Status, usize) {
    let codes = compile(source).expect("the source is a program");
    let execution = execute(&codes, inputs, 100_000);
    (execution.outputs, execution.machine.status, execution.steps)
}

#[test]
fn empty_main_is_three_instructions() {
    let codes = compile("main() { }").unwrap();
    assert_eq!(
        codes,
        vec![code(Opt::BR, 1), code(Opt::ENTER, 2), code(Opt::RETURN, 0)]
    );
}

#[test]
fn empty_main_halts_after_three_steps() {
    let (outputs, status, steps) = run("main() { }", &[]);
    assert_eq!(outputs, Vec::<i32>::new());
    assert_eq!(status, Status::Halted);
    assert_eq!(steps, 3);
}

#[test]
fn hello_compute() {
    let (outputs, status, _) = run("main() { int a; read a; write a+1; }", &[7]);
    assert_eq!(outputs, vec![8]);
    assert_eq!(status, Status::Halted);
}

#[test]
fn the_last_function_is_written_without_the_word_function() {
    assert_eq!(
        compile("function main() { int a; read a; write a+1; }"),
        Err(CompileError::LastMustBeMain)
    );
}

#[test]
fn hello_compute_code() {
    let codes = compile("main() { int a; read a; write a+1; }").unwrap();
    assert_eq!(
        codes,
        vec![
            code(Opt::BR, 1),
            code(Opt::ENTER, 3),
            code(Opt::IN, 0),
            code(Opt::STO, 2),
            code(Opt::LOAD, 2),
            code(Opt::LOADI, 1),
            code(Opt::ADD, 0),
            code(Opt::OUT, 0),
            code(Opt::RETURN, 0),
        ]
    );
}

#[test]
fn loop_sum() {
    let source = "main() {
        int n; int i; int s;
        read n;
        i = 1;
        s = 0;
        while (i <= n) { s = s + i; i = i + 1; }
        write s;
    }";
    let (outputs, status, _) = run(source, &[5]);
    assert_eq!(outputs, vec![15]);
    assert_eq!(status, Status::Halted);
}

#[test]
fn call_with_args() {
    let source = "function f(int x, int y) { write x * y; }
    main() { int a; int b; read a; read b; call f(a, b); }";
    let (outputs, status, _) = run(source, &[3, 4]);
    assert_eq!(outputs, vec![12]);
    assert_eq!(status, Status::Halted);
}

#[test]
fn call_emits_one_pas_for_each_argument() {
    let source = "function f(int x, int y, int z) { }
    main() { int a; call f(a, a, a); }";
    let codes = compile(source).unwrap();
    assert_eq!(
        codes,
        vec![
            code(Opt::BR, 3),
            code(Opt::ENTER, 5),
            code(Opt::RETURN, 0),
            code(Opt::ENTER, 3),
            code(Opt::LOAD, 2),
            code(Opt::LOAD, 2),
            code(Opt::LOAD, 2),
            code(Opt::PAS, 0),
            code(Opt::PAS, 0),
            code(Opt::PAS, 0),
            code(Opt::CAL, 1),
            code(Opt::RETURN, 0),
        ]
    );
    let passes = codes.iter().filter(|c| c.opt == Opt::PAS).count();
    assert_eq!(passes, 3);
}

#[test]
fn for_with_false_condition_skips_the_body() {
    let source = "main() { int i; for (i = 0; 0; i = i + 1) write 7; write 9; }";
    let (outputs, status, _) = run(source, &[]);
    assert_eq!(outputs, vec![9]);
    assert_eq!(status, Status::Halted);
}

#[test]
fn for_counts() {
    let source = "main() { int i; for (i = 0; i < 3; i = i + 1) write i; }";
    let (outputs, _, _) = run(source, &[]);
    assert_eq!(outputs, vec![0, 1, 2]);
}

#[test]
fn for_layout() {
    let codes = compile("main() { int i; for (i = 0; i < 3; i = i + 1) write i; }").unwrap();
    assert_eq!(
        codes,
        vec![
            code(Opt::BR, 1),
            code(Opt::ENTER, 3),
            code(Opt::LOADI, 0),
            code(Opt::STO, 2),
            code(Opt::LOAD, 2),
            code(Opt::LOADI, 3),
            code(Opt::LES, 0),
            code(Opt::BRF, 17),
            code(Opt::BR, 14),
            code(Opt::LOAD, 2),
            code(Opt::LOADI, 1),
            code(Opt::ADD, 0),
            code(Opt::STO, 2),
            code(Opt::BR, 4),
            code(Opt::LOAD, 2),
            code(Opt::OUT, 0),
            code(Opt::BR, 9),
            code(Opt::RETURN, 0),
        ]
    );
}

#[test]
fn if_without_else_falls_through() {
    let source = "main() { if (0) write 1; write 2; }";
    let codes = compile(source).unwrap();
    assert_eq!(
        codes,
        vec![
            code(Opt::BR, 1),
            code(Opt::ENTER, 2),
            code(Opt::LOADI, 0),
            code(Opt::BRF, 7),
            code(Opt::LOADI, 1),
            code(Opt::OUT, 0),
            code(Opt::BR, 7),
            code(Opt::LOADI, 2),
            code(Opt::OUT, 0),
            code(Opt::RETURN, 0),
        ]
    );
    let (outputs, status, _) = run(source, &[]);
    assert_eq!(outputs, vec![2]);
    assert_eq!(status, Status::Halted);
}

#[test]
fn if_with_else_takes_one_branch() {
    let source = "main() { int a; read a; if (a > 0) write 1; else write 2; }";
    assert_eq!(run(source, &[5]).0, vec![1]);
    assert_eq!(run(source, &[-5]).0, vec![2]);
    let codes = compile(source).unwrap();
    assert_eq!(codes[7], code(Opt::BRF, 11));
    assert_eq!(codes[10], code(Opt::BR, 13));
}

#[test]
fn while_layout() {
    let codes = compile("main() { int a; while (a) a = a - 1; }").unwrap();
    assert_eq!(
        codes,
        vec![
            code(Opt::BR, 1),
            code(Opt::ENTER, 3),
            code(Opt::LOAD, 2),
            code(Opt::BRF, 9),
            code(Opt::LOAD, 2),
            code(Opt::LOADI, 1),
            code(Opt::SUB, 0),
            code(Opt::STO, 2),
            code(Opt::BR, 2),
            code(Opt::RETURN, 0),
        ]
    );
}

#[test]
fn redefinition_is_rejected() {
    assert_eq!(
        compile("main() { int x; int x; }"),
        Err(CompileError::VariableRedefined)
    );
}

#[test]
fn undeclared_is_rejected() {
    assert_eq!(compile("main() { y = 1; }"), Err(CompileError::Undeclared));
    assert_eq!(compile("main() { write y; }"), Err(CompileError::Undeclared));
    assert_eq!(compile("main() { read y; }"), Err(CompileError::Undeclared));
}

#[test]
fn last_function_must_be_main() {
    assert_eq!(compile("foo() { }"), Err(CompileError::LastMustBeMain));
    assert_eq!(
        compile("function f() { } foo() { }"),
        Err(CompileError::LastMustBeMain)
    );
}

#[test]
fn a_name_may_be_used_in_two_functions() {
    let source = "function f(int x) { int y; y = x; write y; }
    main() { int x; int y; x = 3; y = 4; call f(x); write y; }";
    let (outputs, status, _) = run(source, &[]);
    assert_eq!(outputs, vec![3, 4]);
    assert_eq!(status, Status::Halted);
}

#[test]
fn a_parameter_and_a_local_of_one_name_collide() {
    assert_eq!(
        compile("function f(int x) { int x; } main() { }"),
        Err(CompileError::VariableRedefined)
    );
}

#[test]
fn runs_are_repeatable() {
    let source = "main() { int n; read n; while (n > 0) { write n; n = n - 1; } }";
    let first = run(source, &[4]);
    let second = run(source, &[4]);
    assert_eq!(first, second);
    assert_eq!(first.0, vec![4, 3, 2, 1]);
}

#[test]
fn the_limit_does_not_change_a_finished_run() {
    let codes = compile("main() { write 1; }").unwrap();
    let short = execute(&codes, &[], 10);
    let long = execute(&codes, &[], 1000);
    assert_eq!(short.steps, 5);
    assert_eq!(long.steps, 5);
    assert_eq!(short.outputs, long.outputs);
    assert_eq!(short.machine.status, Status::Halted);
    assert_eq!(short.machine.ip, 0);
}

#[test]
fn a_run_stops_at_its_limit() {
    let codes = compile("main() { while (1) ; }").unwrap();
    let execution = execute(&codes, &[], 50);
    assert_eq!(execution.steps, 50);
    assert_eq!(execution.machine.status, Status::Running);
}

#[test]
fn division_by_zero_faults() {
    let (outputs, status, _) = run("main() { write 1 / 0; }", &[]);
    assert_eq!(outputs, Vec::<i32>::new());
    assert_eq!(status, Status::Faulted(Fault::DivideByZero));
}

#[test]
fn missing_input_faults() {
    let (_, status, _) = run("main() { int a; read a; }", &[]);
    assert_eq!(status, Status::Faulted(Fault::MalformedInput));
}

#[test]
fn deep_recursion_overflows_the_stack() {
    let source = "function f() { call f(); } main() { call f(); }";
    let (_, status, _) = run(source, &[]);
    assert_eq!(status, Status::Faulted(Fault::StackOverflow));
}

#[test]
fn arithmetic_and_precedence() {
    let (outputs, _, _) = run(
        "main() { write 2 + 3 * 4; write (2 + 3) * 4; write 7 / 2; write 10 - 4 - 3; write 8 / 2 / 2; }",
        &[],
    );
    assert_eq!(outputs, vec![14, 20, 3, 3, 2]);
}

#[test]
fn comparisons() {
    let (outputs, _, _) = run(
        "main() { write 1 < 2; write 2 < 1; write 2 <= 2; write 3 >= 4; write 3 > 2; write 3 == 3; write 3 != 3; }",
        &[],
    );
    assert_eq!(outputs, vec![1, 0, 1, 0, 1, 1, 0]);
}
