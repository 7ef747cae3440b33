use tinyc::image::{init_map, to_records, Record};
use tinyc::machine::{test_machine, Execution, Fault, Machine, Status, STACK_CAPACITY};
use tinyc::opcode::{Code, Opt};

fn code(opt: Opt, operand: i32) -> Code {
    Code { opt, operand }
}

fn recs(codes: &[Code]) -> Vec<Record> {
    to_records(codes)
}

fn execute(codes: &[Code], inputs: &[i32], limit: usize) -> Execution {
    test_machine(&to_records(codes), &init_map(), inputs, limit)
}

fn binary(opt: Opt, x: i32, y: i32) -> Result<i32, Fault> {
    let codes = [
        code(Opt::LOADI, x),
        code(Opt::LOADI, y),
        code(opt, 0),
        code(Opt::OUT, 0),
        code(Opt::BR, 0),
    ];
    let execution = execute(&codes, &[], 100);
    match execution.machine.status {
        Status::Halted => {
            assert_eq!(execution.steps, 5);
            assert_eq!(execution.outputs.len(), 1);
            Ok(execution.outputs[0])
        }
        Status::Faulted(f) => Err(f),
        Status::Running => panic!("the program has five steps"),
    }
}

fn fault_of(codes: &[Code]) -> Status {
    execute(codes, &[], 1000).machine.status
}

#[test]
fn a_fresh_machine() {
    let m = Machine::new();
    assert_eq!(m.ip, 0);
    assert_eq!(m.top, 0);
    assert_eq!(m.base, 0);
    assert_eq!(m.stack, vec![0; STACK_CAPACITY]);
    assert_eq!(m.status, Status::Running);
    assert!(m.is_running());
    assert!(m.is_well_formed());
    assert_eq!(STACK_CAPACITY, 100);
}

#[test]
fn arithmetic_wraps() {
    assert_eq!(binary(Opt::ADD, 2, 3), Ok(5));
    assert_eq!(binary(Opt::ADD, i32::MAX, 1), Ok(i32::MIN));
    assert_eq!(binary(Opt::SUB, 2, 3), Ok(-1));
    assert_eq!(binary(Opt::SUB, i32::MIN, 1), Ok(i32::MAX));
    assert_eq!(binary(Opt::MULT, 6, 7), Ok(42));
    assert_eq!(binary(Opt::MULT, 65536, 65536), Ok(0));
    assert_eq!(binary(Opt::MULT, i32::MAX, 2), Ok(-2));
}

#[test]
fn division_rounds_toward_zero() {
    assert_eq!(binary(Opt::DIV, 7, 2), Ok(3));
    assert_eq!(binary(Opt::DIV, -7, 2), Ok(-3));
    assert_eq!(binary(Opt::DIV, 7, -2), Ok(-3));
    assert_eq!(binary(Opt::DIV, -7, -2), Ok(3));
    assert_eq!(binary(Opt::DIV, 0, 5), Ok(0));
    assert_eq!(binary(Opt::DIV, i32::MIN, -1), Ok(i32::MIN));
    assert_eq!(binary(Opt::DIV, i32::MIN, 1), Ok(i32::MIN));
    assert_eq!(binary(Opt::DIV, 1, 0), Err(Fault::DivideByZero));
    assert_eq!(binary(Opt::DIV, 0, 0), Err(Fault::DivideByZero));
}

#[test]
fn comparisons_give_one_or_zero() {
    assert_eq!(binary(Opt::EQ, 3, 3), Ok(1));
    assert_eq!(binary(Opt::EQ, 3, 4), Ok(0));
    assert_eq!(binary(Opt::NOTEQ, 3, 3), Ok(0));
    assert_eq!(binary(Opt::NOTEQ, 3, 4), Ok(1));
    assert_eq!(binary(Opt::GT, 4, 3), Ok(1));
    assert_eq!(binary(Opt::GT, 3, 3), Ok(0));
    assert_eq!(binary(Opt::LES, 3, 4), Ok(1));
    assert_eq!(binary(Opt::LES, 4, 3), Ok(0));
    assert_eq!(binary(Opt::GE, 3, 3), Ok(1));
    assert_eq!(binary(Opt::GE, 2, 3), Ok(0));
    assert_eq!(binary(Opt::LE, 3, 3), Ok(1));
    assert_eq!(binary(Opt::LE, 4, 3), Ok(0));
    assert_eq!(binary(Opt::LES, -1, 0), Ok(1));
}

#[test]
fn logic_takes_nonzero_for_true() {
    assert_eq!(binary(Opt::AND, 2, -3), Ok(1));
    assert_eq!(binary(Opt::AND, 2, 0), Ok(0));
    assert_eq!(binary(Opt::AND, 0, 0), Ok(0));
    assert_eq!(binary(Opt::OR, 0, -3), Ok(1));
    assert_eq!(binary(Opt::OR, 2, 0), Ok(1));
    assert_eq!(binary(Opt::OR, 0, 0), Ok(0));
    for (x, expected) in [(0, 1), (1, 0), (-5, 0)] {
        let codes = [code(Opt::LOADI, x), code(Opt::NOT, 0), code(Opt::OUT, 0), code(Opt::BR, 0)];
        assert_eq!(execute(&codes, &[], 10).outputs, vec![expected]);
    }
}

#[test]
fn load_and_store_address_the_frame() {
    let codes = [
        code(Opt::ENTER, 4),
        code(Opt::LOADI, 11),
        code(Opt::STO, 2),
        code(Opt::LOADI, 22),
        code(Opt::STO, 3),
        code(Opt::LOAD, 3),
        code(Opt::LOAD, 2),
        code(Opt::OUT, 0),
        code(Opt::OUT, 0),
        code(Opt::RETURN, 0),
    ];
    let execution = execute(&codes, &[], 100);
    assert_eq!(execution.outputs, vec![11, 22]);
    assert_eq!(execution.machine.status, Status::Halted);
    assert_eq!(execution.machine.stack[2], 11);
    assert_eq!(execution.machine.stack[3], 22);
    assert_eq!(execution.machine.top, 0);
    assert_eq!(execution.steps, 10);
}

#[test]
fn a_call_links_the_frames() {
    let codes = [
        code(Opt::ENTER, 2),
        code(Opt::LOADI, 5),
        code(Opt::PAS, 0),
        code(Opt::CAL, 6),
        code(Opt::RETURN, 0),
        code(Opt::STI, 0),
        code(Opt::ENTER, 3),
        code(Opt::LOAD, 2),
        code(Opt::OUT, 0),
        code(Opt::RETURN, 0),
    ];
    let mut m = Machine::new();
    assert_eq!(m.step(&recs(&codes), &init_map(), None), None);
    assert_eq!((m.ip, m.top, m.base), (1, 2, 0));
    m.step(&recs(&codes), &init_map(), None);
    assert_eq!((m.ip, m.top, m.base), (2, 3, 0));
    m.step(&recs(&codes), &init_map(), None);
    assert_eq!((m.ip, m.top, m.base), (3, 2, 0));
    assert_eq!(m.stack[4], 5);
    m.step(&recs(&codes), &init_map(), None);
    assert_eq!((m.ip, m.top, m.base), (6, 2, 2));
    assert_eq!(m.stack[2], 0);
    assert_eq!(m.stack[3], 4);
    m.step(&recs(&codes), &init_map(), None);
    assert_eq!((m.ip, m.top, m.base), (7, 5, 2));
    m.step(&recs(&codes), &init_map(), None);
    assert_eq!((m.ip, m.top, m.base), (8, 6, 2));
    assert_eq!(m.step(&recs(&codes), &init_map(), None), Some(5));
    assert_eq!((m.ip, m.top, m.base), (9, 5, 2));
    m.step(&recs(&codes), &init_map(), None);
    assert_eq!((m.ip, m.top, m.base), (4, 2, 0));
    assert_eq!(m.status, Status::Running);
    m.step(&recs(&codes), &init_map(), None);
    assert_eq!((m.ip, m.top, m.base), (0, 0, 0));
    assert_eq!(m.status, Status::Halted);
    assert_eq!(m.step(&recs(&codes), &init_map(), None), None);
    assert_eq!((m.ip, m.top, m.base), (0, 0, 0));
    assert_eq!(m.status, Status::Halted);
}

#[test]
fn branches() {
    let codes = [
        code(Opt::LOADI, 0),
        code(Opt::BRF, 4),
        code(Opt::LOADI, 1),
        code(Opt::OUT, 0),
        code(Opt::LOADI, 1),
        code(Opt::BRF, 0),
        code(Opt::LOADI, 2),
        code(Opt::OUT, 0),
        code(Opt::BR, 0),
    ];
    let execution = execute(&codes, &[], 100);
    assert_eq!(execution.outputs, vec![2]);
    assert_eq!(execution.steps, 7);
    assert_eq!(execution.machine.status, Status::Halted);
}

#[test]
fn inputs_are_taken_in_order() {
    let codes = [
        code(Opt::IN, 0),
        code(Opt::IN, 0),
        code(Opt::SUB, 0),
        code(Opt::OUT, 0),
        code(Opt::BR, 0),
    ];
    assert_eq!(execute(&codes, &[10, 3], 100).outputs, vec![7]);
    assert_eq!(execute(&codes, &[10, 3, 99], 100).outputs, vec![7]);
    let short = execute(&codes, &[10], 100);
    assert_eq!(short.machine.status, Status::Faulted(Fault::MalformedInput));
    assert_eq!(short.machine.ip, 1);
    assert_eq!(short.steps, 2);
    let mut m = Machine::new();
    assert!(m.needs_input(&recs(&codes), &init_map()));
    m.step(&recs(&codes), &init_map(), Some(4));
    assert!(m.needs_input(&recs(&codes), &init_map()));
    m.step(&recs(&codes), &init_map(), Some(5));
    assert!(!m.needs_input(&recs(&codes), &init_map()));
    assert_eq!(&m.stack[..2], &[4, 5]);
}

#[test]
fn faults() {
    assert_eq!(fault_of(&[]), Status::Faulted(Fault::BadAddress));
    assert_eq!(fault_of(&[code(Opt::LOADI, 1)]), Status::Faulted(Fault::BadAddress));
    assert_eq!(fault_of(&[code(Opt::BR, -1)]), Status::Faulted(Fault::BadAddress));
    assert_eq!(fault_of(&[code(Opt::BR, 7)]), Status::Faulted(Fault::BadAddress));
    assert_eq!(fault_of(&[code(Opt::CAL, -1)]), Status::Faulted(Fault::BadAddress));
    assert_eq!(
        fault_of(&[code(Opt::LOADI, 0), code(Opt::BRF, -1)]),
        Status::Faulted(Fault::BadAddress)
    );
    assert_eq!(fault_of(&[code(Opt::STI, 0)]), Status::Faulted(Fault::UnknownOpcode));
    assert_eq!(fault_of(&[code(Opt::OUT, 0)]), Status::Faulted(Fault::StackUnderflow));
    assert_eq!(fault_of(&[code(Opt::ADD, 0)]), Status::Faulted(Fault::StackUnderflow));
    assert_eq!(
        fault_of(&[code(Opt::LOADI, 1), code(Opt::ADD, 0)]),
        Status::Faulted(Fault::StackUnderflow)
    );
    assert_eq!(fault_of(&[code(Opt::NOT, 0)]), Status::Faulted(Fault::StackUnderflow));
    assert_eq!(fault_of(&[code(Opt::STO, 2)]), Status::Faulted(Fault::StackUnderflow));
    assert_eq!(fault_of(&[code(Opt::PAS, 0)]), Status::Faulted(Fault::StackUnderflow));
    assert_eq!(fault_of(&[code(Opt::BRF, 0)]), Status::Faulted(Fault::StackUnderflow));
    assert_eq!(fault_of(&[code(Opt::LOAD, -1)]), Status::Faulted(Fault::StackUnderflow));
    assert_eq!(fault_of(&[code(Opt::ENTER, -1)]), Status::Faulted(Fault::StackUnderflow));
    assert_eq!(fault_of(&[code(Opt::ENTER, 101)]), Status::Faulted(Fault::StackOverflow));
    assert_eq!(fault_of(&[code(Opt::LOAD, 100)]), Status::Faulted(Fault::StackOverflow));
    assert_eq!(
        fault_of(&[code(Opt::ENTER, 100), code(Opt::LOADI, 1)]),
        Status::Faulted(Fault::StackOverflow)
    );
    assert_eq!(
        fault_of(&[code(Opt::ENTER, 99), code(Opt::CAL, 0)]),
        Status::Faulted(Fault::StackOverflow)
    );
    assert_eq!(
        fault_of(&[code(Opt::ENTER, 1), code(Opt::LOADI, 1), code(Opt::STO, 100)]),
        Status::Faulted(Fault::StackOverflow)
    );
    assert_eq!(
        fault_of(&[code(Opt::ENTER, 100), code(Opt::IN, 0)]),
        Status::Faulted(Fault::MalformedInput)
    );
}

#[test]
fn a_corrupted_linkage_faults() {
    let bad_return = [
        code(Opt::ENTER, 2),
        code(Opt::LOADI, -1),
        code(Opt::STO, 1),
        code(Opt::RETURN, 0),
    ];
    assert_eq!(fault_of(&bad_return), Status::Faulted(Fault::BadAddress));
    let bad_base = [
        code(Opt::ENTER, 2),
        code(Opt::LOADI, 9),
        code(Opt::STO, 0),
        code(Opt::RETURN, 0),
    ];
    assert_eq!(fault_of(&bad_base), Status::Faulted(Fault::StackUnderflow));
}

#[test]
fn a_faulted_machine_keeps_its_registers() {
    let codes = [code(Opt::ENTER, 3), code(Opt::LOADI, 7), code(Opt::STI, 0)];
    let execution = execute(&codes, &[], 10);
    assert_eq!(execution.steps, 3);
    assert_eq!(execution.machine.status, Status::Faulted(Fault::UnknownOpcode));
    assert_eq!((execution.machine.ip, execution.machine.top, execution.machine.base), (2, 4, 0));
    let mut m = execution.machine;
    assert!(!m.is_running());
    assert_eq!(m.step(&recs(&codes), &init_map(), None), None);
    assert_eq!((m.ip, m.top, m.base), (2, 4, 0));
}

#[test]
fn the_registers_stay_in_order() {
    let codes = [
        code(Opt::ENTER, 3),
        code(Opt::LOADI, 40),
        code(Opt::STO, 2),
        code(Opt::LOAD, 2),
        code(Opt::BRF, 14),
        code(Opt::LOAD, 2),
        code(Opt::PAS, 0),
        code(Opt::CAL, 15),
        code(Opt::LOAD, 2),
        code(Opt::LOADI, 1),
        code(Opt::SUB, 0),
        code(Opt::STO, 2),
        code(Opt::BR, 3),
        code(Opt::STI, 0),
        code(Opt::RETURN, 0),
        code(Opt::ENTER, 3),
        code(Opt::LOAD, 2),
        code(Opt::OUT, 0),
        code(Opt::RETURN, 0),
    ];
    let mut m = Machine::new();
    let mut outputs = Vec::new();
    let mut steps = 0;
    while m.is_running() {
        if let Some(v) = m.step(&recs(&codes), &init_map(), None) {
            outputs.push(v);
        }
        steps += 1;
        assert!(m.is_well_formed());
        assert!(m.base <= m.top && m.top <= STACK_CAPACITY);
        assert!(steps < 10_000);
    }
    assert_eq!(m.status, Status::Halted);
    assert_eq!(m.ip, 0);
    assert_eq!(outputs, (1..=40).rev().collect::<Vec<i32>>());
    let execution = execute(&codes, &[], 10_000);
    assert_eq!(execution.steps, steps);
    assert_eq!(execution.outputs, outputs);
}

#[test]
fn no_step_is_taken_under_a_limit_of_zero() {
    let execution = execute(&[code(Opt::BR, 0)], &[], 0);
    assert_eq!(execution.steps, 0);
    assert_eq!(execution.machine.status, Status::Running);
    assert_eq!(execute(&[code(Opt::BR, 0)], &[], 1).machine.status, Status::Halted);
}

#[test]
fn a_record_without_an_opcode_faults_when_it_is_met() {
    let mut records = to_records(&[
        code(Opt::LOADI, 5),
        code(Opt::OUT, 0),
        code(Opt::ADD, 0),
        code(Opt::BR, 0),
    ]);
    records[2] = Record { opt: *b"XYZ\0\0\0\0\0\0\0", operand: 0 };
    let execution = test_machine(&records, &init_map(), &[], 100);
    assert_eq!(execution.outputs, vec![5]);
    assert_eq!(execution.steps, 3);
    assert_eq!(execution.machine.status, Status::Faulted(Fault::UnknownOpcode));
    assert_eq!((execution.machine.ip, execution.machine.top), (2, 0));
}

#[test]
fn a_record_without_an_opcode_does_no_harm_where_it_is_not_met() {
    let mut records = to_records(&[
        code(Opt::LOADI, 5),
        code(Opt::OUT, 0),
        code(Opt::BR, 0),
        code(Opt::ADD, 0),
    ]);
    records[3] = Record { opt: [0; 10], operand: 77 };
    let execution = test_machine(&records, &init_map(), &[], 100);
    assert_eq!(execution.outputs, vec![5]);
    assert_eq!(execution.machine.status, Status::Halted);
    let mut m = Machine::new();
    assert!(!m.needs_input(&records[3..], &init_map()));
    assert_eq!(m.step(&records[3..], &init_map(), Some(1)), None);
    assert_eq!(m.status, Status::Faulted(Fault::UnknownOpcode));
}
