use tinyc::image::{to_records, Record};
use tinyc::listing::{display_codes, format_listing, push_listing_line};
use tinyc::opcode::{Code, Opt};
use tinyc::text::{push_blanks, push_decimal, push_signed};
use tinyc::trace::{show_stack_info, step_line};

fn code(opt: Opt, operand: i32) -> Code {
    Code { opt, operand }
}

fn line(index: usize, c: Code) -> String {
    let mut s = String::new();
    push_listing_line(&mut s, index, c);
    s
}

#[test]
fn the_listing_of_the_empty_main() {
    let codes = [code(Opt::BR, 1), code(Opt::ENTER, 2), code(Opt::RETURN, 0)];
    assert_eq!(
        format_listing(&codes),
        "   0 BR    1  \n   1 ENTER 2  \n   2 RETURN\n"
    );
    assert_eq!(format_listing(&[]), "");
}

#[test]
fn lines_are_laid_out_in_columns() {
    assert_eq!(line(0, code(Opt::BR, 1)), format!(" {:3} {:<5} {:<3}", 0, "BR", 1));
    assert_eq!(line(12, code(Opt::LOADI, 12345)), format!(" {:3} {:<5} {:<3}", 12, "LOADI", 12345));
    assert_eq!(line(999, code(Opt::STO, -7)), format!(" {:3} {:<5} {:<3}", 999, "STO", -7));
    assert_eq!(line(1000, code(Opt::CAL, 10)), format!(" {:3} {:<5} {:<3}", 1000, "CAL", 10));
    assert_eq!(line(5, code(Opt::ADD, 0)), format!(" {:3} {:<5}", 5, "ADD"));
    assert_eq!(line(5, code(Opt::RETURN, 0)), format!(" {:3} {:<5}", 5, "RETURN"));
    assert_eq!(line(7, code(Opt::IN, 99)), "   7 IN   ");
}

#[test]
fn seven_opcodes_print_an_operand() {
    let with = [Opt::LOAD, Opt::LOADI, Opt::STO, Opt::BR, Opt::BRF, Opt::CAL, Opt::ENTER];
    let without = [
        Opt::STI,
        Opt::ADD,
        Opt::SUB,
        Opt::MULT,
        Opt::DIV,
        Opt::EQ,
        Opt::NOTEQ,
        Opt::GT,
        Opt::LES,
        Opt::GE,
        Opt::LE,
        Opt::AND,
        Opt::OR,
        Opt::NOT,
        Opt::IN,
        Opt::OUT,
        Opt::RETURN,
        Opt::PAS,
    ];
    for opt in with {
        assert!(opt.has_operand());
        let text = line(3, code(opt, 41));
        assert_eq!(text.split_whitespace().count(), 3, "{:?}", text);
        assert_eq!(text.split_whitespace().last(), Some("41"));
    }
    for opt in without {
        assert!(!opt.has_operand());
        let text = line(3, code(opt, 41));
        assert_eq!(text.split_whitespace().count(), 2, "{:?}", text);
    }
}

#[test]
fn the_dump_names_index_opcode_and_operand() {
    let mut records =
        to_records(&[code(Opt::BR, 1), code(Opt::LOADI, -5), code(Opt::RETURN, 0)]);
    records.push(Record { opt: *b"what\0ever\0", operand: 7 });
    records.push(Record { opt: [0; 10], operand: 0 });
    assert_eq!(
        display_codes(&records),
        "Code 0: opt = BR, operand = 1\nCode 1: opt = LOADI, operand = -5\nCode 2: opt = RETURN, operand = 0\nCode 3: opt = what, operand = 7\nCode 4: opt = , operand = 0\n"
    );
    assert_eq!(display_codes(&[]), "");
}

#[test]
fn numbers_are_written_in_decimal() {
    for n in [0u64, 7, 10, 99, 100, 12345, u64::MAX] {
        let mut s = String::from("n=");
        push_decimal(&mut s, n);
        assert_eq!(s, format!("n={}", n));
    }
    for x in [0, 5, -5, 10, -10, i32::MAX, i32::MIN] {
        let mut s = String::new();
        push_signed(&mut s, x);
        assert_eq!(s, format!("{}", x));
    }
}

#[test]
fn blanks_are_appended() {
    let mut s = String::from("a");
    push_blanks(&mut s, 3);
    push_blanks(&mut s, 0);
    assert_eq!(s, "a   ");
}

#[test]
fn a_step_is_traced_with_its_operand_where_it_has_one() {
    assert_eq!(step_line(0, code(Opt::BR, 1)), "Step0:  BR    1");
    assert_eq!(step_line(12, code(Opt::ADD, 0)), "Step12:  ADD");
    assert_eq!(step_line(3, code(Opt::LOADI, -4)), "Step3:  LOADI    -4");
}

#[test]
fn the_stack_is_shown_with_its_registers() {
    assert_eq!(
        show_stack_info(&[0, 0, 7, -3, 9], 4, 0),
        "\t************\n\t*    0    *    <----base\n\t*    0    *\n\t*    7    *\n\t*    -3    *\n\t*          *    <----top\n\t------------\n"
    );
    assert_eq!(
        show_stack_info(&[5, 6], 0, 0),
        "\t************\n\t*          *    <----top(base)\n\t------------\n"
    );
    assert_eq!(
        show_stack_info(&[5, 6], 1, 1),
        "\t************\n\t*    5    *\n\t*          *    <----top(base)\n\t------------\n"
    );
    assert_eq!(
        show_stack_info(&[5, 6], 9, 1),
        "\t************\n\t*    5    *\n\t*    6    *    <----base\n\t*          *    <----top\n\t------------\n"
    );
}
