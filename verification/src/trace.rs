//! A trace of a run as text: the instruction of each step, and the stack
//! with its two registers marked.

use crate::image::{opcode_name, opcode_text};
use crate::opcode::Code;
use crate::text::{decimal, push_char, push_decimal, push_signed, signed_decimal};
use vstd::prelude::*;
use vstd::string::*;

verus! {

/// The line of a step: its number, the name of the opcode, and the operand
/// where it means something.
pub open spec fn step_text(step: nat, c: Code) -> Seq<char> {
    "Step"@ + decimal(step) + ":  "@ + opcode_name(c.opt) + if c.opt.carries_operand() {
        "    "@ + signed_decimal(c.operand as int)
    } else {
        Seq::empty()
    }
}

/// The line of a step.
pub fn step_line(step: usize, c: Code) -> (s: String)
    ensures
        s@ == step_text(step as nat, c),
{
    let mut s = String::new();
    s.append("Step");
    push_decimal(&mut s, step as u64);
    s.append(":  ");
    s.append(opcode_text(c.opt));
    if c.opt.has_operand() {
        s.append("    ");
        push_signed(&mut s, c.operand);
    }
    assert(s@ =~= step_text(step as nat, c));
    s
}

/// The line of a cell: its value between two stars, and a mark where the
/// cell is the first of the current frame.
pub open spec fn cell_text(value: i32, is_base: bool) -> Seq<char> {
    "\t*    "@ + signed_decimal(value as int) + "    *"@ + if is_base {
        "    <----base"@
    } else {
        Seq::empty()
    } + seq!['\n']
}

/// The lines of the first `n` cells of a stack.
pub open spec fn cells_text(stack: Seq<i32>, n: nat, base: int) -> Seq<char>
    decreases n,
{
    if n == 0 {
        Seq::empty()
    } else {
        cells_text(stack, (n - 1) as nat, base) + cell_text(stack[n - 1], n - 1 == base)
    }
}

/// The number of cells in use: `top`, or all cells where `top` lies beyond
/// them.
pub open spec fn window(stack: Seq<i32>, top: int) -> nat {
    if top < 0 {
        0
    } else if top <= stack.len() {
        top as nat
    } else {
        stack.len()
    }
}

/// The stack as text, from cell 0 upward: a line of stars, the cells in
/// use, an empty cell marked as the top, and a line of dashes.
pub open spec fn stack_text(stack: Seq<i32>, top: int, base: int) -> Seq<char> {
    "\t************\n"@ + cells_text(stack, window(stack, top), base)
        + "\t*          *    <----top"@ + if top == base {
        "(base)"@
    } else {
        Seq::empty()
    } + seq!['\n'] + "\t------------\n"@
}

/// The stack as text.
pub fn show_stack_info(stack: &[i32], top: usize, base: usize) -> (s: String)
    ensures
        s@ == stack_text(stack@, top as int, base as int),
{
    let mut s = String::new();
    s.append("\t************\n");
    let n = if top <= stack.len() {
        top
    } else {
        stack.len()
    };
    let ghost head = s@;
    let mut i: usize = 0;
    assert(s@ =~= head + cells_text(stack@, 0, base as int));
    while i < n
        invariant
            i <= n <= stack.len(),
            s@ == head + cells_text(stack@, i as nat, base as int),
        decreases n - i,
    {
        let ghost before = s@;
        s.append("\t*    ");
        push_signed(&mut s, stack[i]);
        s.append("    *");
        if i == base {
            s.append("    <----base");
        }
        push_char(&mut s, '\n');
        i += 1;
        assert(s@ =~= before + cell_text(stack@[i - 1], i - 1 == base));
        assert(s@ =~= head + cells_text(stack@, i as nat, base as int));
    }
    s.append("\t*          *    <----top");
    if top == base {
        s.append("(base)");
    }
    push_char(&mut s, '\n');
    s.append("\t------------\n");
    assert(s@ =~= stack_text(stack@, top as int, base as int));
    s
}

} // verus!
