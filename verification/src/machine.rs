//! The abstract machine: one stack of 32-bit integers, an instruction
//! pointer, and two registers into the stack.
//!
//! A frame starts at `base`. Its first two cells hold the caller's `base` and
//! the return address; parameters and locals follow from offset 2. `top` is
//! the first free cell.

use crate::image::{decoded_all, record_views, Record};
use crate::opcode::{Code, Opt};
use vstd::hash_map::StringHashMap;
use vstd::prelude::*;

verus! {

/// Number of cells of the machine's stack.
pub const STACK_CAPACITY: usize = 100;

/// Why a machine stopped abnormally.
#[derive(Debug, Clone, Copy, PartialEq, Eq, Structural)]
pub enum Fault {
    /// A cell at or beyond the capacity was addressed, or `top` would pass it.
    StackOverflow,
    /// A cell below the stack was addressed, `top` would fall below `base`,
    /// or a restored `base` lies outside the stack in use.
    StackUnderflow,
    /// `DIV` with a zero divisor.
    DivideByZero,
    /// `IN` without a well-formed integer to read.
    MalformedInput,
    /// A record that names no opcode, or an opcode that the machine does not
    /// implement.
    UnknownOpcode,
    /// The instruction pointer left the code, or a jump target or return
    /// address cannot be one.
    BadAddress,
}

/// The three states of a machine; the last two are terminal.
#[derive(Debug, Clone, Copy, PartialEq, Eq, Structural)]
pub enum Status {
    Running,
    Halted,
    Faulted(Fault),
}

/// The machine's registers and stack.
#[derive(Debug)]
pub struct Machine {
    pub ip: usize,
    pub top: usize,
    pub base: usize,
    pub stack: Vec<i32>,
    pub status: Status,
}

/// A machine as a mathematical value.
pub struct MachineState {
    pub ip: int,
    pub top: int,
    pub base: int,
    pub stack: Seq<i32>,
    pub status: Status,
}

/// What one instruction does to a running machine.
pub struct Effect {
    pub ip: int,
    pub top: int,
    pub base: int,
    pub stack: Seq<i32>,
    pub output: Option<i32>,
}

/// The result of one step: the next state and the value written, if any.
pub struct Step {
    pub next: MachineState,
    pub output: Option<i32>,
}

impl View for Machine {
    type V = MachineState;

    open spec fn view(&self) -> MachineState {
        MachineState {
            ip: self.ip as int,
            top: self.top as int,
            base: self.base as int,
            stack: self.stack@,
            status: self.status,
        }
    }
}

impl MachineState {
    /// `0 <= base <= top <= capacity`, over a stack of exactly that capacity.
    pub open spec fn wf(self) -> bool {
        &&& 0 <= self.base <= self.top <= STACK_CAPACITY
        &&& self.stack.len() == STACK_CAPACITY
        &&& 0 <= self.ip
        &&& self.status == Status::Halted ==> self.ip == 0
    }
}

/// The state in which every run starts: all registers zero over a stack of
/// zeros, so that the saved return address of the first frame is 0.
pub open spec fn initial_state() -> MachineState {
    MachineState {
        ip: 0,
        top: 0,
        base: 0,
        stack: Seq::new(STACK_CAPACITY as nat, |i: int| 0i32),
        status: Status::Running,
    }
}

/// The quotient of `x` by `d` rounded toward zero.
pub open spec fn truncated_quotient(x: int, d: int) -> int
    recommends
        d != 0,
{
    if x >= 0 && d > 0 {
        x / d
    } else if x < 0 && d < 0 {
        (-x) / (-d)
    } else if x < 0 {
        -((-x) / d)
    } else {
        -(x / (-d))
    }
}

/// The quotient of two 32-bit integers fits in 32 bits, except for the
/// least of them divided by -1.
pub proof fn lemma_quotient_bounds(x: int, d: int)
    requires
        d != 0,
        i32::MIN <= x <= i32::MAX,
        !(x == i32::MIN && d == -1),
    ensures
        i32::MIN <= truncated_quotient(x, d) <= i32::MAX,
{
    let a = if x >= 0 {
        x
    } else {
        -x
    };
    let b = if d > 0 {
        d
    } else {
        -d
    };
    assert(0 <= a / b <= a && (b > 1 && a > 0 ==> a / b < a)) by (nonlinear_arith)
        requires
            a >= 0,
            b > 0,
    ;
    if x >= 0 && d > 0 {
        assert(truncated_quotient(x, d) == a / b);
    } else if x < 0 && d < 0 {
        assert(truncated_quotient(x, d) == a / b);
    } else if x < 0 {
        assert(truncated_quotient(x, d) == -(a / b));
    } else {
        assert(truncated_quotient(x, d) == -(a / b));
    }
}

/// Division as the machine performs it: toward zero, and wrapping in the one
/// case where the quotient does not fit.
pub open spec fn machine_quotient(x: i32, d: i32) -> i32
    recommends
        d != 0,
{
    if x == i32::MIN && d == -1 {
        i32::MIN
    } else {
        truncated_quotient(x as int, d as int) as i32
    }
}

/// 1 for true, 0 for false.
pub open spec fn truth(b: bool) -> i32 {
    if b {
        1
    } else {
        0
    }
}

/// What the two-operand opcodes compute from the cell below the top (`x`)
/// and the top cell (`y`). `DIV` is defined for a nonzero `y` only.
pub open spec fn binary_result(opt: Opt, x: i32, y: i32) -> i32 {
    match opt {
        Opt::ADD => x.wrapping_add(y),
        Opt::SUB => x.wrapping_sub(y),
        Opt::MULT => x.wrapping_mul(y),
        Opt::DIV => machine_quotient(x, y),
        Opt::EQ => truth(x == y),
        Opt::NOTEQ => truth(x != y),
        Opt::GT => truth(x > y),
        Opt::LES => truth(x < y),
        Opt::GE => truth(x >= y),
        Opt::LE => truth(x <= y),
        Opt::AND => truth(x != 0 && y != 0),
        Opt::OR => truth(x != 0 || y != 0),
        _ => 0,
    }
}

/// The opcodes that replace the two topmost cells by one.
pub open spec fn is_binary(opt: Opt) -> bool {
    opt == Opt::ADD || opt == Opt::SUB || opt == Opt::MULT || opt == Opt::DIV || opt == Opt::EQ
        || opt == Opt::NOTEQ || opt == Opt::GT || opt == Opt::LES || opt == Opt::GE || opt
        == Opt::LE || opt == Opt::AND || opt == Opt::OR
}

/// The effect of instruction `c` on the running machine `s`, whose
/// instruction pointer has already moved on to `next`; or the fault that it
/// raises. `input` is the integer that `IN` reads, if there is one.
pub open spec fn instruction(c: Code, s: MachineState, next: int, input: Option<i32>) -> Result<
    Effect,
    Fault,
> {
    let n = c.operand as int;
    let same = Effect { ip: next, top: s.top, base: s.base, stack: s.stack, output: None };
    if is_binary(c.opt) {
        if s.top - 1 < s.base || s.top < 2 {
            Err(Fault::StackUnderflow)
        } else if c.opt == Opt::DIV && s.stack[s.top - 1] == 0 {
            Err(Fault::DivideByZero)
        } else {
            Ok(
                Effect {
                    top: s.top - 1,
                    stack: s.stack.update(
                        s.top - 2,
                        binary_result(c.opt, s.stack[s.top - 2], s.stack[s.top - 1]),
                    ),
                    ..same
                },
            )
        }
    } else {
        match c.opt {
            Opt::LOAD => {
                if s.base + n < 0 {
                    Err(Fault::StackUnderflow)
                } else if s.base + n >= STACK_CAPACITY || s.top >= STACK_CAPACITY {
                    Err(Fault::StackOverflow)
                } else {
                    Ok(
                        Effect {
                            top: s.top + 1,
                            stack: s.stack.update(s.top, s.stack[s.base + n]),
                            ..same
                        },
                    )
                }
            },
            Opt::LOADI => {
                if s.top >= STACK_CAPACITY {
                    Err(Fault::StackOverflow)
                } else {
                    Ok(Effect { top: s.top + 1, stack: s.stack.update(s.top, c.operand), ..same })
                }
            },
            Opt::STO => {
                if s.top - 1 < s.base || s.base + n < 0 {
                    Err(Fault::StackUnderflow)
                } else if s.base + n >= STACK_CAPACITY {
                    Err(Fault::StackOverflow)
                } else {
                    Ok(
                        Effect {
                            top: s.top - 1,
                            stack: s.stack.update(s.base + n, s.stack[s.top - 1]),
                            ..same
                        },
                    )
                }
            },
            Opt::NOT => {
                if s.top < 1 {
                    Err(Fault::StackUnderflow)
                } else {
                    Ok(
                        Effect {
                            stack: s.stack.update(s.top - 1, truth(s.stack[s.top - 1] == 0)),
                            ..same
                        },
                    )
                }
            },
            Opt::BR => {
                if n < 0 {
                    Err(Fault::BadAddress)
                } else {
                    Ok(Effect { ip: n, ..same })
                }
            },
            Opt::BRF => {
                if s.top - 1 < s.base {
                    Err(Fault::StackUnderflow)
                } else if s.stack[s.top - 1] != 0 {
                    Ok(Effect { top: s.top - 1, ..same })
                } else if n < 0 {
                    Err(Fault::BadAddress)
                } else {
                    Ok(Effect { ip: n, top: s.top - 1, ..same })
                }
            },
            Opt::IN => {
                match input {
                    None => Err(Fault::MalformedInput),
                    Some(v) => {
                        if s.top >= STACK_CAPACITY {
                            Err(Fault::StackOverflow)
                        } else {
                            Ok(Effect { top: s.top + 1, stack: s.stack.update(s.top, v), ..same })
                        }
                    },
                }
            },
            Opt::OUT => {
                if s.top - 1 < s.base {
                    Err(Fault::StackUnderflow)
                } else {
                    Ok(Effect { top: s.top - 1, output: Some(s.stack[s.top - 1]), ..same })
                }
            },
            Opt::ENTER => {
                if s.top + n < s.base {
                    Err(Fault::StackUnderflow)
                } else if s.top + n > STACK_CAPACITY {
                    Err(Fault::StackOverflow)
                } else {
                    Ok(Effect { top: s.top + n, ..same })
                }
            },
            Opt::CAL => {
                if s.top + 1 >= STACK_CAPACITY {
                    Err(Fault::StackOverflow)
                } else if n < 0 || next > i32::MAX {
                    Err(Fault::BadAddress)
                } else {
                    Ok(
                        Effect {
                            ip: n,
                            base: s.top,
                            stack: s.stack.update(s.top, s.base as i32).update(
                                s.top + 1,
                                next as i32,
                            ),
                            ..same
                        },
                    )
                }
            },
            Opt::RETURN => {
                if s.base + 1 >= STACK_CAPACITY {
                    Err(Fault::StackOverflow)
                } else if s.stack[s.base + 1] < 0 {
                    Err(Fault::BadAddress)
                } else if s.stack[s.base] < 0 || s.stack[s.base] > s.base {
                    Err(Fault::StackUnderflow)
                } else {
                    Ok(
                        Effect {
                            ip: s.stack[s.base + 1] as int,
                            top: s.base,
                            base: s.stack[s.base] as int,
                            ..same
                        },
                    )
                }
            },
            Opt::PAS => {
                if s.top - 1 < s.base {
                    Err(Fault::StackUnderflow)
                } else if s.top + 1 >= STACK_CAPACITY {
                    Err(Fault::StackOverflow)
                } else {
                    Ok(
                        Effect {
                            top: s.top - 1,
                            stack: s.stack.update(s.top + 1, s.stack[s.top - 1]),
                            ..same
                        },
                    )
                }
            },
            _ => Err(Fault::UnknownOpcode),
        }
    }
}

/// A `LOAD` and a `STO` whose operand is at least 2 address a cell beyond
/// the two linkage cells of the current frame: the load reads such a cell,
/// and the store leaves the saved base and the return address as they are.
pub proof fn lemma_linkage_untouched(c: Code, s: MachineState, next: int, input: Option<i32>)
    requires
        s.wf(),
        c.opt == Opt::LOAD || c.opt == Opt::STO,
        c.operand >= 2,
        instruction(c, s, next, input) is Ok,
    ensures
        c.opt == Opt::LOAD ==> instruction(c, s, next, input)->Ok_0.stack == s.stack.update(
            s.top,
            s.stack[s.base + c.operand],
        ),
        c.opt == Opt::STO ==> instruction(c, s, next, input)->Ok_0.stack[s.base]
            == s.stack[s.base] && instruction(c, s, next, input)->Ok_0.stack[s.base + 1]
            == s.stack[s.base + 1],
{
}

/// `s` stopped by fault `f`, otherwise unchanged.
pub open spec fn faulted(s: MachineState, f: Fault) -> Step {
    Step { next: MachineState { status: Status::Faulted(f), ..s }, output: None }
}

/// The running machine `s` after instruction `c`: stopped by the fault that
/// `c` raises, with registers and stack as they were; or changed as `c`
/// says, and halted if that leaves the instruction pointer at 0.
pub open spec fn perform(c: Code, s: MachineState, next: int, input: Option<i32>) -> Step {
    match instruction(c, s, next, input) {
        Err(f) => faulted(s, f),
        Ok(e) => Step {
            next: MachineState {
                ip: e.ip,
                top: e.top,
                base: e.base,
                stack: e.stack,
                status: if e.ip == 0 {
                    Status::Halted
                } else {
                    Status::Running
                },
            },
            output: e.output,
        },
    }
}

/// One fetch-execute cycle of machine `s` over `code`, which holds for each
/// record of the program its instruction, or none where the record names
/// no opcode.
///
/// A machine that is not running stays as it is. A running machine whose
/// instruction pointer is outside the code faults, and so does one that
/// meets a record without an instruction. Any other fetches the
/// instruction, moves the instruction pointer on and performs it.
pub open spec fn execute(code: Seq<Option<Code>>, s: MachineState, input: Option<i32>) -> Step {
    if s.status != Status::Running {
        Step { next: s, output: None }
    } else if s.ip >= code.len() {
        faulted(s, Fault::BadAddress)
    } else {
        match code[s.ip] {
            None => faulted(s, Fault::UnknownOpcode),
            Some(c) => perform(c, s, s.ip + 1, input),
        }
    }
}

/// Whether the next step of `s` executes an `IN`.
pub open spec fn reads_input(code: Seq<Option<Code>>, s: MachineState) -> bool {
    s.status == Status::Running && 0 <= s.ip < code.len() && code[s.ip] is Some
        && code[s.ip]->Some_0.opt == Opt::IN
}

/// Every step keeps `0 <= base <= top <= capacity`, and a machine halts only
/// with its instruction pointer at 0.
pub proof fn lemma_step_keeps_wf(code: Seq<Option<Code>>, s: MachineState, input: Option<i32>)
    requires
        s.wf(),
    ensures
        execute(code, s, input).next.wf(),
{
}

impl Machine {
    /// A machine in its initial state.
    pub fn new() -> (m: Machine)
        ensures
            m@ == initial_state(),
            m@.wf(),
    {
        let mut stack: Vec<i32> = Vec::new();
        let mut i: usize = 0;
        while i < STACK_CAPACITY
            invariant
                i <= STACK_CAPACITY,
                stack.len() == i,
                forall|j: int| 0 <= j < i ==> stack[j] == 0,
            decreases STACK_CAPACITY - i,
        {
            stack.push(0);
            i += 1;
        }
        assert(stack@ =~= initial_state().stack);
        Machine { ip: 0, top: 0, base: 0, stack, status: Status::Running }
    }

    /// Whether the registers and the stack are as every step leaves them.
    pub fn is_well_formed(&self) -> (b: bool)
        ensures
            b == self@.wf(),
    {
        self.base <= self.top && self.top <= STACK_CAPACITY && self.stack.len() == STACK_CAPACITY
            && match self.status {
            Status::Halted => self.ip == 0,
            _ => true,
        }
    }

    /// Whether the machine is still running.
    pub fn is_running(&self) -> (b: bool)
        ensures
            b == (self@.status == Status::Running),
    {
        match self.status {
            Status::Running => true,
            _ => false,
        }
    }

    /// Whether the next step needs an integer from the input.
    pub fn needs_input(&self, codes: &[Record], names: &StringHashMap<Opt>) -> (b: bool)
        ensures
            b == reads_input(decoded_all(names@, record_views(codes@)), self@),
    {
        if !self.is_running() || self.ip >= codes.len() {
            return false;
        }
        match codes[self.ip].decode(names) {
            Some(c) => match c.opt {
                Opt::IN => true,
                _ => false,
            },
            None => false,
        }
    }

    fn fail(&mut self, f: Fault)
        ensures
            final(self)@ == faulted(old(self)@, f).next,
    {
        self.status = Status::Faulted(f);
    }

    fn proceed(&mut self, ip: usize)
        ensures
            final(self)@ == (MachineState {
                ip: ip as int,
                status: if ip == 0 {
                    Status::Halted
                } else {
                    Status::Running
                },
                ..old(self)@
            }),
    {
        self.ip = ip;
        if ip == 0 {
            self.status = Status::Halted;
        } else {
            self.status = Status::Running;
        }
    }

    /// The value that a two-operand opcode computes.
    fn binary(opt: Opt, x: i32, y: i32) -> (r: i32)
        requires
            is_binary(opt),
            opt == Opt::DIV ==> y != 0,
        ensures
            r == binary_result(opt, x, y),
    {
        match opt {
            Opt::ADD => x.wrapping_add(y),
            Opt::SUB => x.wrapping_sub(y),
            Opt::MULT => x.wrapping_mul(y),
            Opt::DIV => {
                if x == i32::MIN && y == -1 {
                    i32::MIN
                } else {
                    proof {
                        lemma_quotient_bounds(x as int, y as int);
                    }
                    match x.checked_div(y) {
                        Some(q) => q,
                        None => i32::MIN,
                    }
                }
            },
            Opt::EQ => if x == y {
                1
            } else {
                0
            },
            Opt::NOTEQ => if x != y {
                1
            } else {
                0
            },
            Opt::GT => if x > y {
                1
            } else {
                0
            },
            Opt::LES => if x < y {
                1
            } else {
                0
            },
            Opt::GE => if x >= y {
                1
            } else {
                0
            },
            Opt::LE => if x <= y {
                1
            } else {
                0
            },
            Opt::AND => if x != 0 && y != 0 {
                1
            } else {
                0
            },
            _ => if x != 0 || y != 0 {
                1
            } else {
                0
            },
        }
    }

    /// The two-operand opcodes.
    fn step_binary(&mut self, c: Code, next: usize)
        requires
            old(self)@.wf(),
            old(self)@.status == Status::Running,
            is_binary(c.opt),
        ensures
            final(self)@ == perform(c, old(self)@, next as int, None).next,
            perform(c, old(self)@, next as int, None).output is None,
    {
        let top: usize = self.top;
        if top < self.base + 1 || top < 2 {
            self.fail(Fault::StackUnderflow);
        } else {
            let x: i32 = self.stack[top - 2];
            let y: i32 = self.stack[top - 1];
            let is_div = match c.opt {
                Opt::DIV => true,
                _ => false,
            };
            if is_div && y == 0 {
                self.fail(Fault::DivideByZero);
            } else {
                let r: i32 = Self::binary(c.opt, x, y);
                self.stack[top - 2] = r;
                self.top = top - 1;
                self.proceed(next);
            }
        }
    }

    /// `LOAD`, `LOADI`, `STO`, `NOT` and `PAS`: moves between cells.
    fn step_cells(&mut self, c: Code, next: usize)
        requires
            old(self)@.wf(),
            old(self)@.status == Status::Running,
            c.opt == Opt::LOAD || c.opt == Opt::LOADI || c.opt == Opt::STO || c.opt == Opt::NOT
                || c.opt == Opt::PAS,
        ensures
            final(self)@ == perform(c, old(self)@, next as int, None).next,
            perform(c, old(self)@, next as int, None).output is None,
    {
        let top: usize = self.top;
        let base: usize = self.base;
        let a: i64 = base as i64 + c.operand as i64;
        match c.opt {
            Opt::LOAD => {
                if a < 0 {
                    self.fail(Fault::StackUnderflow);
                } else if a >= STACK_CAPACITY as i64 || top >= STACK_CAPACITY {
                    self.fail(Fault::StackOverflow);
                } else {
                    let v: i32 = self.stack[a as usize];
                    self.stack[top] = v;
                    self.top = top + 1;
                    self.proceed(next);
                }
            },
            Opt::LOADI => {
                if top >= STACK_CAPACITY {
                    self.fail(Fault::StackOverflow);
                } else {
                    self.stack[top] = c.operand;
                    self.top = top + 1;
                    self.proceed(next);
                }
            },
            Opt::STO => {
                if top < base + 1 || a < 0 {
                    self.fail(Fault::StackUnderflow);
                } else if a >= STACK_CAPACITY as i64 {
                    self.fail(Fault::StackOverflow);
                } else {
                    let v: i32 = self.stack[top - 1];
                    self.stack[a as usize] = v;
                    self.top = top - 1;
                    self.proceed(next);
                }
            },
            Opt::NOT => {
                if top < 1 {
                    self.fail(Fault::StackUnderflow);
                } else {
                    let v: i32 = if self.stack[top - 1] == 0 {
                        1
                    } else {
                        0
                    };
                    self.stack[top - 1] = v;
                    self.proceed(next);
                }
            },
            _ => {
                if top < base + 1 {
                    self.fail(Fault::StackUnderflow);
                } else if top + 1 >= STACK_CAPACITY {
                    self.fail(Fault::StackOverflow);
                } else {
                    let v: i32 = self.stack[top - 1];
                    self.stack[top + 1] = v;
                    self.top = top - 1;
                    self.proceed(next);
                }
            },
        }
    }

    /// `BR`, `BRF`, `ENTER`, `CAL` and `RETURN`: control and frames.
    fn step_control(&mut self, c: Code, next: usize)
        requires
            old(self)@.wf(),
            old(self)@.status == Status::Running,
            c.opt == Opt::BR || c.opt == Opt::BRF || c.opt == Opt::ENTER || c.opt == Opt::CAL
                || c.opt == Opt::RETURN,
        ensures
            final(self)@ == perform(c, old(self)@, next as int, None).next,
            perform(c, old(self)@, next as int, None).output is None,
    {
        let top: usize = self.top;
        let base: usize = self.base;
        let n: i32 = c.operand;
        match c.opt {
            Opt::BR => {
                if n < 0 {
                    self.fail(Fault::BadAddress);
                } else {
                    self.proceed(n as usize);
                }
            },
            Opt::BRF => {
                if top < base + 1 {
                    self.fail(Fault::StackUnderflow);
                } else if self.stack[top - 1] != 0 {
                    self.top = top - 1;
                    self.proceed(next);
                } else if n < 0 {
                    self.fail(Fault::BadAddress);
                } else {
                    self.top = top - 1;
                    self.proceed(n as usize);
                }
            },
            Opt::ENTER => {
                let t: i64 = top as i64 + n as i64;
                if t < base as i64 {
                    self.fail(Fault::StackUnderflow);
                } else if t > STACK_CAPACITY as i64 {
                    self.fail(Fault::StackOverflow);
                } else {
                    self.top = t as usize;
                    self.proceed(next);
                }
            },
            Opt::CAL => {
                if top + 1 >= STACK_CAPACITY {
                    self.fail(Fault::StackOverflow);
                } else if n < 0 || next > 0x7fff_ffff {
                    self.fail(Fault::BadAddress);
                } else {
                    self.stack[top] = base as i32;
                    self.stack[top + 1] = next as i32;
                    self.base = top;
                    self.proceed(n as usize);
                }
            },
            _ => {
                if base + 1 >= STACK_CAPACITY {
                    self.fail(Fault::StackOverflow);
                } else {
                    let back: i32 = self.stack[base + 1];
                    let saved: i32 = self.stack[base];
                    if back < 0 {
                        self.fail(Fault::BadAddress);
                    } else if saved < 0 || saved as usize > base {
                        self.fail(Fault::StackUnderflow);
                    } else {
                        self.top = base;
                        self.base = saved as usize;
                        self.proceed(back as usize);
                    }
                }
            },
        }
    }

    /// `IN` and `OUT`.
    fn step_io(&mut self, c: Code, next: usize, input: Option<i32>) -> (output: Option<i32>)
        requires
            old(self)@.wf(),
            old(self)@.status == Status::Running,
            c.opt == Opt::IN || c.opt == Opt::OUT,
        ensures
            final(self)@ == perform(c, old(self)@, next as int, input).next,
            output == perform(c, old(self)@, next as int, input).output,
    {
        let top: usize = self.top;
        match c.opt {
            Opt::IN => {
                match input {
                    None => {
                        self.fail(Fault::MalformedInput);
                    },
                    Some(v) => {
                        if top >= STACK_CAPACITY {
                            self.fail(Fault::StackOverflow);
                        } else {
                            self.stack[top] = v;
                            self.top = top + 1;
                            self.proceed(next);
                        }
                    },
                }
                None
            },
            _ => {
                if top < self.base + 1 {
                    self.fail(Fault::StackUnderflow);
                    None
                } else {
                    let v: i32 = self.stack[top - 1];
                    self.top = top - 1;
                    self.proceed(next);
                    Some(v)
                }
            },
        }
    }

    /// Performs one fetch-execute cycle and returns the value that it wrote,
    /// if it was an `OUT`.
    ///
    /// `input` is the integer that an `IN` is to read; `None` where no
    /// well-formed integer is at hand.
    pub fn step(
        &mut self,
        codes: &[Record],
        names: &StringHashMap<Opt>,
        input: Option<i32>,
    ) -> (output: Option<i32>)
        requires
            old(self)@.wf(),
        ensures
            final(self)@ == execute(
                decoded_all(names@, record_views(codes@)),
                old(self)@,
                input,
            ).next,
            output == execute(
                decoded_all(names@, record_views(codes@)),
                old(self)@,
                input,
            ).output,
            final(self)@.wf(),
    {
        if !self.is_running() {
            return None;
        }
        if self.ip >= codes.len() {
            self.fail(Fault::BadAddress);
            return None;
        }
        proof {
            lemma_step_keeps_wf(decoded_all(names@, record_views(codes@)), self@, input);
        }
        let c = match codes[self.ip].decode(names) {
            None => {
                self.fail(Fault::UnknownOpcode);
                return None;
            },
            Some(c) => c,
        };
        let next: usize = self.ip + 1;
        match c.opt {
            Opt::ADD | Opt::SUB | Opt::MULT | Opt::DIV | Opt::EQ | Opt::NOTEQ | Opt::GT | Opt::LES
            | Opt::GE | Opt::LE | Opt::AND | Opt::OR => {
                self.step_binary(c, next);
                None
            },
            Opt::LOAD | Opt::LOADI | Opt::STO | Opt::NOT | Opt::PAS => {
                self.step_cells(c, next);
                None
            },
            Opt::BR | Opt::BRF | Opt::ENTER | Opt::CAL | Opt::RETURN => {
                self.step_control(c, next);
                None
            },
            Opt::IN | Opt::OUT => self.step_io(c, next, input),
            Opt::STI => {
                self.fail(Fault::UnknownOpcode);
                None
            },
        }
    }
}

/// What a run produced: the values written, the number of instructions
/// executed, and the machine as the run left it.
#[derive(Debug)]
pub struct Execution {
    pub outputs: Vec<i32>,
    pub steps: usize,
    pub machine: Machine,
}

/// An [`Execution`] as a mathematical value.
pub struct Trace {
    pub outputs: Seq<i32>,
    pub steps: nat,
    pub machine: MachineState,
}

impl View for Execution {
    type V = Trace;

    open spec fn view(&self) -> Trace {
        Trace { outputs: self.outputs@, steps: self.steps as nat, machine: self.machine@ }
    }
}

/// The values that a step wrote: one or none.
pub open spec fn written(output: Option<i32>) -> Seq<i32> {
    match output {
        Some(v) => seq![v],
        None => Seq::empty(),
    }
}

/// The run of machine `s` over `code` for at most `limit` steps.
///
/// Each `IN` takes the next of `inputs`; when none is left it reads nothing
/// and faults. The run ends when the machine halts or faults, or after
/// `limit` steps with the machine still running.
pub open spec fn run(code: Seq<Option<Code>>, s: MachineState, inputs: Seq<i32>, limit: nat) -> Trace
    decreases limit,
{
    if limit == 0 || s.status != Status::Running {
        Trace { outputs: Seq::empty(), steps: 0, machine: s }
    } else {
        let takes = reads_input(code, s) && inputs.len() > 0;
        let step = execute(
            code,
            s,
            if takes {
                Some(inputs[0])
            } else {
                None
            },
        );
        let rest = run(
            code,
            step.next,
            if takes {
                inputs.drop_first()
            } else {
                inputs
            },
            (limit - 1) as nat,
        );
        Trace {
            outputs: written(step.output) + rest.outputs,
            steps: rest.steps + 1,
            machine: rest.machine,
        }
    }
}

/// `t` after `steps` earlier steps that wrote `outputs`.
pub open spec fn after(outputs: Seq<i32>, steps: nat, t: Trace) -> Trace {
    Trace { outputs: outputs + t.outputs, steps: steps + t.steps, machine: t.machine }
}

/// A run never takes more steps than its limit and keeps the machine well
/// formed: `0 <= base <= top <= capacity`, and the instruction pointer of a
/// halted machine is 0.
pub proof fn lemma_run_bounded(code: Seq<Option<Code>>, s: MachineState, inputs: Seq<i32>, limit: nat)
    requires
        s.wf(),
    ensures
        run(code, s, inputs, limit).steps <= limit,
        run(code, s, inputs, limit).machine.wf(),
        run(code, s, inputs, limit).steps < limit ==> run(code, s, inputs, limit).machine.status
            != Status::Running,
    decreases limit,
{
    if limit == 0 || s.status != Status::Running {
    } else {
        let takes = reads_input(code, s) && inputs.len() > 0;
        let input = if takes {
            Some(inputs[0])
        } else {
            None
        };
        let rest = if takes {
            inputs.drop_first()
        } else {
            inputs
        };
        lemma_step_keeps_wf(code, s, input);
        lemma_run_bounded(code, execute(code, s, input).next, rest, (limit - 1) as nat);
    }
}

/// The outcome of a program does not depend on the limit: a run that ends
/// with the machine halted or faulted is the run under every larger limit
/// too, with the same output and the same number of steps.
pub proof fn lemma_run_is_final(
    code: Seq<Option<Code>>,
    s: MachineState,
    inputs: Seq<i32>,
    limit: nat,
    larger: nat,
)
    requires
        limit <= larger,
        run(code, s, inputs, limit).machine.status != Status::Running,
    ensures
        run(code, s, inputs, larger) == run(code, s, inputs, limit),
    decreases limit,
{
    if s.status != Status::Running {
    } else if limit == 0 {
    } else {
        let takes = reads_input(code, s) && inputs.len() > 0;
        let input = if takes {
            Some(inputs[0])
        } else {
            None
        };
        let rest = if takes {
            inputs.drop_first()
        } else {
            inputs
        };
        lemma_run_is_final(
            code,
            execute(code, s, input).next,
            rest,
            (limit - 1) as nat,
            (larger - 1) as nat,
        );
    }
}

/// Determinism. Two runs of one program from one state on one input that
/// both come to an end are the same run: they write the same values, take
/// the same number of steps and leave the same machine, whatever their
/// limits.
pub proof fn lemma_same_outcome(
    code: Seq<Option<Code>>,
    s: MachineState,
    inputs: Seq<i32>,
    first: nat,
    second: nat,
)
    requires
        run(code, s, inputs, first).machine.status != Status::Running,
        run(code, s, inputs, second).machine.status != Status::Running,
    ensures
        run(code, s, inputs, first) == run(code, s, inputs, second),
{
    if first <= second {
        lemma_run_is_final(code, s, inputs, first, second);
    } else {
        lemma_run_is_final(code, s, inputs, second, first);
    }
}

/// Runs the records `codes` on a fresh machine for at most `limit` steps,
/// reading from `inputs` in order. The table `map` tells which opcode a
/// record names.
pub fn test_machine(
    codes: &[Record],
    map: &StringHashMap<Opt>,
    inputs: &[i32],
    limit: usize,
) -> (r: Execution)
    ensures
        r@ == run(decoded_all(map@, record_views(codes@)), initial_state(), inputs@, limit as nat),
        r.steps <= limit,
        r.machine@.wf(),
        r.steps < limit ==> r.machine@.status != Status::Running,
{
    let ghost code = decoded_all(map@, record_views(codes@));
    let mut machine = Machine::new();
    let mut outputs: Vec<i32> = Vec::new();
    let mut steps: usize = 0;
    let mut used: usize = 0;
    proof {
        assert(inputs@.skip(0) =~= inputs@);
        assert(outputs@ + run(code, machine@, inputs@, limit as nat).outputs =~= run(
            code,
            machine@,
            inputs@,
            limit as nat,
        ).outputs);
    }
    while steps < limit && machine.is_running()
        invariant
            code == decoded_all(map@, record_views(codes@)),
            steps <= limit,
            used <= inputs.len(),
            machine@.wf(),
            run(code, initial_state(), inputs@, limit as nat) == after(
                outputs@,
                steps as nat,
                run(code, machine@, inputs@.skip(used as int), (limit - steps) as nat),
            ),
        decreases limit - steps,
    {
        let ghost before = machine@;
        let ghost pending = inputs@.skip(used as int);
        let ghost written_before = outputs@;
        let takes = machine.needs_input(codes, map) && used < inputs.len();
        let input = if takes {
            Some(inputs[used])
        } else {
            None
        };
        let output = machine.step(codes, map, input);
        if takes {
            used += 1;
        }
        match output {
            Some(v) => {
                outputs.push(v);
            },
            None => {},
        }
        steps += 1;
        proof {
            assert(takes ==> pending.drop_first() =~= inputs@.skip(used as int));
            let rest = run(code, machine@, inputs@.skip(used as int), (limit - steps) as nat);
            assert(written_before + (written(output) + rest.outputs) =~= outputs@ + rest.outputs);
        }
    }
    proof {
        let last = run(code, machine@, inputs@.skip(used as int), (limit - steps) as nat);
        assert(outputs@ + last.outputs =~= outputs@);
    }
    Execution { outputs, steps, machine }
}

} // verus!
