//! The virtual machine: a register file, a program counter, a remainder register and an
//! equality flag, driven one instruction at a time over a byte program.
use vstd::prelude::*;
use crate::instruction::{Opcode, decode};

verus! {

/// Why execution stopped abnormally.
#[derive(PartialEq, Eq, Structural, Debug, Clone, Copy)]
pub enum FaultKind {
    /// A register operand byte is 32 or more.
    RegisterOutOfRange,
    /// `div` with a zero divisor.
    DivisionByZero,
    /// A jump to a position before the start of the program.
    ProgramCounterUnderflow,
    /// A byte that names no opcode.
    IllegalOpcode,
    /// The program ends before the operands of its last instruction.
    MissingOperand,
}

/// What one step of execution reports.
#[derive(PartialEq, Eq, Structural, Debug, Clone, Copy)]
pub enum StepOutcome {
    /// An instruction ran and execution may go on.
    Continue,
    /// `hlt` was executed.
    Halted,
    /// The program counter stands at or beyond the end of the program.
    Exhausted,
    /// Execution stopped on a fault.
    Faulted(FaultKind),
}

/// The machine state as the step semantics sees it (the program is held apart).
pub struct VmState {
    pub registers: Seq<i32>,
    pub pc: int,
    pub remainder: i32,
    pub equal_flag: bool,
    pub fault: Option<FaultKind>,
}

/// Number of operand bytes that follow each opcode in the byte program.
pub open spec fn operand_width(op: Opcode) -> int {
    match op {
        Opcode::HLT | Opcode::IGL => 0,
        Opcode::JMP | Opcode::JMPF | Opcode::JMPB | Opcode::JEQ | Opcode::JNEQ => 1,
        _ => 3,
    }
}

/// Where a jump to `t` leaves the program counter: `None` below zero; a target beyond the
/// largest counter saturates (execution is then exhausted on the next step).
pub open spec fn jump_target(t: int) -> Option<int> {
    if t < 0 {
        None
    } else if t > usize::MAX {
        Some(usize::MAX as int)
    } else {
        Some(t)
    }
}

/// The integer quotient truncated toward zero, wrapping on `i32::MIN / -1`; `y != 0`.
pub open spec fn quotient(x: i32, y: i32) -> i32 {
    match x.checked_div(y) {
        Some(q) => q,
        None => i32::MIN,
    }
}

/// The remainder that goes with `quotient`; `y != 0`.
pub open spec fn remainder_of(x: i32, y: i32) -> i32 {
    match x.checked_rem(y) {
        Some(r) => r,
        None => 0,
    }
}

/// The result of a three-register arithmetic opcode.
pub open spec fn arith(op: Opcode, x: i32, y: i32) -> i32 {
    match op {
        Opcode::ADD => x.wrapping_add(y),
        Opcode::SUB => x.wrapping_sub(y),
        Opcode::MUL => x.wrapping_mul(y),
        _ => quotient(x, y),
    }
}

/// The result of a comparison opcode.
pub open spec fn compare(op: Opcode, x: i32, y: i32) -> bool {
    match op {
        Opcode::EQ => x == y,
        Opcode::NEQ => x != y,
        Opcode::GT => x > y,
        Opcode::LT => x < y,
        Opcode::GTQ => x >= y,
        _ => x <= y,
    }
}

/// One fetch-decode-execute cycle of `prog` from state `s`, whatever fault came before: the
/// next state and the outcome. On a fault nothing but the program counter changes, and it
/// stands just past the opcode.
pub open spec fn execute(prog: Seq<u8>, s: VmState) -> (VmState, StepOutcome) {
    if s.pc < 0 || s.pc >= prog.len() {
        (s, StepOutcome::Exhausted)
    } else {
        let op = decode(prog[s.pc]);
        let at = VmState { pc: s.pc + 1, ..s };
        let next = s.pc + 1 + operand_width(op);
        let fault = |k: FaultKind| (at, StepOutcome::Faulted(k));
        if next > prog.len() {
            fault(FaultKind::MissingOperand)
        } else {
            let b1 = prog[s.pc + 1];
            let b2 = prog[s.pc + 2];
            let b3 = prog[s.pc + 3];
            match op {
                Opcode::HLT => (at, StepOutcome::Halted),
                Opcode::IGL => fault(FaultKind::IllegalOpcode),
                Opcode::LOAD => if b1 >= 32 {
                    fault(FaultKind::RegisterOutOfRange)
                } else {
                    (
                        VmState {
                            registers: s.registers.update(b1 as int, (b2 * 256 + b3) as i32),
                            pc: next,
                            ..s
                        },
                        StepOutcome::Continue,
                    )
                },
                Opcode::ADD | Opcode::SUB | Opcode::MUL | Opcode::DIV => if b1 >= 32 || b2 >= 32
                    || b3 >= 32 {
                    fault(FaultKind::RegisterOutOfRange)
                } else {
                    let x = s.registers[b1 as int];
                    let y = s.registers[b2 as int];
                    if op == Opcode::DIV && y == 0 {
                        fault(FaultKind::DivisionByZero)
                    } else {
                        (
                            VmState {
                                registers: s.registers.update(b3 as int, arith(op, x, y)),
                                pc: next,
                                remainder: if op == Opcode::DIV {
                                    remainder_of(x, y)
                                } else {
                                    s.remainder
                                },
                                ..s
                            },
                            StepOutcome::Continue,
                        )
                    }
                },
                Opcode::JMP | Opcode::JMPF | Opcode::JMPB | Opcode::JEQ | Opcode::JNEQ => if b1
                    >= 32 {
                    fault(FaultKind::RegisterOutOfRange)
                } else {
                    let v = s.registers[b1 as int] as int;
                    let taken = match op {
                        Opcode::JEQ => s.equal_flag,
                        Opcode::JNEQ => !s.equal_flag,
                        _ => true,
                    };
                    let t = match op {
                        Opcode::JMPF => next + v,
                        Opcode::JMPB => next - v,
                        _ => v,
                    };
                    if !taken {
                        (VmState { pc: next, ..s }, StepOutcome::Continue)
                    } else {
                        match jump_target(t) {
                            None => fault(FaultKind::ProgramCounterUnderflow),
                            Some(p) => (VmState { pc: p, ..s }, StepOutcome::Continue),
                        }
                    }
                },
                _ => if b1 >= 32 || b2 >= 32 {
                    fault(FaultKind::RegisterOutOfRange)
                } else {
                    let x = s.registers[b1 as int];
                    let y = s.registers[b2 as int];
                    (VmState { pc: next, equal_flag: compare(op, x, y), ..s }, StepOutcome::Continue)
                },
            }
        }
    }
}

/// One step of the machine: a machine that has faulted stays as it is and reports its
/// fault again; otherwise one cycle runs, and a fault it raises is recorded.
pub open spec fn step(prog: Seq<u8>, s: VmState) -> (VmState, StepOutcome) {
    match s.fault {
        Some(k) => (s, StepOutcome::Faulted(k)),
        None => {
            let (s1, o) = execute(prog, s);
            match o {
                StepOutcome::Faulted(k) => (VmState { fault: Some(k), ..s1 }, o),
                _ => (s1, o),
            }
        },
    }
}

/// At most `n` steps from `s`, stopping at the first outcome other than `Continue`.
pub open spec fn run_steps(prog: Seq<u8>, s: VmState, n: nat) -> (VmState, StepOutcome)
    decreases n,
{
    if n == 0 {
        (s, StepOutcome::Continue)
    } else {
        let (s1, o) = step(prog, s);
        if o == StepOutcome::Continue {
            run_steps(prog, s1, (n - 1) as nat)
        } else {
            (s1, o)
        }
    }
}

/// Assembled byte code: the only thing that passes from the assembler to the machine.
pub struct ByteProgram {
    pub bytes: Vec<u8>,
}

/// The machine: 32 registers, a program counter into `program`, the remainder of the
/// latest division, the result of the latest comparison, and the fault that stopped it.
pub struct VM {
    pub registers: [i32; 32],
    pub pc: usize,
    pub program: Vec<u8>,
    pub remainder: i32,
    pub equal_flag: bool,
    pub fault: Option<FaultKind>,
}

impl View for VM {
    type V = VmState;

    open spec fn view(&self) -> VmState {
        VmState {
            registers: self.registers@,
            pc: self.pc as int,
            remainder: self.remainder,
            equal_flag: self.equal_flag,
            fault: self.fault,
        }
    }
}

/// Number of operand bytes that follow `op`.
fn width(op: Opcode) -> (r: usize)
    ensures
        r as int == operand_width(op),
{
    match op {
        Opcode::HLT | Opcode::IGL => 0,
        Opcode::JMP | Opcode::JMPF | Opcode::JMPB | Opcode::JEQ | Opcode::JNEQ => 1,
        _ => 3,
    }
}

/// Where a jump to `base + t` leaves the program counter, as `jump_target` states.
fn jump(t: i64, base: usize) -> (r: Option<usize>)
    requires
        -0x1_0000_0000 <= t <= 0x1_0000_0000,
    ensures
        r == (match jump_target(base + t) {
            Some(p) => Some(p as usize),
            None => None,
        }),
{
    if t < 0 {
        let back = (0 - t) as u64;
        if back > base as u64 {
            None
        } else {
            Some(base - back as usize)
        }
    } else {
        let fwd = t as u64;
        if fwd > (usize::MAX - base) as u64 {
            Some(usize::MAX)
        } else {
            Some(base + fwd as usize)
        }
    }
}

impl VM {
    /// A machine with every register zero, an empty program and the counter at its start.
    pub fn new() -> (r: VM)
        ensures
            r.program@.len() == 0,
            r@.registers == Seq::new(32, |i: int| 0i32),
            r@.pc == 0,
            r@.remainder == 0,
            !r@.equal_flag,
            r@.fault is None,
    {
        let r = VM {
            registers: [0i32; 32],
            pc: 0,
            program: Vec::new(),
            remainder: 0,
            equal_flag: false,
            fault: None,
        };
        assert(r@.registers =~= Seq::new(32, |i: int| 0i32));
        r
    }

    /// Loads a byte program, puts the counter at its start and clears any fault; registers,
    /// remainder and flag keep their values.
    pub fn load_program(&mut self, p: ByteProgram)
        ensures
            final(self).program@ == p.bytes@,
            final(self)@ == (VmState { pc: 0, fault: None, ..old(self)@ }),
    {
        self.program = p.bytes;
        self.pc = 0;
        self.fault = None;
    }

    /// Runs one step and reports whether execution may go on; after a fault the machine
    /// stays as it is and reports that fault again.
    pub fn run_once(&mut self) -> (r: StepOutcome)
        ensures
            final(self).program@ == old(self).program@,
            (final(self)@, r) == step(old(self).program@, old(self)@),
    {
        if let Some(k) = self.fault {
            return StepOutcome::Faulted(k);
        }
        let r = self.execute_instruction();
        if let StepOutcome::Faulted(k) = r {
            self.fault = Some(k);
        }
        r
    }

    /// One fetch-decode-execute cycle.
    fn execute_instruction(&mut self) -> (r: StepOutcome)
        ensures
            final(self).program@ == old(self).program@,
            (final(self)@, r) == execute(old(self).program@, old(self)@),
    {
        let len = self.program.len();
        if self.pc >= len {
            return StepOutcome::Exhausted;
        }
        let start = self.pc;
        let op = Opcode::from(self.program[start]);
        self.pc = start + 1;
        let w = width(op);
        if w > len - self.pc {
            return StepOutcome::Faulted(FaultKind::MissingOperand);
        }
        let next = self.pc + w;
        match op {
            Opcode::HLT => StepOutcome::Halted,
            Opcode::IGL => StepOutcome::Faulted(FaultKind::IllegalOpcode),
            Opcode::LOAD => {
                let r = self.program[start + 1];
                if r >= 32 {
                    return StepOutcome::Faulted(FaultKind::RegisterOutOfRange);
                }
                let hi = self.program[start + 2] as i32;
                let lo = self.program[start + 3] as i32;
                self.registers[r as usize] = hi * 256 + lo;
                self.pc = next;
                StepOutcome::Continue
            },
            Opcode::ADD | Opcode::SUB | Opcode::MUL | Opcode::DIV => {
                let a = self.program[start + 1];
                let b = self.program[start + 2];
                let d = self.program[start + 3];
                if a >= 32 || b >= 32 || d >= 32 {
                    return StepOutcome::Faulted(FaultKind::RegisterOutOfRange);
                }
                let x = self.registers[a as usize];
                let y = self.registers[b as usize];
                let v = match op {
                    Opcode::ADD => x.wrapping_add(y),
                    Opcode::SUB => x.wrapping_sub(y),
                    Opcode::MUL => x.wrapping_mul(y),
                    _ => {
                        if y == 0 {
                            return StepOutcome::Faulted(FaultKind::DivisionByZero);
                        }
                        self.remainder = match x.checked_rem(y) {
                            Some(m) => m,
                            None => 0,
                        };
                        match x.checked_div(y) {
                            Some(q) => q,
                            None => i32::MIN,
                        }
                    },
                };
                self.registers[d as usize] = v;
                self.pc = next;
                StepOutcome::Continue
            },
            Opcode::JMP | Opcode::JMPF | Opcode::JMPB | Opcode::JEQ | Opcode::JNEQ => {
                let r = self.program[start + 1];
                if r >= 32 {
                    return StepOutcome::Faulted(FaultKind::RegisterOutOfRange);
                }
                let v = self.registers[r as usize] as i64;
                let taken = match op {
                    Opcode::JEQ => self.equal_flag,
                    Opcode::JNEQ => !self.equal_flag,
                    _ => true,
                };
                if !taken {
                    self.pc = next;
                    return StepOutcome::Continue;
                }
                let target = match op {
                    Opcode::JMPF => jump(v, next),
                    Opcode::JMPB => jump(0 - v, next),
                    _ => jump(v, 0),
                };
                match target {
                    None => StepOutcome::Faulted(FaultKind::ProgramCounterUnderflow),
                    Some(p) => {
                        self.pc = p;
                        StepOutcome::Continue
                    },
                }
            },
            _ => {
                let a = self.program[start + 1];
                let b = self.program[start + 2];
                if a >= 32 || b >= 32 {
                    return StepOutcome::Faulted(FaultKind::RegisterOutOfRange);
                }
                let x = self.registers[a as usize];
                let y = self.registers[b as usize];
                self.equal_flag = match op {
                    Opcode::EQ => x == y,
                    Opcode::NEQ => x != y,
                    Opcode::GT => x > y,
                    Opcode::LT => x < y,
                    Opcode::GTQ => x >= y,
                    _ => x <= y,
                };
                self.pc = next;
                StepOutcome::Continue
            },
        }
    }

    /// Steps until an outcome other than `Continue` comes. A program may loop forever; the
    /// loop is bounded only by `u64::MAX` steps, after which `Continue` is handed back.
    pub fn run(&mut self) -> (r: StepOutcome)
        ensures
            final(self).program@ == old(self).program@,
            exists|n: nat|
                n <= u64::MAX && run_steps(old(self).program@, old(self)@, n) == (final(self)@, r)
                    && (r == StepOutcome::Continue ==> n == u64::MAX),
    {
        let ghost prog = self.program@;
        let ghost s0 = self@;
        let mut steps: u64 = 0;
        while steps < u64::MAX
            invariant
                prog == old(self).program@,
                s0 == old(self)@,
                self.program@ == prog,
                run_steps(prog, s0, steps as nat) == (self@, StepOutcome::Continue),
            decreases u64::MAX - steps,
        {
            let ghost before = self@;
            let o = self.run_once();
            proof {
                lemma_run_steps_extend(prog, s0, steps as nat, before);
            }
            steps = steps + 1;
            assert(run_steps(prog, s0, steps as nat) == (self@, o));
            if o != StepOutcome::Continue {
                return o;
            }
        }
        StepOutcome::Continue
    }
}

/// Running n steps that all continue, then one more step, is running n + 1 steps.
pub proof fn lemma_run_steps_extend(prog: Seq<u8>, s: VmState, n: nat, mid: VmState)
    requires
        run_steps(prog, s, n) == (mid, StepOutcome::Continue),
    ensures
        run_steps(prog, s, n + 1) == step(prog, mid),
    decreases n,
{
    reveal_with_fuel(run_steps, 2);
    if n > 0 {
        let (s1, o) = step(prog, s);
        lemma_run_steps_extend(prog, s1, (n - 1) as nat, mid);
    }
}

/// A program that is a lone `hlt` stops after exactly one step, reporting `Halted`, with
/// only the counter moved past it.
pub proof fn lemma_halt_only_program(s: VmState, n: nat)
    requires
        s.pc == 0,
        s.fault is None,
        n >= 1,
    ensures
        step(seq![5u8], s).1 == StepOutcome::Halted,
        run_steps(seq![5u8], s, n) == (VmState { pc: 1, ..s }, StepOutcome::Halted),
{
    reveal_with_fuel(run_steps, 2);
}

/// A machine that has faulted is not advanced any further: every step reports the fault
/// and changes nothing.
pub proof fn lemma_fault_is_final(prog: Seq<u8>, s: VmState, n: nat)
    requires
        s.fault is Some,
        n >= 1,
    ensures
        step(prog, s) == (s, StepOutcome::Faulted(s.fault->Some_0)),
        run_steps(prog, s, n) == (s, StepOutcome::Faulted(s.fault->Some_0)),
{
    reveal_with_fuel(run_steps, 2);
}

/// `jmp $r` sets the counter to exactly the value of register r, whatever it was before.
pub proof fn lemma_jmp_sets_counter(prog: Seq<u8>, s: VmState, r: u8)
    requires
        s.fault is None,
        0 <= s.pc,
        s.pc + 1 < prog.len(),
        prog[s.pc] == 6,
        prog[s.pc + 1] == r,
        r < 32,
        s.registers.len() == 32,
        s.registers[r as int] >= 0,
    ensures
        step(prog, s) == (VmState { pc: s.registers[r as int] as int, ..s }, StepOutcome::Continue),
{
}

/// `jeq $r` jumps only when the equality flag is set and `jneq $r` only when it is clear;
/// otherwise both fall through to the next instruction, whatever register r holds.
pub proof fn lemma_conditional_jumps(prog: Seq<u8>, s: VmState, r: u8)
    requires
        s.fault is None,
        0 <= s.pc,
        s.pc + 1 < prog.len(),
        prog[s.pc] == 15 || prog[s.pc] == 16,
        prog[s.pc + 1] == r,
        r < 32,
        s.registers.len() == 32,
    ensures
        ({
            let taken = if prog[s.pc] == 15 {
                s.equal_flag
            } else {
                !s.equal_flag
            };
            &&& !taken ==> step(prog, s) == (VmState { pc: s.pc + 2, ..s }, StepOutcome::Continue)
            &&& taken && s.registers[r as int] >= 0 ==> step(prog, s) == (VmState {
                pc: s.registers[r as int] as int,
                ..s
            }, StepOutcome::Continue)
        }),
{
}

/// A comparison followed by `jeq $r` (or `jneq $r`): the flag that the comparison sets
/// decides the jump, and otherwise execution falls through past the jump.
pub proof fn lemma_compare_then_branch(prog: Seq<u8>, s: VmState, a: u8, b: u8, r: u8)
    requires
        s.fault is None,
        0 <= s.pc,
        s.pc + 5 < prog.len(),
        9 <= prog[s.pc] <= 14,
        prog[s.pc + 1] == a,
        prog[s.pc + 2] == b,
        prog[s.pc + 4] == 15 || prog[s.pc + 4] == 16,
        prog[s.pc + 5] == r,
        a < 32,
        b < 32,
        r < 32,
        s.registers.len() == 32,
        s.registers[r as int] >= 0,
    ensures
        ({
            let flag = compare(decode(prog[s.pc]), s.registers[a as int], s.registers[b as int]);
            let taken = if prog[s.pc + 4] == 15 {
                flag
            } else {
                !flag
            };
            let pc = if taken {
                s.registers[r as int] as int
            } else {
                s.pc + 6
            };
            run_steps(prog, s, 2) == (VmState { pc: pc, equal_flag: flag, ..s }, StepOutcome::Continue)
        }),
{
    reveal_with_fuel(run_steps, 3);
    let s1 = step(prog, s).0;
    assert(step(prog, s).1 == StepOutcome::Continue);
    lemma_conditional_jumps(prog, s1, r);
}

/// `div` with a zero divisor faults and leaves registers, remainder and flag as they were.
pub proof fn lemma_div_by_zero_faults(prog: Seq<u8>, s: VmState)
    requires
        s.fault is None,
        0 <= s.pc,
        s.pc + 3 < prog.len(),
        prog[s.pc] == 4,
        prog[s.pc + 1] < 32,
        prog[s.pc + 2] < 32,
        prog[s.pc + 3] < 32,
        s.registers.len() == 32,
        s.registers[prog[s.pc + 2] as int] == 0,
    ensures
        step(prog, s) == (VmState {
            pc: s.pc + 1,
            fault: Some(FaultKind::DivisionByZero),
            ..s
        }, StepOutcome::Faulted(FaultKind::DivisionByZero)),
{
}

/// A program that is a `load` opcode byte with fewer than three operand bytes faults
/// instead of reading past its end.
pub proof fn lemma_truncated_load_faults(tail: Seq<u8>, s: VmState)
    requires
        tail.len() < 3,
        s.pc == 0,
        s.fault is None,
    ensures
        step(seq![0u8] + tail, s) == (VmState {
            pc: 1,
            fault: Some(FaultKind::MissingOperand),
            ..s
        }, StepOutcome::Faulted(FaultKind::MissingOperand)),
{
    assert((seq![0u8] + tail)[0] == 0);
}

} // verus!
