//! The interpreter: a stack machine that executes a resolved program one
//! instruction at a time.
//!
//! A program may loop for ever, so nothing here runs without a bound:
//! [`Machine::run`] executes at most as many instructions as its caller
//! allows and says whether the program has come to its end. A caller that
//! wants to see what a program prints while it runs gives it a small budget
//! and calls again until the program has ended; [`interpret`] gives it the
//! largest there is.

use crate::decimal::{ascii_bytes, decimal, decimal_chars, decimal_nat, decimal_nat_chars};
use crate::instruction::{resolved, resolved_at, Instr, Instruction, Opcode};
use crate::text::push_all;
use vstd::prelude::*;
use vstd::string::*;

verus! {

/// Why a program cannot go on. `ip` is the index of the instruction that
/// failed; the machine is left as it was before that instruction.
#[derive(Debug, Clone, Copy, PartialEq, Eq, Structural)]
pub enum RuntimeError {
    /// The instruction needs more values than the stack holds.
    StackUnderflow { ip: usize },
    /// `OP_NOT` found `value`, which is neither 0 nor 1.
    NotBoolean { ip: usize, value: i64 },
    /// `OP_DIV` found 0 on top of the stack.
    DivideByZero { ip: usize },
}

/// The diagnostic of a runtime error: the index of the instruction, and what
/// it found.
pub open spec fn runtime_diagnostic(e: RuntimeError) -> Seq<char> {
    match e {
        RuntimeError::StackUnderflow { ip } => "[ERROR] @ip "@ + decimal_nat(ip as nat)
            + ": Tried to pop but stack was empty"@,
        RuntimeError::NotBoolean { ip, value } => "[ERROR] @ip "@ + decimal_nat(ip as nat)
            + ": Expected a boolean in the stack, found "@ + decimal(value as int),
        RuntimeError::DivideByZero { ip } => "[ERROR] @ip "@ + decimal_nat(ip as nat)
            + ": Tried to divide by zero"@,
    }
}

impl RuntimeError {
    /// The index of the instruction that failed.
    pub fn ip(&self) -> (ip: usize)
        ensures
            ip == match *self {
                RuntimeError::StackUnderflow { ip } => ip,
                RuntimeError::NotBoolean { ip, .. } => ip,
                RuntimeError::DivideByZero { ip } => ip,
            },
    {
        match *self {
            RuntimeError::StackUnderflow { ip } => ip,
            RuntimeError::NotBoolean { ip, .. } => ip,
            RuntimeError::DivideByZero { ip } => ip,
        }
    }

    /// The diagnostic of this error.
    pub fn diagnostic(&self) -> (text: String)
        ensures
            text@ == runtime_diagnostic(*self),
    {
        let mut text = String::new();
        text.append("[ERROR] @ip ");
        let ip = decimal_nat_chars(self.ip() as u128);
        push_all(&mut text, &ip);
        match *self {
            RuntimeError::StackUnderflow { .. } => {
                text.append(": Tried to pop but stack was empty");
            },
            RuntimeError::NotBoolean { value, .. } => {
                text.append(": Expected a boolean in the stack, found ");
                let found = decimal_chars(value);
                push_all(&mut text, &found);
            },
            RuntimeError::DivideByZero { .. } => {
                text.append(": Tried to divide by zero");
            },
        }
        assert(text@ =~= runtime_diagnostic(*self));
        text
    }
}

/// How a run ended.
#[derive(Debug, Clone, Copy, PartialEq, Eq, Structural)]
pub enum Status {
    /// The budget is used up and the program has not come to its end.
    Running,
    /// The instruction pointer has left the program.
    Halted,
    /// An instruction failed.
    Failed(RuntimeError),
}

/// The state of the machine between two instructions: the operand stack,
/// its top last, and the index of the next instruction.
#[derive(Debug)]
pub struct Machine {
    pub stack: Vec<i64>,
    pub ip: usize,
}

/// The state of an execution: that of the machine, and all that has been
/// written so far.
pub struct State {
    pub stack: Seq<i64>,
    pub ip: nat,
    pub output: Seq<u8>,
}

/// The 64-bit two's-complement integer that is congruent to `x` modulo 2^64.
pub open spec fn wrap(x: int) -> i64 {
    let m = x % 0x1_0000_0000_0000_0000;
    if m > i64::MAX {
        (m - 0x1_0000_0000_0000_0000) as i64
    } else {
        m as i64
    }
}

/// `n` divided by `d`, rounded toward zero; `d` is not 0.
pub open spec fn quotient(n: int, d: int) -> int {
    let q = (if n < 0 {
        -n
    } else {
        n
    }) / (if d < 0 {
        -d
    } else {
        d
    });
    if (n < 0) != (d < 0) {
        -q
    } else {
        q
    }
}

/// 1 for true, 0 for false.
pub open spec fn truth(b: bool) -> i64 {
    if b {
        1
    } else {
        0
    }
}

/// `op` takes the two topmost values and leaves one.
pub open spec fn is_binary(op: Opcode) -> bool {
    match op {
        Opcode::OP_ADD
        | Opcode::OP_SUB
        | Opcode::OP_MUL
        | Opcode::OP_DIV
        | Opcode::OP_EQ
        | Opcode::OP_NE
        | Opcode::OP_GT
        | Opcode::OP_LT
        | Opcode::OP_GE
        | Opcode::OP_LE => true,
        _ => false,
    }
}

/// What a binary operation leaves for `a`, the top of the stack, and `b`,
/// the value below it. Arithmetic wraps around.
pub open spec fn binary(op: Opcode, a: i64, b: i64) -> i64 {
    match op {
        Opcode::OP_ADD => wrap(a + b),
        Opcode::OP_SUB => wrap(b - a),
        Opcode::OP_MUL => wrap(a * b),
        Opcode::OP_DIV => wrap(quotient(b as int, a as int)),
        Opcode::OP_EQ => truth(a == b),
        Opcode::OP_NE => truth(a != b),
        Opcode::OP_GT => truth(b > a),
        Opcode::OP_LT => truth(b < a),
        Opcode::OP_GE => truth(b >= a),
        Opcode::OP_LE => truth(b <= a),
        _ => 0,
    }
}

/// What is written for `OP_DUMP` of `v`: `v` in base 10 and a newline.
pub open spec fn dumped(v: i64) -> Seq<u8> {
    ascii_bytes(decimal(v as int)).push(10u8)
}

/// The number of values that `op` takes from the stack.
pub open spec fn arity(op: Opcode) -> nat {
    if is_binary(op) {
        2
    } else {
        match op {
            Opcode::OP_NOT | Opcode::OP_DUP | Opcode::OP_DUMP | Opcode::OP_IF | Opcode::OP_DO => 1,
            _ => 0,
        }
    }
}

/// One instruction of `p`, executed in state `s`, where `s.ip < p.len()`.
///
/// An instruction that finds too few values on the stack fails, and so do a
/// division by zero and an `OP_NOT` of anything but 0 and 1. Otherwise the
/// instruction replaces the values it takes by its result and execution goes
/// on with the next instruction, or, after a jump, with the instruction that
/// follows the one named by the operand.
pub open spec fn step(p: Seq<Instr>, s: State) -> Result<State, RuntimeError> {
    let ins = p[s.ip as int];
    let here = s.ip as usize;
    let a = s.stack.last();
    let b = s.stack.drop_last().last();
    let next = s.ip + 1;
    let target = (ins.operands[0] + 1) as nat;
    if s.stack.len() < arity(ins.op) {
        Err(RuntimeError::StackUnderflow { ip: here })
    } else if ins.op == Opcode::OP_DIV && a == 0 {
        Err(RuntimeError::DivideByZero { ip: here })
    } else if ins.op == Opcode::OP_NOT && a != 0 && a != 1 {
        Err(RuntimeError::NotBoolean { ip: here, value: a })
    } else if is_binary(ins.op) {
        Ok(
            State {
                stack: s.stack.drop_last().drop_last().push(binary(ins.op, a, b)),
                ip: next,
                ..s
            },
        )
    } else {
        match ins.op {
            Opcode::OP_PUSH => Ok(State { stack: s.stack.push(ins.operands[0]), ip: next, ..s }),
            Opcode::OP_NOT => Ok(
                State { stack: s.stack.drop_last().push((1 - a) as i64), ip: next, ..s },
            ),
            Opcode::OP_DUP => Ok(State { stack: s.stack.push(a), ip: next, ..s }),
            Opcode::OP_DUMP => Ok(
                State { stack: s.stack.drop_last(), ip: next, output: s.output + dumped(a) },
            ),
            Opcode::OP_IF | Opcode::OP_DO => Ok(
                State {
                    stack: s.stack.drop_last(),
                    ip: if a == 0 {
                        target
                    } else {
                        next
                    },
                    ..s
                },
            ),
            Opcode::OP_ELSE => Ok(State { ip: target, ..s }),
            Opcode::OP_END => Ok(
                State {
                    ip: if ins.operands.len() > 0 {
                        target
                    } else {
                        next
                    },
                    ..s
                },
            ),
            _ => Ok(State { ip: next, ..s }),
        }
    }
}

/// At most `budget` instructions of `p`, executed from state `s`: the state
/// reached, and why execution stopped there.
pub open spec fn run(p: Seq<Instr>, s: State, budget: nat) -> (State, Status)
    decreases budget,
{
    if s.ip >= p.len() {
        (s, Status::Halted)
    } else if budget == 0 {
        (s, Status::Running)
    } else {
        match step(p, s) {
            Ok(next) => run(p, next, (budget - 1) as nat),
            Err(e) => (s, Status::Failed(e)),
        }
    }
}

/// A run may be made in parts: where `a` instructions have not brought the
/// program to an end, `b` more from the state reached do what `a + b` do at
/// once; where they have, a larger budget changes nothing.
pub proof fn lemma_run_resumes(p: Seq<Instr>, s: State, a: nat, b: nat)
    ensures
        run(p, s, a).1 == Status::Running ==> run(p, s, a + b) == run(p, run(p, s, a).0, b),
        run(p, s, a).1 != Status::Running ==> run(p, s, a + b) == run(p, s, a),
    decreases a,
{
    if s.ip < p.len() && a > 0 {
        match step(p, s) {
            Ok(next) => {
                lemma_run_resumes(p, next, (a - 1) as nat, b);
            },
            Err(_) => {},
        }
    }
}

/// The values of a stack from the bottom up, each with its index before it:
/// `(0, v0) (1, v1) ` and so on.
pub open spec fn stack_entries(stack: Seq<i64>) -> Seq<char>
    decreases stack.len(),
{
    if stack.len() == 0 {
        Seq::empty()
    } else {
        stack_entries(stack.drop_last()) + "("@ + decimal_nat((stack.len() - 1) as nat) + ", "@
            + decimal(stack.last() as int) + ") "@
    }
}

/// A stack written out in one line.
pub open spec fn stack_line(stack: Seq<i64>) -> Seq<char> {
    "Stack:"@ + stack_entries(stack) + "\n"@
}

/// The state in which every program starts: the stack is empty, the first
/// instruction is next; `output` is what has been written before.
pub open spec fn initial(output: Seq<u8>) -> State {
    State { stack: Seq::empty(), ip: 0, output }
}

/// The result of a binary operation.
fn apply(op: Opcode, a: i64, b: i64) -> (r: i64)
    requires
        is_binary(op),
        op == Opcode::OP_DIV ==> a != 0,
    ensures
        r == binary(op, a, b),
{
    match op {
        Opcode::OP_ADD => a.wrapping_add(b),
        Opcode::OP_SUB => b.wrapping_sub(a),
        Opcode::OP_MUL => a.wrapping_mul(b),
        Opcode::OP_DIV => match b.checked_div(a) {
            Some(q) => q,
            None => i64::MIN,
        },
        Opcode::OP_EQ => if a == b {
            1
        } else {
            0
        },
        Opcode::OP_NE => if a != b {
            1
        } else {
            0
        },
        Opcode::OP_GT => if b > a {
            1
        } else {
            0
        },
        Opcode::OP_LT => if b < a {
            1
        } else {
            0
        },
        Opcode::OP_GE => if b >= a {
            1
        } else {
            0
        },
        _ => if b <= a {
            1
        } else {
            0
        },
    }
}

/// Writes `v` in base 10 and a newline.
fn dump(stdout: &mut Vec<u8>, v: i64)
    ensures
        final(stdout)@ == old(stdout)@ + dumped(v),
{
    let digits = decimal_chars(v);
    let mut i: usize = 0;
    while i < digits.len()
        invariant
            i <= digits.len(),
            stdout@ == old(stdout)@ + ascii_bytes(digits@.take(i as int)),
        decreases digits.len() - i,
    {
        stdout.push(digits[i] as u8);
        assert(ascii_bytes(digits@.take(i + 1)) =~= ascii_bytes(digits@.take(i as int)).push(
            digits@[i as int] as u8,
        ));
        i += 1;
    }
    assert(digits@.take(i as int) == digits@);
    stdout.push(10u8);
}

impl Machine {
    /// The state of an execution with this machine after `output` has been
    /// written.
    pub open spec fn state(&self, output: Seq<u8>) -> State {
        State { stack: self.stack@, ip: self.ip as nat, output }
    }

    /// A machine at the start of a program.
    pub fn new() -> (m: Machine)
        ensures
            m.state(Seq::empty()) == initial(Seq::empty()),
            m.stack@.len() == 0,
            m.ip == 0,
    {
        Machine { stack: Vec::new(), ip: 0 }
    }

    /// The stack of this machine written out in one line, for diagnosis.
    pub fn stack_text(&self) -> (text: String)
        ensures
            text@ == stack_line(self.stack@),
    {
        let mut text = String::new();
        text.append("Stack:");
        let mut i: usize = 0;
        while i < self.stack.len()
            invariant
                i <= self.stack.len(),
                text@ == "Stack:"@ + stack_entries(self.stack@.take(i as int)),
            decreases self.stack.len() - i,
        {
            let ghost before = text@;
            text.append("(");
            let index = decimal_nat_chars(i as u128);
            push_all(&mut text, &index);
            text.append(", ");
            let value = decimal_chars(self.stack[i]);
            push_all(&mut text, &value);
            text.append(") ");
            proof {
                let next = self.stack@.take(i + 1);
                assert(next.drop_last() == self.stack@.take(i as int));
                assert(text@ =~= "Stack:"@ + stack_entries(next));
            }
            i += 1;
        }
        assert(self.stack@.take(i as int) == self.stack@);
        text.append("\n");
        text
    }

    /// Executes the next instruction of `program`, writing to `stdout` what
    /// it prints. Where the instruction fails, nothing is changed.
    pub fn step(&mut self, program: &Vec<Instruction>, stdout: &mut Vec<u8>) -> (r: Result<
        (),
        RuntimeError,
    >)
        requires
            resolved(program.deep_view()),
            old(self).ip < program.len(),
        ensures
            match step(program.deep_view(), old(self).state(old(stdout)@)) {
                Ok(next) => r is Ok && final(self).state(final(stdout)@) == next,
                Err(e) => r == Err::<(), RuntimeError>(e) && *final(self) == *old(self)
                    && *final(stdout) == *old(stdout),
            },
    {
        let ghost p = program.deep_view();
        let ghost s = self.state(stdout@);
        let ins = &program[self.ip];
        proof {
            assert(p[self.ip as int] == ins@);
            assert(resolved_at(p, self.ip as int));
        }
        let op = ins.opcode;
        let here: usize = self.ip;
        let n: usize = self.stack.len();
        let jump: bool = match op {
            Opcode::OP_ELSE => true,
            Opcode::OP_END => ins.operands.len() > 0,
            _ => false,
        };
        match op {
            Opcode::OP_ADD
            | Opcode::OP_SUB
            | Opcode::OP_MUL
            | Opcode::OP_DIV
            | Opcode::OP_EQ
            | Opcode::OP_NE
            | Opcode::OP_GT
            | Opcode::OP_LT
            | Opcode::OP_GE
            | Opcode::OP_LE => {
                if n < 2 {
                    return Err(RuntimeError::StackUnderflow { ip: here });
                }
                let a: i64 = self.stack[n - 1];
                let b: i64 = self.stack[n - 2];
                if op == Opcode::OP_DIV && a == 0 {
                    return Err(RuntimeError::DivideByZero { ip: here });
                }
                self.stack.pop();
                self.stack.pop();
                self.stack.push(apply(op, a, b));
                self.ip = here + 1;
            },
            Opcode::OP_PUSH => {
                self.stack.push(ins.operands[0]);
                self.ip = here + 1;
            },
            Opcode::OP_NOT | Opcode::OP_DUP | Opcode::OP_DUMP | Opcode::OP_IF | Opcode::OP_DO => {
                if n < 1 {
                    return Err(RuntimeError::StackUnderflow { ip: here });
                }
                let a: i64 = self.stack[n - 1];
                match op {
                    Opcode::OP_NOT => {
                        if a != 0 && a != 1 {
                            return Err(RuntimeError::NotBoolean { ip: here, value: a });
                        }
                        self.stack.pop();
                        self.stack.push(1 - a);
                        self.ip = here + 1;
                    },
                    Opcode::OP_DUP => {
                        self.stack.push(a);
                        self.ip = here + 1;
                    },
                    Opcode::OP_DUMP => {
                        self.stack.pop();
                        dump(stdout, a);
                        self.ip = here + 1;
                    },
                    _ => {
                        self.stack.pop();
                        if a == 0 {
                            self.ip = ins.operands[0] as usize + 1;
                        } else {
                            self.ip = here + 1;
                        }
                    },
                }
            },
            _ => {
                if jump {
                    self.ip = ins.operands[0] as usize + 1;
                } else {
                    self.ip = here + 1;
                }
            },
        }
        proof {
            let next = step(p, s)->Ok_0;
            assert(self.stack@ =~= next.stack);
        }
        Ok(())
    }

    /// Executes instructions of `program` until it halts or fails, but at
    /// most `budget` of them.
    pub fn run(&mut self, program: &Vec<Instruction>, stdout: &mut Vec<u8>, budget: u64) -> (status:
        Status)
        requires
            resolved(program.deep_view()),
        ensures
            (final(self).state(final(stdout)@), status) == run(
                program.deep_view(),
                old(self).state(old(stdout)@),
                budget as nat,
            ),
    {
        let ghost p = program.deep_view();
        let ghost goal = run(p, self.state(stdout@), budget as nat);
        let mut left: u64 = budget;
        loop
            invariant
                p == program.deep_view(),
                resolved(p),
                goal == run(p, old(self).state(old(stdout)@), budget as nat),
                run(p, self.state(stdout@), left as nat) == goal,
            decreases left,
        {
            if self.ip >= program.len() {
                return Status::Halted;
            }
            if left == 0 {
                return Status::Running;
            }
            match self.step(program, stdout) {
                Ok(()) => {},
                Err(e) => {
                    return Status::Failed(e);
                },
            }
            left -= 1;
        }
    }
}

/// The largest budget that a run can be given.
pub const MAX_BUDGET: u64 = 0xffff_ffff_ffff_ffff;

/// Runs `program` from the start and appends to `stdout` what it prints.
///
/// The run has the largest budget there is. No program lives to use it up;
/// one that would is reported as still running.
pub fn interpret(program: &Vec<Instruction>, stdout: &mut Vec<u8>) -> (status: Status)
    requires
        resolved(program.deep_view()),
    ensures
        status == run(program.deep_view(), initial(old(stdout)@), MAX_BUDGET as nat).1,
        final(stdout)@ == run(program.deep_view(), initial(old(stdout)@), MAX_BUDGET as nat).0.output,
{
    let mut machine = Machine::new();
    assert(machine.state(stdout@) == initial(stdout@));
    machine.run(program, stdout, MAX_BUDGET)
}

} // verus!
