//! Instructions of the stack machine, and what it means for a program to be
//! resolved: every control-flow instruction carries the index it jumps to.

use vstd::prelude::*;

verus! {

/// The operations of the stack machine.
#[allow(non_camel_case_types)]
#[derive(PartialEq, Eq, Debug, Clone, Copy, Structural)]
pub enum Opcode {
    OP_PUSH,
    OP_ADD,
    OP_SUB,
    OP_MUL,
    OP_DIV,
    OP_NOT,
    OP_EQ,
    OP_NE,
    OP_GT,
    OP_LT,
    OP_GE,
    OP_LE,
    OP_DUP,
    OP_DUMP,
    OP_IF,
    OP_ELSE,
    OP_END,
    OP_WHILE,
    OP_DO,
}

/// One instruction: its operation, its operands and its own index in the
/// program.
#[derive(Debug, Clone)]
pub struct Instruction {
    pub opcode: Opcode,
    pub operands: Vec<i64>,
    pub ip: usize,
}

/// The mathematical value of an [`Instruction`].
pub struct Instr {
    pub op: Opcode,
    pub operands: Seq<i64>,
    pub ip: nat,
}

impl View for Instruction {
    type V = Instr;

    open spec fn view(&self) -> Instr {
        Instr { op: self.opcode, operands: self.operands@, ip: self.ip as nat }
    }
}

impl DeepView for Instruction {
    type V = Instr;

    open spec fn deep_view(&self) -> Instr {
        self@
    }
}

impl Instruction {
    pub fn new(opcode: Opcode, operands: Vec<i64>, ip: usize) -> (ins: Instruction)
        ensures
            ins.opcode == opcode,
            ins.operands == operands,
            ins.ip == ip,
    {
        Instruction { opcode, operands, ip }
    }
}

/// The instruction at index `k` of `p` is in its final form: it records its
/// own index, it has the number of operands its operation asks for, and if
/// it jumps, its operand is the index of the instruction that closes (or,
/// for `OP_END`, opens) its block.
///
/// - `OP_IF` points forward to its `OP_ELSE`, or to the `OP_END` that closes it;
/// - `OP_ELSE` points forward to the `OP_END` that closes it;
/// - `OP_DO` points forward to the `OP_END` of its loop, and that `OP_END`
///   points back to an `OP_WHILE` that stands before the `OP_DO`;
/// - an `OP_END` with an operand points back to an `OP_WHILE`.
pub open spec fn resolved_at(p: Seq<Instr>, k: int) -> bool {
    let ins = p[k];
    let t = ins.operands[0] as int;
    &&& ins.ip == k
    &&& match ins.op {
        Opcode::OP_PUSH => ins.operands.len() == 1,
        Opcode::OP_IF => {
            &&& ins.operands.len() == 1
            &&& k < t < p.len()
            &&& (p[t].op == Opcode::OP_ELSE || (p[t].op == Opcode::OP_END && p[t].operands.len()
                == 0))
        },
        Opcode::OP_ELSE => {
            &&& ins.operands.len() == 1
            &&& k < t < p.len()
            &&& p[t].op == Opcode::OP_END
            &&& p[t].operands.len() == 0
        },
        Opcode::OP_DO => {
            &&& ins.operands.len() == 1
            &&& k < t < p.len()
            &&& p[t].op == Opcode::OP_END
            &&& p[t].operands.len() == 1
            &&& 0 <= p[t].operands[0] < k
        },
        Opcode::OP_END => {
            ||| ins.operands.len() == 0
            ||| {
                &&& ins.operands.len() == 1
                &&& 0 <= t < k
                &&& p[t].op == Opcode::OP_WHILE
            }
        },
        _ => ins.operands.len() == 0,
    }
}

/// Every instruction of `p` is in its final form.
pub open spec fn resolved(p: Seq<Instr>) -> bool {
    forall|k: int| 0 <= k < p.len() ==> resolved_at(p, k)
}

/// The first operand of `ins`, if it has one and it is an index below `len`.
fn target(ins: &Instruction, len: usize) -> (r: Option<usize>)
    ensures
        match r {
            Some(t) => ins.operands@.len() >= 1 && t == ins.operands@[0] && t < len,
            None => ins.operands@.len() == 0 || !(0 <= ins.operands@[0] < len),
        },
{
    if ins.operands.len() == 0 {
        return None;
    }
    let t: i64 = ins.operands[0];
    if t < 0 {
        return None;
    }
    let t: u64 = t as u64;
    if t >= len as u64 {
        return None;
    }
    Some(t as usize)
}

/// Decides [`resolved_at`] for the instruction at index `k`.
fn is_resolved_at(program: &Vec<Instruction>, k: usize) -> (b: bool)
    requires
        k < program.len(),
    ensures
        b == resolved_at(program.deep_view(), k as int),
{
    let ins = &program[k];
    let n: usize = ins.operands.len();
    assert(program.deep_view()[k as int] == ins@);
    if ins.ip != k {
        return false;
    }
    match ins.opcode {
        Opcode::OP_PUSH => n == 1,
        Opcode::OP_IF => {
            match target(ins, program.len()) {
                Some(t) => {
                    assert(program.deep_view()[t as int] == program[t as int]@);
                    n == 1 && k < t && (program[t].opcode == Opcode::OP_ELSE || (program[t].opcode
                        == Opcode::OP_END && program[t].operands.len() == 0))
                },
                None => false,
            }
        },
        Opcode::OP_ELSE => {
            match target(ins, program.len()) {
                Some(t) => {
                    assert(program.deep_view()[t as int] == program[t as int]@);
                    n == 1 && k < t && program[t].opcode == Opcode::OP_END
                        && program[t].operands.len() == 0
                },
                None => false,
            }
        },
        Opcode::OP_DO => {
            match target(ins, program.len()) {
                Some(t) => {
                    assert(program.deep_view()[t as int] == program[t as int]@);
                    n == 1 && k < t && program[t].opcode == Opcode::OP_END
                        && program[t].operands.len() == 1 && 0 <= program[t].operands[0]
                        && program[t].operands[0] < k as i64
                },
                None => false,
            }
        },
        Opcode::OP_END => {
            if n == 0 {
                true
            } else {
                match target(ins, program.len()) {
                    Some(t) => {
                        assert(program.deep_view()[t as int] == program[t as int]@);
                        n == 1 && t < k && program[t].opcode == Opcode::OP_WHILE
                    },
                    None => false,
                }
            }
        },
        _ => n == 0,
    }
}

/// Decides whether a program is resolved.
pub fn is_resolved(program: &Vec<Instruction>) -> (b: bool)
    ensures
        b == resolved(program.deep_view()),
{
    let mut k: usize = 0;
    while k < program.len()
        invariant
            k <= program.len(),
            forall|j: int| 0 <= j < k ==> resolved_at(program.deep_view(), j),
        decreases program.len() - k,
    {
        if !is_resolved_at(program, k) {
            return false;
        }
        k += 1;
    }
    true
}

} // verus!
