//! The emitter: lowers a resolved program to x86-64 assembly text (NASM
//! syntax) for GNU/Linux.
//!
//! The text starts with a fixed prelude that defines the `dump` routine, goes
//! on with one labelled block per instruction, `.addr_N` for the instruction
//! at index `N`, and closes with an exit system call. Jumps name the label
//! of their target, so every address is left to the assembler.

use crate::decimal::{decimal, decimal_chars, decimal_nat, decimal_nat_chars};
use crate::instruction::{resolved, resolved_at, Instr, Instruction, Opcode};
use crate::interpreter::{step, State};
use crate::text::push_all;
use vstd::prelude::*;
use vstd::string::*;

verus! {

/// What comes before the first instruction: the numbers of the two system
/// calls, the routine `dump`, which prints the unsigned decimal form of
/// `rdi` and a newline on standard output, and the entry symbol.
pub const PRELUDE: &'static str = "%define SYS_EXIT 60
%define SYS_WRITE 1
section .text
dump:
    sub     rsp, 40
    mov     rsi, rdi
    mov  r10, -3689348814741910323
    mov     BYTE [rsp+20], 10
    lea     rcx, [rsp+19]
    lea     r8, [rsp+21]
.L2:
    mov     rax, rsi
    mov     r9, r8
    mul     r10
    mov     rax, rsi
    sub     r9, rcx
    shr     rdx, 3
    lea     rdi, [rdx+rdx*4]
    add     rdi, rdi
    sub     rax, rdi
    add     eax, 48
    mov     BYTE [rcx], al
    mov     rax, rsi
    mov     rsi, rdx
    mov     rdx, rcx
    sub     rcx, 1
    cmp     rax, 9
    ja      .L2
    sub     rdx, r8
    mov     edi, 1
    lea     rsi, [rsp+21+rdx]
    mov     rdx, r9
    mov     rax, SYS_WRITE
    syscall
    add     rsp, 40
    ret
global _start
_start:
";

/// What comes after the last instruction: leave with exit code 0.
pub const EPILOGUE: &'static str = ".end:
    mov rax, SYS_EXIT
    mov rdi, 0
    syscall
    ret
";

/// `OP_PUSH`, up to its number: pushes an immediate value.
pub const PUSH: &'static str = "    push ";

/// `OP_ADD`: replaces the two topmost values by their sum.
pub const ADD: &'static str = "    pop rax
    pop rbx
    add rax, rbx
    push rax
";

/// `OP_SUB`: replaces the two topmost values by second minus top.
pub const SUB: &'static str = "    pop rax
    pop rbx
    sub rbx, rax
    push rbx
";

/// `OP_MUL`: replaces the two topmost values by their product (an unsigned multiply).
pub const MUL: &'static str = "    pop rax
    pop rbx
    mul rbx
    push rax
";

/// `OP_DIV`: an unsigned divide of second by top; pushes the quotient, then the remainder.
pub const DIV: &'static str = "    xor rdx, rdx
    pop rbx
    pop rax
    div rbx
    push rax
    push rdx
";

/// `OP_NOT`: inverts every bit of the topmost value.
pub const NOT: &'static str = "    pop rax
    not rax
    push rax
";

/// `OP_EQ`: 1 if the two topmost values are equal, else 0.
pub const EQ: &'static str = "    mov rcx, 0
    mov rdx, 1
    pop rax
    pop rbx
    cmp rax, rbx
    cmove rcx, rdx
    push rcx
";

/// `OP_NE`: 1 if the two topmost values differ, else 0.
pub const NE: &'static str = "    mov rcx, 0
    mov rdx, 1
    pop rax
    pop rbx
    cmp rax, rbx
    cmovne rcx, rdx
    push rcx
";

/// `OP_GT`: 1 if second is greater than top, else 0.
pub const GT: &'static str = "    mov rcx, 0
    mov rdx, 1
    pop rbx
    pop rax
    cmp rax, rbx
    cmovg rcx, rdx
    push rcx
";

/// `OP_LT`: 1 if second is less than top, else 0.
pub const LT: &'static str = "    mov rcx, 0
    mov rdx, 1
    pop rbx
    pop rax
    cmp rax, rbx
    cmovl rcx, rdx
    push rcx
";

/// `OP_GE`: 1 if second is greater than or equal to top, else 0.
pub const GE: &'static str = "    mov rcx, 0
    mov rdx, 1
    pop rbx
    pop rax
    cmp rax, rbx
    cmovge rcx, rdx
    push rcx
";

/// `OP_LE`: 1 if second is less than or equal to top, else 0.
pub const LE: &'static str = "    mov rcx, 0
    mov rdx, 1
    pop rbx
    pop rax
    cmp rax, rbx
    cmovle rcx, rdx
    push rcx
";

/// `OP_DUP`: pushes a second copy of the topmost value.
pub const DUP: &'static str = "    pop rax
    push rax
    push rax
";

/// `OP_DUMP`: pops the topmost value and prints it.
pub const DUMP: &'static str = "    pop rdi
    call dump
";

/// `OP_IF` and `OP_DO`, up to the number of the label: pops the topmost value and
/// jumps if it is zero.
pub const JUMP_IF_ZERO: &'static str = "    pop rax
    test rax, rax
    jz .addr_";

/// `OP_ELSE` and a looping `OP_END`, up to the number of the label: jumps.
pub const JUMP: &'static str = "    jmp .addr_";

/// The name under which an operation appears in the comment behind its label.
pub open spec fn mnemonic(op: Opcode) -> Seq<char> {
    match op {
        Opcode::OP_PUSH => "OP_PUSH"@,
        Opcode::OP_ADD => "OP_ADD"@,
        Opcode::OP_SUB => "OP_SUB"@,
        Opcode::OP_MUL => "OP_MUL"@,
        Opcode::OP_DIV => "OP_DIV"@,
        Opcode::OP_NOT => "OP_NOT"@,
        Opcode::OP_EQ => "OP_EQ"@,
        Opcode::OP_NE => "OP_NE"@,
        Opcode::OP_GT => "OP_GT"@,
        Opcode::OP_LT => "OP_LT"@,
        Opcode::OP_GE => "OP_GE"@,
        Opcode::OP_LE => "OP_LE"@,
        Opcode::OP_DUP => "OP_DUP"@,
        Opcode::OP_DUMP => "OP_DUMP"@,
        Opcode::OP_IF => "OP_IF"@,
        Opcode::OP_ELSE => "OP_ELSE"@,
        Opcode::OP_END => "OP_END"@,
        Opcode::OP_WHILE => "OP_WHILE"@,
        Opcode::OP_DO => "OP_DO"@,
    }
}

/// The name of `op`.
pub fn mnemonic_of(op: Opcode) -> (s: &'static str)
    ensures
        s@ == mnemonic(op),
{
    match op {
        Opcode::OP_PUSH => "OP_PUSH",
        Opcode::OP_ADD => "OP_ADD",
        Opcode::OP_SUB => "OP_SUB",
        Opcode::OP_MUL => "OP_MUL",
        Opcode::OP_DIV => "OP_DIV",
        Opcode::OP_NOT => "OP_NOT",
        Opcode::OP_EQ => "OP_EQ",
        Opcode::OP_NE => "OP_NE",
        Opcode::OP_GT => "OP_GT",
        Opcode::OP_LT => "OP_LT",
        Opcode::OP_GE => "OP_GE",
        Opcode::OP_LE => "OP_LE",
        Opcode::OP_DUP => "OP_DUP",
        Opcode::OP_DUMP => "OP_DUMP",
        Opcode::OP_IF => "OP_IF",
        Opcode::OP_ELSE => "OP_ELSE",
        Opcode::OP_END => "OP_END",
        Opcode::OP_WHILE => "OP_WHILE",
        Opcode::OP_DO => "OP_DO",
    }
}

/// The machine instructions for `op`; where `op` takes a number, the text
/// up to that number.
pub open spec fn code(op: Opcode) -> Seq<char> {
    match op {
        Opcode::OP_PUSH => PUSH@,
        Opcode::OP_ADD => ADD@,
        Opcode::OP_SUB => SUB@,
        Opcode::OP_MUL => MUL@,
        Opcode::OP_DIV => DIV@,
        Opcode::OP_NOT => NOT@,
        Opcode::OP_EQ => EQ@,
        Opcode::OP_NE => NE@,
        Opcode::OP_GT => GT@,
        Opcode::OP_LT => LT@,
        Opcode::OP_GE => GE@,
        Opcode::OP_LE => LE@,
        Opcode::OP_DUP => DUP@,
        Opcode::OP_DUMP => DUMP@,
        Opcode::OP_IF => JUMP_IF_ZERO@,
        Opcode::OP_ELSE => JUMP@,
        Opcode::OP_END => JUMP@,
        Opcode::OP_WHILE => ""@,
        Opcode::OP_DO => JUMP_IF_ZERO@,
    }
}

/// The text of [`code`].
fn code_of(op: Opcode) -> (s: &'static str)
    ensures
        s@ == code(op),
{
    match op {
        Opcode::OP_PUSH => PUSH,
        Opcode::OP_ADD => ADD,
        Opcode::OP_SUB => SUB,
        Opcode::OP_MUL => MUL,
        Opcode::OP_DIV => DIV,
        Opcode::OP_NOT => NOT,
        Opcode::OP_EQ => EQ,
        Opcode::OP_NE => NE,
        Opcode::OP_GT => GT,
        Opcode::OP_LT => LT,
        Opcode::OP_GE => GE,
        Opcode::OP_LE => LE,
        Opcode::OP_DUP => DUP,
        Opcode::OP_DUMP => DUMP,
        Opcode::OP_IF => JUMP_IF_ZERO,
        Opcode::OP_ELSE => JUMP,
        Opcode::OP_END => JUMP,
        Opcode::OP_WHILE => "",
        Opcode::OP_DO => JUMP_IF_ZERO,
    }
}

/// The number that closes the text of `ins`, if its operation takes one:
/// the value pushed, the index of the instruction to go on with after a
/// jump (one past the operand of `OP_IF`, `OP_ELSE` and `OP_DO`), or the
/// index of the `OP_WHILE` that an `OP_END` returns to.
pub open spec fn argument(ins: Instr) -> Option<int> {
    match ins.op {
        Opcode::OP_PUSH | Opcode::OP_END => Some(ins.operands[0] as int),
        Opcode::OP_IF | Opcode::OP_ELSE | Opcode::OP_DO => Some(ins.operands[0] + 1),
        _ => None,
    }
}

/// The label line of the instruction at index `ip`.
pub open spec fn label(ip: nat, op: Opcode) -> Seq<char> {
    ".addr_"@ + decimal_nat(ip) + ": ;; "@ + mnemonic(op) + "\n"@
}

/// The text emitted for one instruction. An `OP_END` without operand closes
/// an `if` and emits nothing, not even its label: control falls through.
pub open spec fn emitted(ins: Instr) -> Seq<char> {
    if ins.op == Opcode::OP_END && ins.operands.len() == 0 {
        Seq::empty()
    } else {
        label(ins.ip, ins.op) + code(ins.op) + match argument(ins) {
            Some(n) => decimal(n) + "\n"@,
            None => Seq::empty(),
        }
    }
}

/// The text emitted for the instructions of `p`, in order.
pub open spec fn listing(p: Seq<Instr>) -> Seq<char>
    decreases p.len(),
{
    if p.len() == 0 {
        Seq::empty()
    } else {
        listing(p.drop_last()) + emitted(p.last())
    }
}

/// The whole assembly text for `p`.
pub open spec fn assembly(p: Seq<Instr>) -> Seq<char> {
    PRELUDE@ + listing(p) + EPILOGUE@
}

/// The emitted text jumps where the interpreter jumps. Where an instruction
/// of a resolved program makes the interpreter go on elsewhere than with the
/// next instruction, the label that its text names is that of the
/// instruction the interpreter goes on with; but for an `OP_END`, which
/// names the label of the `OP_WHILE` just before that instruction, a label
/// with no code behind it.
pub proof fn lemma_jumps_agree(p: Seq<Instr>, s: State)
    requires
        resolved(p),
        s.ip < p.len(),
        step(p, s) is Ok,
        step(p, s)->Ok_0.ip != s.ip + 1,
    ensures
        p[s.ip as int].op != Opcode::OP_END ==> argument(p[s.ip as int]) == Some(
            step(p, s)->Ok_0.ip as int,
        ),
        p[s.ip as int].op == Opcode::OP_END ==> argument(p[s.ip as int]) == Some(
            step(p, s)->Ok_0.ip - 1,
        ),
        p[s.ip as int].op == Opcode::OP_END ==> p[step(p, s)->Ok_0.ip - 1].op == Opcode::OP_WHILE,
        code(Opcode::OP_WHILE) == ""@,
{
    assert(resolved_at(p, s.ip as int));
}

/// `ins` has the operand that its text needs.
pub open spec fn has_argument(ins: Instr) -> bool {
    match ins.op {
        Opcode::OP_PUSH | Opcode::OP_IF | Opcode::OP_ELSE | Opcode::OP_DO => ins.operands.len()
            >= 1,
        _ => true,
    }
}

/// The digits of [`argument`].
fn argument_of(ins: &Instruction) -> (r: Option<Vec<char>>)
    requires
        has_argument(ins@),
        !(ins.opcode == Opcode::OP_END && ins.operands@.len() == 0),
    ensures
        match r {
            Some(digits) => argument(ins@) is Some && digits@ == decimal(argument(ins@)->0),
            None => argument(ins@) is None,
        },
{
    match ins.opcode {
        Opcode::OP_PUSH | Opcode::OP_END => Some(decimal_chars(ins.operands[0])),
        Opcode::OP_IF | Opcode::OP_ELSE | Opcode::OP_DO => {
            let t: i64 = ins.operands[0];
            if t >= 0 {
                Some(decimal_nat_chars(t as u128 + 1))
            } else {
                Some(decimal_chars(t + 1))
            }
        },
        _ => None,
    }
}

/// Appends the text of one instruction to `out`.
fn emit(out: &mut String, ins: &Instruction)
    requires
        has_argument(ins@),
    ensures
        final(out)@ == old(out)@ + emitted(ins@),
{
    if ins.opcode == Opcode::OP_END && ins.operands.len() == 0 {
        assert(out@ + Seq::<char>::empty() =~= out@);
        return ;
    }
    out.append(".addr_");
    let index = decimal_nat_chars(ins.ip as u128);
    push_all(out, &index);
    out.append(": ;; ");
    out.append(mnemonic_of(ins.opcode));
    out.append("\n");
    out.append(code_of(ins.opcode));
    match argument_of(ins) {
        Some(digits) => {
            push_all(out, &digits);
            out.append("\n");
        },
        None => {},
    }
    assert(out@ =~= old(out)@ + emitted(ins@));
}

/// A resolved program has the operands that the emitter reads.
proof fn lemma_resolved_has_arguments(p: Seq<Instr>, k: int)
    requires
        resolved(p),
        0 <= k < p.len(),
    ensures
        has_argument(p[k]),
{
    assert(resolved_at(p, k));
}

/// The assembly text for `program`: the prelude, the text of each
/// instruction in order, and the epilogue.
pub fn codegen(program: &Vec<Instruction>) -> (out: String)
    requires
        resolved(program.deep_view()),
    ensures
        out@ == assembly(program.deep_view()),
{
    let ghost p = program.deep_view();
    let mut out = String::new();
    out.append(PRELUDE);
    let mut i: usize = 0;
    while i < program.len()
        invariant
            i <= program.len(),
            p == program.deep_view(),
            resolved(p),
            out@ == PRELUDE@ + listing(p.take(i as int)),
        decreases program.len() - i,
    {
        proof {
            lemma_resolved_has_arguments(p, i as int);
            assert(p[i as int] == program[i as int]@);
            assert(p.take(i + 1).drop_last() == p.take(i as int));
        }
        emit(&mut out, &program[i]);
        i += 1;
    }
    assert(p.take(i as int) == p);
    out.append(EPILOGUE);
    out
}

} // verus!
