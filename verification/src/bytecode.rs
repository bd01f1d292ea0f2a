//! A program written out for reading, one instruction per line.

use crate::codegen::{mnemonic, mnemonic_of};
use crate::decimal::{decimal, decimal_chars, decimal_nat, decimal_nat_chars};
use crate::instruction::{Instr, Instruction};
use crate::text::push_all;
use vstd::prelude::*;
use vstd::string::*;

verus! {

/// `text` behind as many spaces as it takes to fill `width` characters.
pub open spec fn right_aligned(text: Seq<char>, width: nat) -> Seq<char> {
    if text.len() < width {
        Seq::new((width - text.len()) as nat, |i: int| ' ') + text
    } else {
        text
    }
}

/// The numbers of `v`, a comma and a space between neighbours.
pub open spec fn enumerated(v: Seq<i64>) -> Seq<char>
    decreases v.len(),
{
    if v.len() == 0 {
        Seq::empty()
    } else if v.len() == 1 {
        decimal(v[0] as int)
    } else {
        enumerated(v.drop_last()) + ", "@ + decimal(v.last() as int)
    }
}

/// The line for the instruction at index `index`: the index, right-aligned
/// in three columns, three spaces, the name of the operation, `separator`,
/// and the operands in square brackets.
pub open spec fn bytecode_line(index: nat, ins: Instr, separator: Seq<char>) -> Seq<char> {
    right_aligned(decimal_nat(index), 3) + "   "@ + mnemonic(ins.op) + separator + "["@
        + enumerated(ins.operands) + "]\n"@
}

/// The lines of the instructions of `p`, in order.
pub open spec fn bytecode_text(p: Seq<Instr>, separator: Seq<char>) -> Seq<char>
    decreases p.len(),
{
    if p.len() == 0 {
        Seq::empty()
    } else {
        bytecode_text(p.drop_last(), separator) + bytecode_line(
            (p.len() - 1) as nat,
            p.last(),
            separator,
        )
    }
}

/// Appends [`right_aligned`] of `text` to `out`.
fn push_right_aligned(out: &mut String, text: &Vec<char>, width: usize)
    ensures
        final(out)@ == old(out)@ + right_aligned(text@, width as nat),
{
    let mut n: usize = text.len();
    while n < width
        invariant
            text.len() <= n,
            n <= width || n == text.len(),
            out@ == old(out)@ + Seq::new((n - text.len()) as nat, |i: int| ' '),
        decreases width - n,
    {
        out.push(' ');
        n += 1;
        assert(out@ =~= old(out)@ + Seq::new((n - text.len()) as nat, |i: int| ' '));
    }
    push_all(out, text);
    assert(out@ =~= old(out)@ + right_aligned(text@, width as nat));
}

/// Appends [`enumerated`] of `v` to `out`.
fn push_enumerated(out: &mut String, v: &Vec<i64>)
    ensures
        final(out)@ == old(out)@ + enumerated(v@),
{
    let mut i: usize = 0;
    while i < v.len()
        invariant
            i <= v.len(),
            out@ == old(out)@ + enumerated(v@.take(i as int)),
        decreases v.len() - i,
    {
        if i > 0 {
            out.append(", ");
        }
        let digits = decimal_chars(v[i]);
        push_all(out, &digits);
        proof {
            assert(v@.take(i + 1).drop_last() == v@.take(i as int));
            assert(out@ =~= old(out)@ + enumerated(v@.take(i + 1)));
        }
        i += 1;
    }
    assert(v@.take(i as int) == v@);
}

/// Writes `program` out, one line per instruction; `separator` stands
/// between the name of the operation and the operands.
pub fn bytecode(program: &Vec<Instruction>, separator: &str) -> (text: String)
    ensures
        text@ == bytecode_text(program.deep_view(), separator@),
{
    let ghost p = program.deep_view();
    let mut text = String::new();
    let mut i: usize = 0;
    while i < program.len()
        invariant
            i <= program.len(),
            p == program.deep_view(),
            text@ == bytecode_text(p.take(i as int), separator@),
        decreases program.len() - i,
    {
        let ghost before = text@;
        let ins = &program[i];
        let index = decimal_nat_chars(i as u128);
        push_right_aligned(&mut text, &index, 3);
        text.append("   ");
        text.append(mnemonic_of(ins.opcode));
        text.append(separator);
        text.append("[");
        push_enumerated(&mut text, &ins.operands);
        text.append("]\n");
        proof {
            assert(p[i as int] == ins@);
            assert(p.take(i + 1).drop_last() == p.take(i as int));
            assert(text@ =~= before + bytecode_line(i as nat, ins@, separator@));
        }
        i += 1;
    }
    assert(p.take(i as int) == p);
    text
}

} // verus!
