//! The parser: turns the words of a source text into instructions, one per
//! word, and links every `if`, `else`, `while`, `do` and `end` with its
//! partner while it goes.
//!
//! Linking uses a stack of the blocks that are still open. An opening word
//! pushes the index of its instruction; the word that continues or closes a
//! block pops the index on top and writes its own index into that
//! instruction as the jump target.

use crate::decimal::{decimal_nat, decimal_nat_chars, literal_value, parse_literal};
use crate::instruction::{resolved, resolved_at, Instr, Instruction, Opcode};
use crate::text::{chars_of, push_all, spells};
use crate::token::{Tok, Token};
use vstd::prelude::*;
use vstd::string::*;

verus! {

/// What is wrong with a word.
#[derive(Debug, Clone, Copy, PartialEq, Eq, Structural)]
pub enum ParseErrorKind {
    /// The word is no word of the language and no integer literal.
    ExpectedInteger,
    /// `else`, and the innermost open block is not an `if`.
    ElseWithoutIf,
    /// `do`, and the innermost open block is not a `while`.
    DoWithoutWhile,
    /// `end`, and the innermost open block is a `while` that has no `do`.
    WhileWithoutDo,
    /// `end`, and no block is open.
    EndWithoutOpener,
}

/// The first error of a source text: what is wrong, the position of the
/// word, and `ip`, the index of the instruction that the word stands for.
#[derive(Debug, Clone, Copy, PartialEq, Eq, Structural)]
pub struct ParseError {
    pub kind: ParseErrorKind,
    pub row: usize,
    pub col: usize,
    pub ip: usize,
}

/// What the diagnostic of an error says is wrong; `word` is the word that
/// the error is about.
pub open spec fn parse_message(kind: ParseErrorKind, word: Seq<char>) -> Seq<char> {
    match kind {
        ParseErrorKind::ExpectedInteger => "Expected integer, got "@ + word,
        ParseErrorKind::ElseWithoutIf => "Found `else` without matching `if`"@,
        ParseErrorKind::DoWithoutWhile | ParseErrorKind::WhileWithoutDo =>
            "Found `while` without matching `do`"@,
        ParseErrorKind::EndWithoutOpener =>
            "Found `end` without matching `if-else` or `while-do`"@,
    }
}

/// The diagnostic of an error in the file `source_file`: the file, the line
/// and the word in it, both counted from 1, the index of the instruction,
/// and what is wrong.
pub open spec fn parse_diagnostic(e: ParseError, source_file: Seq<char>, word: Seq<char>) -> Seq<
    char,
> {
    "[ERROR] "@ + source_file + ":"@ + decimal_nat((e.row + 1) as nat) + ":"@ + decimal_nat(
        (e.col + 1) as nat,
    ) + ": @ip "@ + decimal_nat(e.ip as nat) + ": "@ + parse_message(e.kind, word)
}

impl ParseError {
    /// The diagnostic of this error; `word` is the text of the token that
    /// it is about.
    pub fn diagnostic(&self, source_file: &str, word: &str) -> (text: String)
        ensures
            text@ == parse_diagnostic(*self, source_file@, word@),
    {
        let mut text = String::new();
        text.append("[ERROR] ");
        text.append(source_file);
        text.append(":");
        let row = decimal_nat_chars(self.row as u128 + 1);
        push_all(&mut text, &row);
        text.append(":");
        let col = decimal_nat_chars(self.col as u128 + 1);
        push_all(&mut text, &col);
        text.append(": @ip ");
        let ip = decimal_nat_chars(self.ip as u128);
        push_all(&mut text, &ip);
        text.append(": ");
        match self.kind {
            ParseErrorKind::ExpectedInteger => {
                text.append("Expected integer, got ");
                text.append(word);
            },
            ParseErrorKind::ElseWithoutIf => {
                text.append("Found `else` without matching `if`");
            },
            ParseErrorKind::DoWithoutWhile | ParseErrorKind::WhileWithoutDo => {
                text.append("Found `while` without matching `do`");
            },
            ParseErrorKind::EndWithoutOpener => {
                text.append("Found `end` without matching `if-else` or `while-do`");
            },
        }
        assert(text@ =~= parse_diagnostic(*self, source_file@, word@));
        text
    }
}

/// The operation that a word of the language names.
pub open spec fn word_opcode(text: Seq<char>) -> Option<Opcode> {
    if text == "+"@ {
        Some(Opcode::OP_ADD)
    } else if text == "-"@ {
        Some(Opcode::OP_SUB)
    } else if text == "*"@ {
        Some(Opcode::OP_MUL)
    } else if text == "/"@ {
        Some(Opcode::OP_DIV)
    } else if text == "!"@ {
        Some(Opcode::OP_NOT)
    } else if text == "="@ {
        Some(Opcode::OP_EQ)
    } else if text == "!="@ {
        Some(Opcode::OP_NE)
    } else if text == ">"@ {
        Some(Opcode::OP_GT)
    } else if text == ">="@ {
        Some(Opcode::OP_GE)
    } else if text == "<"@ {
        Some(Opcode::OP_LT)
    } else if text == "<="@ {
        Some(Opcode::OP_LE)
    } else if text == "."@ {
        Some(Opcode::OP_DUMP)
    } else if text == "dup"@ {
        Some(Opcode::OP_DUP)
    } else if text == "if"@ {
        Some(Opcode::OP_IF)
    } else if text == "else"@ {
        Some(Opcode::OP_ELSE)
    } else if text == "end"@ {
        Some(Opcode::OP_END)
    } else if text == "while"@ {
        Some(Opcode::OP_WHILE)
    } else if text == "do"@ {
        Some(Opcode::OP_DO)
    } else {
        None
    }
}

/// A parse in progress: the instructions so far, and the indices of the
/// instructions whose block is still open, the innermost last.
pub struct Partial {
    pub program: Seq<Instr>,
    pub open: Seq<int>,
}

/// The instruction for `op` at index `ip`, without operands.
pub open spec fn bare(op: Opcode, ip: nat) -> Instr {
    Instr { op, operands: Seq::empty(), ip }
}

/// `ins` with `v` as its one operand.
pub open spec fn aimed(ins: Instr, v: int) -> Instr {
    Instr { operands: seq![v as i64], ..ins }
}

/// The parse `st` continued by one word.
///
/// A word of the language becomes its instruction, any other word must be
/// an integer literal and becomes an `OP_PUSH` of its value. `if` and
/// `while` open a block. `else` takes the place of an open `if`, which
/// from then on points to it. `do` takes the place of an open `while` and
/// keeps its index. `end` closes the innermost block: an `if` or `else`
/// from then on points to the `end`; a `do` does too, and hands the index of
/// its `while` on to the `end`.
pub open spec fn feed(st: Partial, text: Seq<char>) -> Result<Partial, ParseErrorKind> {
    let ip = st.program.len();
    let top = st.open.last();
    let rest = st.open.drop_last();
    let opener = st.program[top];
    match word_opcode(text) {
        None => match literal_value(text) {
            Some(v) => Ok(
                Partial {
                    program: st.program.push(aimed(bare(Opcode::OP_PUSH, ip), v as int)),
                    ..st
                },
            ),
            None => Err(ParseErrorKind::ExpectedInteger),
        },
        Some(Opcode::OP_IF) => Ok(
            Partial {
                program: st.program.push(bare(Opcode::OP_IF, ip)),
                open: st.open.push(ip as int),
            },
        ),
        Some(Opcode::OP_WHILE) => Ok(
            Partial {
                program: st.program.push(bare(Opcode::OP_WHILE, ip)),
                open: st.open.push(ip as int),
            },
        ),
        Some(Opcode::OP_ELSE) => if st.open.len() == 0 || opener.op != Opcode::OP_IF {
            Err(ParseErrorKind::ElseWithoutIf)
        } else {
            Ok(
                Partial {
                    program: st.program.update(top, aimed(opener, ip as int)).push(
                        bare(Opcode::OP_ELSE, ip),
                    ),
                    open: rest.push(ip as int),
                },
            )
        },
        Some(Opcode::OP_DO) => if st.open.len() == 0 || opener.op != Opcode::OP_WHILE {
            Err(ParseErrorKind::DoWithoutWhile)
        } else {
            Ok(
                Partial {
                    program: st.program.push(aimed(bare(Opcode::OP_DO, ip), top)),
                    open: rest.push(ip as int),
                },
            )
        },
        Some(Opcode::OP_END) => if st.open.len() == 0 {
            Err(ParseErrorKind::EndWithoutOpener)
        } else if opener.op == Opcode::OP_WHILE {
            Err(ParseErrorKind::WhileWithoutDo)
        } else if opener.op == Opcode::OP_DO {
            Ok(
                Partial {
                    program: st.program.update(top, aimed(opener, ip as int)).push(
                        Instr { op: Opcode::OP_END, operands: opener.operands, ip },
                    ),
                    open: rest,
                },
            )
        } else {
            Ok(
                Partial {
                    program: st.program.update(top, aimed(opener, ip as int)).push(
                        bare(Opcode::OP_END, ip),
                    ),
                    open: rest,
                },
            )
        },
        Some(op) => Ok(Partial { program: st.program.push(bare(op, ip)), ..st }),
    }
}

/// The parse of the first `n` words of `tokens`, or the first error: what
/// is wrong, and the index of the word.
pub open spec fn parse_prefix(tokens: Seq<Tok>, n: nat) -> Result<Partial, (ParseErrorKind, nat)>
    decreases n,
{
    if n == 0 {
        Ok(Partial { program: Seq::empty(), open: Seq::empty() })
    } else {
        match parse_prefix(tokens, (n - 1) as nat) {
            Ok(st) => match feed(st, tokens[n - 1].text) {
                Ok(next) => Ok(next),
                Err(kind) => Err((kind, (n - 1) as nat)),
            },
            Err(e) => Err(e),
        }
    }
}

/// The parse of all of `tokens`, or the first error.
pub open spec fn parse(tokens: Seq<Tok>) -> Result<Partial, (ParseErrorKind, nat)> {
    parse_prefix(tokens, tokens.len())
}

/// The operation that the word `text` stands for when it parses: the one it
/// names, or `OP_PUSH` for a literal.
pub open spec fn opcode_for(text: Seq<char>) -> Opcode {
    match word_opcode(text) {
        Some(op) => op,
        None => Opcode::OP_PUSH,
    }
}

/// The instruction at index `k` opens a block that is not closed yet: an
/// `if`, `else` or `while` without operand, or a `do` that still holds the
/// index of its `while`.
pub open spec fn pending_at(p: Seq<Instr>, k: int) -> bool {
    let ins = p[k];
    &&& ins.ip == k
    &&& match ins.op {
        Opcode::OP_IF | Opcode::OP_ELSE | Opcode::OP_WHILE => ins.operands.len() == 0,
        Opcode::OP_DO => {
            &&& ins.operands.len() == 1
            &&& 0 <= ins.operands[0] < k
            &&& p[ins.operands[0] as int].op == Opcode::OP_WHILE
        },
        _ => false,
    }
}

/// What holds of every parse in progress: the open blocks are listed from
/// the outermost to the innermost and each is pending; every other
/// instruction is in its final form.
pub open spec fn linked(st: Partial) -> bool {
    &&& forall|i: int, j: int|
        0 <= i < j < st.open.len() ==> #[trigger] st.open[i] < #[trigger] st.open[j]
    &&& forall|i: int|
        0 <= i < st.open.len() ==> 0 <= #[trigger] st.open[i] < st.program.len() && pending_at(
            st.program,
            st.open[i],
        )
    &&& forall|k: int|
        0 <= k < st.program.len() ==> #[trigger] resolved_at(st.program, k) || st.open.contains(k)
}

/// The instructions of a parse stand for the words they were made from, one
/// for one.
pub open spec fn faithful(tokens: Seq<Tok>, p: Seq<Instr>) -> bool {
    forall|k: int|
        0 <= k < p.len() ==> (#[trigger] p[k]).op == opcode_for(tokens[k].text) && (p[k].op
            == Opcode::OP_PUSH ==> p[k].operands.len() == 1 && Some(p[k].operands[0])
            == literal_value(tokens[k].text))
}

/// One more word keeps a parse linked.
proof fn lemma_feed_linked(st: Partial, text: Seq<char>)
    requires
        linked(st),
        st.program.len() < i64::MAX,
        feed(st, text) is Ok,
    ensures
        linked(feed(st, text)->Ok_0),
        feed(st, text)->Ok_0.program.len() == st.program.len() + 1,
        feed(st, text)->Ok_0.program.last().op == opcode_for(text),
        forall|k: int|
            0 <= k < st.program.len() ==> (#[trigger] feed(st, text)->Ok_0.program[k]).op
                == st.program[k].op,
        forall|k: int|
            0 <= k < st.program.len() && st.program[k].op == Opcode::OP_PUSH ==> (
            #[trigger] feed(st, text)->Ok_0.program[k]) == st.program[k],
        opcode_for(text) == Opcode::OP_PUSH ==> feed(st, text)->Ok_0.program.last().operands.len()
            == 1 && Some(feed(st, text)->Ok_0.program.last().operands[0]) == literal_value(text),
{
    let next = feed(st, text)->Ok_0;
    let p = st.program;
    let q = next.program;
    let ip = p.len() as int;
    let n = st.open.len() as int;
    let top = st.open.last();
    if n > 0 {
        assert(st.open[n - 1] == top);
        assert(pending_at(p, top));
    }
    assert forall|i: int| 0 <= i < next.open.len() implies 0 <= #[trigger] next.open[i] < q.len()
        && pending_at(q, next.open[i]) by {
        if i < n - 1 || (i < n && next.open.len() > n) {
            assert(next.open[i] == st.open[i]);
            assert(pending_at(p, st.open[i]));
            if n > 0 && i < n - 1 {
                assert(st.open[i] < st.open[n - 1]);
            }
        }
    }
    assert forall|i: int, j: int| 0 <= i < j < next.open.len() implies #[trigger] next.open[i]
        < #[trigger] next.open[j] by {
        if j < n - 1 || (j < n && next.open.len() > n) {
            assert(next.open[i] == st.open[i]);
            assert(next.open[j] == st.open[j]);
        } else {
            assert(next.open[i] == st.open[i]);
        }
    }
    assert forall|k: int| 0 <= k < q.len() implies #[trigger] resolved_at(q, k)
        || next.open.contains(k) by {
        if k < ip {
            if resolved_at(p, k) {
                assert(resolved_at(q, k));
            } else {
                assert(st.open.contains(k));
                let i = choose|i: int| 0 <= i < n && st.open[i] == k;
                if i < n - 1 {
                    assert(st.open[i] < st.open[n - 1]);
                    assert(next.open[i] == k);
                } else if next.open.len() > n {
                    assert(next.open[i] == k);
                } else if next.open.len() == n && next.open == st.open {
                    assert(next.open[i] == k);
                } else {
                    assert(k == top);
                    assert(resolved_at(q, k));
                }
            }
        } else {
            if next.open.len() > 0 && next.open.last() == ip {
                assert(next.open[next.open.len() - 1] == k);
            } else {
                assert(resolved_at(q, k));
            }
        }
    }
}

/// Once a prefix of the words has an error, every longer prefix has the
/// same one.
proof fn lemma_parse_error_stays(tokens: Seq<Tok>, n: nat, m: nat)
    requires
        n <= m,
        parse_prefix(tokens, n) is Err,
    ensures
        parse_prefix(tokens, m) == parse_prefix(tokens, n),
    decreases m,
{
    if n < m {
        lemma_parse_error_stays(tokens, n, (m - 1) as nat);
    }
}

/// Every parse in progress is linked and faithful to its words.
pub proof fn lemma_parse_prefix_linked(tokens: Seq<Tok>, n: nat)
    requires
        n <= tokens.len() <= i64::MAX,
        parse_prefix(tokens, n) is Ok,
    ensures
        linked(parse_prefix(tokens, n)->Ok_0),
        parse_prefix(tokens, n)->Ok_0.program.len() == n,
        faithful(tokens, parse_prefix(tokens, n)->Ok_0.program),
    decreases n,
{
    if n > 0 {
        lemma_parse_prefix_linked(tokens, (n - 1) as nat);
        let st = parse_prefix(tokens, (n - 1) as nat)->Ok_0;
        lemma_feed_linked(st, tokens[n - 1].text);
        let q = parse_prefix(tokens, n)->Ok_0.program;
        assert forall|k: int| 0 <= k < q.len() implies (#[trigger] q[k]).op == opcode_for(
            tokens[k].text,
        ) && (q[k].op == Opcode::OP_PUSH ==> q[k].operands.len() == 1 && Some(q[k].operands[0])
            == literal_value(tokens[k].text)) by {
            if k < n - 1 {
                assert(st.program[k].op == opcode_for(tokens[k].text));
            } else {
                assert(q[k] == q.last());
            }
        }
    }
}

/// The instruction has as many operands as its operation asks for: one for
/// `OP_PUSH`, `OP_IF`, `OP_ELSE` and `OP_DO`, one or none for `OP_END`, none
/// for the others.
pub open spec fn has_its_operands(ins: Instr) -> bool {
    match ins.op {
        Opcode::OP_PUSH | Opcode::OP_IF | Opcode::OP_ELSE | Opcode::OP_DO => ins.operands.len()
            == 1,
        Opcode::OP_END => ins.operands.len() <= 1,
        _ => ins.operands.len() == 0,
    }
}

/// Where the instruction at index `k` jumps, it jumps to a partner: an
/// `OP_IF` to an `OP_ELSE` or `OP_END`, an `OP_ELSE` and an `OP_DO` to an
/// `OP_END`, an `OP_END` to an `OP_WHILE`.
pub open spec fn lands_on_partner(p: Seq<Instr>, k: int) -> bool {
    let ins = p[k];
    let t = ins.operands[0] as int;
    ins.operands.len() > 0 ==> match ins.op {
        Opcode::OP_IF => 0 <= t < p.len() && (p[t].op == Opcode::OP_ELSE || p[t].op
            == Opcode::OP_END),
        Opcode::OP_ELSE | Opcode::OP_DO => 0 <= t < p.len() && p[t].op == Opcode::OP_END,
        Opcode::OP_END => 0 <= t < p.len() && p[t].op == Opcode::OP_WHILE,
        _ => true,
    }
}

/// In the program of a source text that leaves no `if` and no `else` open,
/// every instruction has as many operands as its operation asks for.
pub proof fn lemma_parse_operand_counts(tokens: Seq<Tok>)
    requires
        tokens.len() <= i64::MAX,
        parse(tokens) is Ok,
        forall|i: int|
            0 <= i < parse(tokens)->Ok_0.open.len() ==> parse(tokens)->Ok_0.program[
            #[trigger] parse(tokens)->Ok_0.open[i]].op != Opcode::OP_IF,
        forall|i: int|
            0 <= i < parse(tokens)->Ok_0.open.len() ==> parse(tokens)->Ok_0.program[
            #[trigger] parse(tokens)->Ok_0.open[i]].op != Opcode::OP_ELSE,
    ensures
        forall|k: int|
            0 <= k < tokens.len() ==> has_its_operands(#[trigger] parse(tokens)->Ok_0.program[k]),
{
    lemma_parse_prefix_linked(tokens, tokens.len());
    let st = parse(tokens)->Ok_0;
    assert forall|k: int| 0 <= k < tokens.len() implies has_its_operands(
        #[trigger] st.program[k],
    ) by {
        if !resolved_at(st.program, k) {
            assert(st.open.contains(k));
            let i = choose|i: int| 0 <= i < st.open.len() && st.open[i] == k;
            assert(pending_at(st.program, st.open[i]));
        }
    }
}

/// In the program of a source text that leaves no `do` open, every jump
/// leads to a partner.
pub proof fn lemma_parse_jumps_land(tokens: Seq<Tok>)
    requires
        tokens.len() <= i64::MAX,
        parse(tokens) is Ok,
        forall|i: int|
            0 <= i < parse(tokens)->Ok_0.open.len() ==> parse(tokens)->Ok_0.program[
            #[trigger] parse(tokens)->Ok_0.open[i]].op != Opcode::OP_DO,
    ensures
        forall|k: int|
            0 <= k < tokens.len() ==> #[trigger] lands_on_partner(parse(tokens)->Ok_0.program, k),
{
    lemma_parse_prefix_linked(tokens, tokens.len());
    let st = parse(tokens)->Ok_0;
    assert forall|k: int| 0 <= k < tokens.len() implies #[trigger] lands_on_partner(
        st.program,
        k,
    ) by {
        if !resolved_at(st.program, k) {
            assert(st.open.contains(k));
            let i = choose|i: int| 0 <= i < st.open.len() && st.open[i] == k;
            assert(pending_at(st.program, st.open[i]));
        }
    }
}

/// A source text whose blocks are all closed parses to a resolved program.
pub proof fn lemma_parse_resolved(tokens: Seq<Tok>)
    requires
        tokens.len() <= i64::MAX,
        parse(tokens) is Ok,
        parse(tokens)->Ok_0.open.len() == 0,
    ensures
        resolved(parse(tokens)->Ok_0.program),
{
    lemma_parse_prefix_linked(tokens, tokens.len());
    let st = parse(tokens)->Ok_0;
    assert forall|k: int| 0 <= k < st.program.len() implies resolved_at(st.program, k) by {
        assert(resolved_at(st.program, k) || st.open.contains(k));
    }
}

/// The operation that `word` names, if it is a word of the language.
pub fn opcode_of(word: &Vec<char>) -> (r: Option<Opcode>)
    ensures
        r == word_opcode(word@),
{
    if spells(word, "+") {
        Some(Opcode::OP_ADD)
    } else if spells(word, "-") {
        Some(Opcode::OP_SUB)
    } else if spells(word, "*") {
        Some(Opcode::OP_MUL)
    } else if spells(word, "/") {
        Some(Opcode::OP_DIV)
    } else if spells(word, "!") {
        Some(Opcode::OP_NOT)
    } else if spells(word, "=") {
        Some(Opcode::OP_EQ)
    } else if spells(word, "!=") {
        Some(Opcode::OP_NE)
    } else if spells(word, ">") {
        Some(Opcode::OP_GT)
    } else if spells(word, ">=") {
        Some(Opcode::OP_GE)
    } else if spells(word, "<") {
        Some(Opcode::OP_LT)
    } else if spells(word, "<=") {
        Some(Opcode::OP_LE)
    } else if spells(word, ".") {
        Some(Opcode::OP_DUMP)
    } else if spells(word, "dup") {
        Some(Opcode::OP_DUP)
    } else if spells(word, "if") {
        Some(Opcode::OP_IF)
    } else if spells(word, "else") {
        Some(Opcode::OP_ELSE)
    } else if spells(word, "end") {
        Some(Opcode::OP_END)
    } else if spells(word, "while") {
        Some(Opcode::OP_WHILE)
    } else if spells(word, "do") {
        Some(Opcode::OP_DO)
    } else {
        None
    }
}

/// The indices held by a stack of open blocks.
pub open spec fn indices(stack: Seq<usize>) -> Seq<int> {
    Seq::new(stack.len(), |i: int| stack[i] as int)
}

/// The instruction for `op` at index `ip`, without operands.
fn plain(op: Opcode, ip: usize) -> (ins: Instruction)
    ensures
        ins@ == bare(op, ip as nat),
{
    let ins = Instruction::new(op, Vec::new(), ip);
    assert(ins.operands@ =~= Seq::empty());
    ins
}

/// The instruction for `op` at index `ip`, with the operand `v`.
fn with_operand(op: Opcode, v: i64, ip: usize) -> (ins: Instruction)
    ensures
        ins@ == aimed(bare(op, ip as nat), v as int),
{
    let ins = Instruction::new(op, vec![v], ip);
    assert(ins.operands@ =~= seq![v]);
    ins
}

/// Appends `ins` to `program`.
fn append(program: &mut Vec<Instruction>, ins: Instruction)
    ensures
        final(program).deep_view() == old(program).deep_view().push(ins@),
{
    program.push(ins);
    assert(program.deep_view() =~= old(program).deep_view().push(ins@));
}

/// Makes `target` the one operand of the instruction at index `k`.
fn retarget(program: &mut Vec<Instruction>, k: usize, target: usize)
    requires
        k < old(program).len(),
    ensures
        final(program).deep_view() == old(program).deep_view().update(
            k as int,
            aimed(old(program).deep_view()[k as int], target as i64 as int),
        ),
{
    let ins = Instruction::new(program[k].opcode, vec![target as i64], program[k].ip);
    assert(ins@ == aimed(old(program).deep_view()[k as int], target as i64 as int)) by {
        assert(ins.operands@ =~= seq![target as i64]);
    }
    program.set(k, ins);
    assert(program.deep_view() =~= old(program).deep_view().update(k as int, ins@));
}

/// Parses `tokens` into a program, one instruction per word, in order, and
/// links the control-flow instructions. The first word that is out of place
/// ends the parse with an error that names it.
///
/// A text that leaves a block open parses too; its program is not resolved.
pub fn parser(tokens: &Vec<Token>) -> (r: Result<Vec<Instruction>, ParseError>)
    requires
        tokens.len() <= i64::MAX,
    ensures
        match parse(tokens.deep_view()) {
            Ok(st) => r is Ok && r->Ok_0.deep_view() == st.program,
            Err((kind, at)) => r == Err::<Vec<Instruction>, ParseError>(
                ParseError {
                    kind,
                    row: tokens[at as int].row,
                    col: tokens[at as int].col,
                    ip: at as usize,
                },
            ),
        },
        r is Ok ==> r->Ok_0.len() == tokens.len() && faithful(
            tokens.deep_view(),
            r->Ok_0.deep_view(),
        ) && linked(parse(tokens.deep_view())->Ok_0),
        r is Ok && parse(tokens.deep_view())->Ok_0.open.len() == 0 ==> resolved(
            r->Ok_0.deep_view(),
        ),
{
    let ghost toks = tokens.deep_view();
    let mut program: Vec<Instruction> = Vec::new();
    let mut crossref: Vec<usize> = Vec::new();
    let ghost empty = Partial { program: Seq::empty(), open: Seq::empty() };
    assert(program.deep_view() =~= empty.program);
    assert(indices(crossref@) =~= empty.open);
    let mut ip: usize = 0;
    while ip < tokens.len()
        invariant
            ip <= tokens.len() <= i64::MAX,
            toks == tokens.deep_view(),
            program.len() == ip,
            parse_prefix(toks, ip as nat) == Ok::<Partial, (ParseErrorKind, nat)>(
                Partial { program: program.deep_view(), open: indices(crossref@) },
            ),
        decreases tokens.len() - ip,
    {
        let ghost st = Partial { program: program.deep_view(), open: indices(crossref@) };
        let tok = &tokens[ip];
        let word = chars_of(tok.tok.as_str());
        let n: usize = crossref.len();
        proof {
            assert(toks[ip as int] == tok@);
            assert(word@ == toks[ip as int].text);
            lemma_parse_prefix_linked(toks, ip as nat);
            if n > 0 {
                assert(st.open[n - 1] == crossref@[n - 1] as int);
                assert(pending_at(st.program, st.open[n - 1]));
                assert(st.program[crossref@[n - 1] as int] == program[crossref@[n - 1] as int]@);
            }
        }
        let mut fault: Option<ParseErrorKind> = None;
        match opcode_of(&word) {
            None => match parse_literal(&word) {
                Some(v) => {
                    append(&mut program, with_operand(Opcode::OP_PUSH, v, ip));
                },
                None => {
                    fault = Some(ParseErrorKind::ExpectedInteger);
                },
            },
            Some(Opcode::OP_IF) => {
                append(&mut program, plain(Opcode::OP_IF, ip));
                crossref.push(ip);
            },
            Some(Opcode::OP_WHILE) => {
                append(&mut program, plain(Opcode::OP_WHILE, ip));
                crossref.push(ip);
            },
            Some(Opcode::OP_ELSE) => {
                if n == 0 || program[crossref[n - 1]].opcode != Opcode::OP_IF {
                    fault = Some(ParseErrorKind::ElseWithoutIf);
                } else {
                    let top: usize = crossref[n - 1];
                    crossref.pop();
                    retarget(&mut program, top, ip);
                    append(&mut program, plain(Opcode::OP_ELSE, ip));
                    crossref.push(ip);
                }
            },
            Some(Opcode::OP_DO) => {
                if n == 0 || program[crossref[n - 1]].opcode != Opcode::OP_WHILE {
                    fault = Some(ParseErrorKind::DoWithoutWhile);
                } else {
                    let top: usize = crossref[n - 1];
                    crossref.pop();
                    append(&mut program, with_operand(Opcode::OP_DO, top as i64, ip));
                    crossref.push(ip);
                }
            },
            Some(Opcode::OP_END) => {
                if n == 0 {
                    fault = Some(ParseErrorKind::EndWithoutOpener);
                } else if program[crossref[n - 1]].opcode == Opcode::OP_WHILE {
                    fault = Some(ParseErrorKind::WhileWithoutDo);
                } else {
                    let top: usize = crossref[n - 1];
                    crossref.pop();
                    let end = if program[top].opcode == Opcode::OP_DO {
                        assert(st.program[top as int].operands =~= seq![
                            st.program[top as int].operands[0],
                        ]);
                        with_operand(Opcode::OP_END, program[top].operands[0], ip)
                    } else {
                        plain(Opcode::OP_END, ip)
                    };
                    retarget(&mut program, top, ip);
                    append(&mut program, end);
                }
            },
            Some(op) => {
                append(&mut program, plain(op, ip));
            },
        }
        match fault {
            Some(kind) => {
                proof {
                    lemma_parse_error_stays(toks, (ip + 1) as nat, toks.len());
                }
                return Err(ParseError { kind, row: tok.row, col: tok.col, ip });
            },
            None => {},
        }
        proof {
            let next = feed(st, word@)->Ok_0;
            assert(program.deep_view() =~= next.program);
            assert(indices(crossref@) =~= next.open);
        }
        ip += 1;
    }
    proof {
        lemma_parse_prefix_linked(toks, toks.len());
        if parse(toks)->Ok_0.open.len() == 0 {
            lemma_parse_resolved(toks);
        }
    }
    Ok(program)
}

} // verus!
