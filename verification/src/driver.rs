//! The build and run drivers: which programs are started, in which order and
//! with which arguments, to turn the emitted assembly into an executable and
//! to run it. Starting them is left to the caller; what to start next is
//! decided here.

use vstd::prelude::*;
use vstd::string::*;

verus! {

/// Where the pipeline stands.
#[derive(Debug, Clone, Copy, PartialEq, Eq, Structural)]
pub enum Stage {
    /// The assembler is to turn `<base>.asm` into `<base>.o`.
    Assembling,
    /// The linker is to turn `<base>.o` into `<base>`.
    Linking,
    /// The executable is to be run.
    Running,
    /// Nothing is left to do.
    Finished,
    /// The assembler or the linker did not end with exit code 0.
    Failed,
}

/// A program to start, and its arguments.
#[derive(Debug)]
pub struct Command {
    pub program: String,
    pub arguments: Vec<String>,
}

/// The mathematical value of a [`Command`].
pub struct CommandLine {
    pub program: Seq<char>,
    pub arguments: Seq<Seq<char>>,
}

impl View for Command {
    type V = CommandLine;

    open spec fn view(&self) -> CommandLine {
        CommandLine { program: self.program@, arguments: self.arguments.deep_view() }
    }
}

/// What is started in `stage` for the executable `base`; nothing once the
/// pipeline has ended.
pub open spec fn command_line(stage: Stage, base: Seq<char>) -> Option<CommandLine> {
    match stage {
        Stage::Assembling => Some(
            CommandLine { program: "nasm"@, arguments: seq!["-felf64"@, base + ".asm"@] },
        ),
        Stage::Linking => Some(
            CommandLine { program: "ld"@, arguments: seq!["-o"@, base, base + ".o"@] },
        ),
        Stage::Running => Some(CommandLine { program: "./"@ + base, arguments: Seq::empty() }),
        Stage::Finished | Stage::Failed => None,
    }
}

/// The stage that follows `stage` when what was started there has ended
/// with `code`, `None` standing for an end without exit code. The
/// executable is run only where `run` asks for it, and how it ends does not
/// matter.
pub open spec fn next_stage(stage: Stage, code: Option<i32>, run: bool) -> Stage {
    match stage {
        Stage::Assembling => if code == Some(0i32) {
            Stage::Linking
        } else {
            Stage::Failed
        },
        Stage::Linking => if code != Some(0i32) {
            Stage::Failed
        } else if run {
            Stage::Running
        } else {
            Stage::Finished
        },
        Stage::Running | Stage::Finished => Stage::Finished,
        Stage::Failed => Stage::Failed,
    }
}

/// The name of the file that holds the assembly text for `base`.
pub fn assembly_file(base: &str) -> (name: String)
    ensures
        name@ == base@ + ".asm"@,
{
    String::from_str(base).concat(".asm")
}

/// What to start in `stage`.
pub fn command(stage: Stage, base: &str) -> (r: Option<Command>)
    ensures
        match command_line(stage, base@) {
            Some(line) => r is Some && r->0@ == line,
            None => r is None,
        },
{
    match stage {
        Stage::Assembling => {
            let mut arguments: Vec<String> = Vec::new();
            arguments.push(String::from_str("-felf64"));
            arguments.push(assembly_file(base));
            assert(arguments.deep_view() =~= seq!["-felf64"@, base@ + ".asm"@]);
            Some(Command { program: String::from_str("nasm"), arguments })
        },
        Stage::Linking => {
            let mut arguments: Vec<String> = Vec::new();
            arguments.push(String::from_str("-o"));
            arguments.push(String::from_str(base));
            arguments.push(String::from_str(base).concat(".o"));
            assert(arguments.deep_view() =~= seq!["-o"@, base@, base@ + ".o"@]);
            Some(Command { program: String::from_str("ld"), arguments })
        },
        Stage::Running => {
            let arguments: Vec<String> = Vec::new();
            assert(arguments.deep_view() =~= Seq::<Seq<char>>::empty());
            Some(Command { program: String::from_str("./").concat(base), arguments })
        },
        Stage::Finished | Stage::Failed => None,
    }
}

/// The stage after `stage`.
pub fn advance(stage: Stage, code: Option<i32>, run: bool) -> (next: Stage)
    ensures
        next == next_stage(stage, code, run),
{
    let success: bool = match code {
        Some(c) => c == 0,
        None => false,
    };
    match stage {
        Stage::Assembling => if success {
            Stage::Linking
        } else {
            Stage::Failed
        },
        Stage::Linking => if !success {
            Stage::Failed
        } else if run {
            Stage::Running
        } else {
            Stage::Finished
        },
        Stage::Running | Stage::Finished => Stage::Finished,
        Stage::Failed => Stage::Failed,
    }
}

} // verus!
