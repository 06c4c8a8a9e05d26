//! Instructions.

use vstd::prelude::*;
use crate::command_type::CommandType;
use crate::text::texts;

verus! {

/// One instruction of a script: its kind, its operands as they were
/// written, and the line that it came from.
#[derive(Debug, PartialEq)]
pub struct Command {
    pub command_type: CommandType,
    pub args: Vec<String>,
    pub line: usize,
}

/// The mathematical content of a `Command`.
pub struct CommandModel {
    pub command_type: CommandType,
    pub args: Seq<Seq<char>>,
    pub line: usize,
}

impl View for Command {
    type V = CommandModel;

    open spec fn view(&self) -> CommandModel {
        CommandModel { command_type: self.command_type, args: texts(self.args@), line: self.line }
    }
}

/// A copy of a list of strings.
pub fn clone_strings(v: &Vec<String>) -> (r: Vec<String>)
    ensures
        texts(r@) == texts(v@),
{
    let mut out: Vec<String> = Vec::new();
    let mut i: usize = 0;
    while i < v.len()
        invariant
            0 <= i <= v.len(),
            out.len() == i,
            forall|j: int| 0 <= j < i ==> out@[j]@ == v@[j]@,
        decreases v.len() - i,
    {
        out.push(v[i].clone());
        i += 1;
    }
    assert(texts(out@) =~= texts(v@));
    out
}

impl Clone for Command {
    fn clone(&self) -> (r: Self)
        ensures
            r@ == self@,
    {
        Command {
            command_type: self.command_type,
            args: clone_strings(&self.args),
            line: self.line,
        }
    }
}

impl Command {
    /// An instruction of the given kind, from the given line, with the
    /// given operands.
    pub fn new(command_type: CommandType, line: usize, args: Vec<String>) -> (r: Command)
        ensures
            r@ == (CommandModel { command_type, args: texts(args@), line }),
            r.command_type == command_type,
            r.args == args,
            r.line == line,
    {
        Command { command_type, args, line }
    }
}

/// The contents of a sequence of instructions.
pub open spec fn commands_view(v: Seq<Command>) -> Seq<CommandModel> {
    v.map_values(|c: Command| c@)
}

/// A copy of a list of instructions.
pub fn clone_commands(v: &Vec<Command>) -> (r: Vec<Command>)
    ensures
        commands_view(r@) == commands_view(v@),
{
    let mut out: Vec<Command> = Vec::new();
    let mut i: usize = 0;
    while i < v.len()
        invariant
            0 <= i <= v.len(),
            out.len() == i,
            forall|j: int| 0 <= j < i ==> out@[j]@ == v@[j]@,
        decreases v.len() - i,
    {
        out.push(v[i].clone());
        i += 1;
    }
    assert(commands_view(out@) =~= commands_view(v@));
    out
}

} // verus!
