//! The dispatcher's decisions: what a command line asks for, and how a
//! command that cannot be carried out is reported.

use crate::text::{same_text, split_whitespace, words};
use vstd::prelude::*;
use vstd::string::*;

verus! {

/// What a command line asks for.
#[derive(Debug, Clone, PartialEq, Eq)]
pub enum Command {
    /// The built-in `cd`: make `target` the working directory.
    ChangeDirectory { target: String },
    /// Start `program` with `arguments` and wait for it to end.
    Spawn { program: String, arguments: Vec<String> },
}

/// A `Command` as a mathematical value.
pub enum CommandView {
    ChangeDirectory { target: Seq<char> },
    Spawn { program: Seq<char>, arguments: Seq<Seq<char>> },
}

impl View for Command {
    type V = CommandView;

    open spec fn view(&self) -> CommandView {
        match self {
            Command::ChangeDirectory { target } => CommandView::ChangeDirectory { target: target@ },
            Command::Spawn { program, arguments } => CommandView::Spawn {
                program: program@,
                arguments: arguments.deep_view(),
            },
        }
    }
}

/// Why a command line was not carried out.
#[derive(Debug, Clone, PartialEq, Eq)]
pub enum DispatchError {
    /// The line holds no word.
    EmptyCommand,
    /// `cd` without a directory.
    MissingOperand,
    /// `cd` with more than one directory.
    TooManyOperands,
    /// `cd` to a directory that could not be entered.
    NoSuchDirectory(String),
    /// The line named a program that could not be started.
    SpawnFailed(String),
}

/// A `DispatchError` as a mathematical value.
pub enum DispatchErrorView {
    EmptyCommand,
    MissingOperand,
    TooManyOperands,
    NoSuchDirectory(Seq<char>),
    SpawnFailed(Seq<char>),
}

impl View for DispatchError {
    type V = DispatchErrorView;

    open spec fn view(&self) -> DispatchErrorView {
        match self {
            DispatchError::EmptyCommand => DispatchErrorView::EmptyCommand,
            DispatchError::MissingOperand => DispatchErrorView::MissingOperand,
            DispatchError::TooManyOperands => DispatchErrorView::TooManyOperands,
            DispatchError::NoSuchDirectory(target) => DispatchErrorView::NoSuchDirectory(target@),
            DispatchError::SpawnFailed(line) => DispatchErrorView::SpawnFailed(line@),
        }
    }
}

/// What a list of words asks for. The first word decides: `cd` is the
/// built-in, which takes exactly one more word, its directory, and is an
/// error with none or with more than one; every other first word names a
/// program, and the later words are its arguments.
pub open spec fn planned_words(ws: Seq<Seq<char>>) -> Result<CommandView, DispatchErrorView> {
    if ws.len() == 0 {
        Err(DispatchErrorView::EmptyCommand)
    } else if ws[0] == "cd"@ {
        if ws.len() < 2 {
            Err(DispatchErrorView::MissingOperand)
        } else if ws.len() > 2 {
            Err(DispatchErrorView::TooManyOperands)
        } else {
            Ok(CommandView::ChangeDirectory { target: ws[1] })
        }
    } else {
        Ok(CommandView::Spawn { program: ws[0], arguments: ws.skip(1) })
    }
}

/// What a command line asks for: what its words ask for.
pub open spec fn planned(line: Seq<char>) -> Result<CommandView, DispatchErrorView> {
    planned_words(words(line))
}

/// The error by which a command that could not be carried out is reported.
/// `line` is the line that asked for it.
pub open spec fn failure_of(command: CommandView, line: Seq<char>) -> DispatchErrorView {
    match command {
        CommandView::ChangeDirectory { target } => DispatchErrorView::NoSuchDirectory(target),
        CommandView::Spawn { .. } => DispatchErrorView::SpawnFailed(line),
    }
}

/// The words in which an error is reported.
pub open spec fn message_of(error: DispatchErrorView) -> Seq<char> {
    match error {
        DispatchErrorView::EmptyCommand => "Empty command"@,
        DispatchErrorView::MissingOperand => "cd: missing operand"@,
        DispatchErrorView::TooManyOperands => "cd: too many arguments"@,
        DispatchErrorView::NoSuchDirectory(target) => "cd: no such file or directory: "@ + target,
        DispatchErrorView::SpawnFailed(line) => "Failed to execute: "@ + line,
    }
}

/// The exit code that the session records for a command: 0 where it was
/// carried out, 1 where it was not.
pub open spec fn exit_code_of(succeeded: bool) -> i32 {
    if succeeded {
        0
    } else {
        1
    }
}

/// Decides what a command line asks for.
pub fn plan(line: &str) -> (outcome: Result<Command, DispatchError>)
    ensures
        match outcome {
            Ok(command) => planned(line@) == Ok::<CommandView, DispatchErrorView>(command@),
            Err(error) => planned(line@) == Err::<CommandView, DispatchErrorView>(error@),
        },
{
    let mut ws = split_whitespace(line);
    if ws.len() == 0 {
        return Err(DispatchError::EmptyCommand);
    }
    let ghost all = ws.deep_view();
    let program = ws.remove(0);
    assert(ws.deep_view() =~= all.skip(1));
    if same_text(program.as_str(), "cd") {
        if ws.len() == 0 {
            Err(DispatchError::MissingOperand)
        } else if ws.len() > 1 {
            Err(DispatchError::TooManyOperands)
        } else {
            let target = ws.remove(0);
            Ok(Command::ChangeDirectory { target })
        }
    } else {
        Ok(Command::Spawn { program, arguments: ws })
    }
}

impl Command {
    /// The error to report when this command, asked for by `line`, could not
    /// be carried out.
    pub fn failure(&self, line: &str) -> (error: DispatchError)
        ensures
            error@ == failure_of(self@, line@),
    {
        match self {
            Command::ChangeDirectory { target } => DispatchError::NoSuchDirectory(target.clone()),
            Command::Spawn { .. } => DispatchError::SpawnFailed(line.to_owned()),
        }
    }
}

impl DispatchError {
    /// The error in words.
    pub fn message(&self) -> (text: String)
        ensures
            text@ == message_of(self@),
    {
        match self {
            DispatchError::EmptyCommand => "Empty command".to_owned(),
            DispatchError::MissingOperand => "cd: missing operand".to_owned(),
            DispatchError::TooManyOperands => "cd: too many arguments".to_owned(),
            DispatchError::NoSuchDirectory(target) => {
                let mut text = "cd: no such file or directory: ".to_owned();
                text.append(target.as_str());
                text
            },
            DispatchError::SpawnFailed(line) => {
                let mut text = "Failed to execute: ".to_owned();
                text.append(line.as_str());
                text
            },
        }
    }
}

/// The exit code to record for a command.
pub fn exit_code(succeeded: bool) -> (code: i32)
    ensures
        code == exit_code_of(succeeded),
{
    if succeeded {
        0
    } else {
        1
    }
}

} // verus!
