//! The session: what its state is, how a line is classified, and what each
//! signal from the line editor makes of the state.

use crate::alias::{expanded, lemma_words_of_expanded, loaded, pretty_document, AliasTable};
use crate::command::{
    exit_code, exit_code_of, message_of, plan, planned, planned_words, Command, CommandView,
    DispatchError, DispatchErrorView,
};
use crate::text::{
    after_prefix, halves, joined, lemma_words_of_trimmed, same_text, split_once, strip_prefix,
    stripped, trim, trim_matches, trimmed, words,
};
use vstd::prelude::*;
use vstd::string::*;

verus! {

/// What the line editor hands over when asked for the next line.
#[derive(Debug, Clone, PartialEq, Eq)]
pub enum Signal {
    /// A line was entered.
    Success(String),
    /// The user interrupted the line.
    CtrlC,
    /// The input has ended.
    CtrlD,
}

/// A `Signal` as a mathematical value.
pub enum SignalView {
    Success(Seq<char>),
    CtrlC,
    CtrlD,
}

impl View for Signal {
    type V = SignalView;

    open spec fn view(&self) -> SignalView {
        match self {
            Signal::Success(line) => SignalView::Success(line@),
            Signal::CtrlC => SignalView::CtrlC,
            Signal::CtrlD => SignalView::CtrlD,
        }
    }
}

/// What a line is, decided once per line.
#[derive(Debug, Clone, PartialEq, Eq)]
pub enum LineKind {
    /// The built-in `exit`.
    Exit,
    /// The built-in `$?`.
    Status,
    /// The built-in `alias`, with the name and the text it is to stand for.
    Define { name: String, value: String },
    /// Anything else: a command, held without its surrounding whitespace.
    Run(String),
}

/// A `LineKind` as a mathematical value.
pub enum LineKindView {
    Exit,
    Status,
    Define { name: Seq<char>, value: Seq<char> },
    Run(Seq<char>),
}

impl View for LineKind {
    type V = LineKindView;

    open spec fn view(&self) -> LineKindView {
        match self {
            LineKind::Exit => LineKindView::Exit,
            LineKind::Status => LineKindView::Status,
            LineKind::Define { name, value } => LineKindView::Define {
                name: name@,
                value: value@,
            },
            LineKind::Run(text) => LineKindView::Run(text@),
        }
    }
}

/// What the program around the session is to do next.
#[derive(Debug, Clone, PartialEq, Eq)]
pub enum Action {
    /// Leave the loop.
    Exit,
    /// Say goodbye and leave the loop.
    Farewell,
    /// Print this exit code.
    ShowStatus(i32),
    /// Replace the contents of the alias file by this document.
    SaveAliases(String),
    /// Acknowledge the interrupt.
    Interrupted,
    /// Carry out `command`, which `line` asked for, and tell the session how
    /// it went.
    Run { command: Command, line: String },
    /// Report this error; the session has recorded the failure.
    Report(DispatchError),
}

/// An `Action` as a mathematical value.
pub enum ActionView {
    Exit,
    Farewell,
    ShowStatus(i32),
    SaveAliases(Seq<char>),
    Interrupted,
    Run { command: CommandView, line: Seq<char> },
    Report(DispatchErrorView),
}

impl View for Action {
    type V = ActionView;

    open spec fn view(&self) -> ActionView {
        match self {
            Action::Exit => ActionView::Exit,
            Action::Farewell => ActionView::Farewell,
            Action::ShowStatus(code) => ActionView::ShowStatus(*code),
            Action::SaveAliases(document) => ActionView::SaveAliases(document@),
            Action::Interrupted => ActionView::Interrupted,
            Action::Run { command, line } => ActionView::Run { command: command@, line: line@ },
            Action::Report(error) => ActionView::Report(error@),
        }
    }
}

/// The exit code recorded after an interrupt.
pub open spec fn interrupt_code() -> i32 {
    96
}

/// The values that the recorded exit code takes: 0 after a command that was
/// carried out, 1 after one that was not, 96 after an interrupt.
pub open spec fn is_exit_code(code: i32) -> bool {
    code == 0 || code == 1 || code == interrupt_code()
}

/// The name and the value that an `alias` line defines: the text after
/// `alias ` is split at its first `=`; the name is what stands before it,
/// the value what stands after it, both without surrounding whitespace and
/// the value also without the double quotes around it. `None` where the line
/// does not begin with `alias ` or holds no `=` after it.
pub open spec fn definition(text: Seq<char>) -> Option<(Seq<char>, Seq<char>)> {
    match after_prefix(text, "alias "@) {
        Some(rest) => match halves(rest, '=') {
            Some((name, value)) => Some((trimmed(name), stripped(trimmed(value), '"'))),
            None => None,
        },
        None => None,
    }
}

/// What a line is. The first of these that fits decides, on the line without
/// its surrounding whitespace: `exit`, `$?`, an alias definition, a command.
pub open spec fn classified(line: Seq<char>) -> LineKindView {
    let text = trimmed(line);
    if text == "exit"@ {
        LineKindView::Exit
    } else if text == "$?"@ {
        LineKindView::Status
    } else {
        match definition(text) {
            Some((name, value)) => LineKindView::Define { name, value },
            None => LineKindView::Run(text),
        }
    }
}

/// Decides what a line is.
pub fn classify(line: &str) -> (kind: LineKind)
    ensures
        kind@ == classified(line@),
{
    let text = trim(line);
    if same_text(text, "exit") {
        return LineKind::Exit;
    }
    if same_text(text, "$?") {
        return LineKind::Status;
    }
    match strip_prefix(text, "alias ") {
        Some(rest) => match split_once(rest, '=') {
            Some((name, value)) => {
                return LineKind::Define {
                    name: trim(name).to_owned(),
                    value: trim_matches(trim(value), '"').to_owned(),
                };
            },
            None => {},
        },
        None => {},
    }
    LineKind::Run(text.to_owned())
}

/// The state of a session.
#[derive(Debug, Clone)]
pub struct ShellState {
    last_exit_code: i32,
    aliases: AliasTable,
}

/// A `ShellState` as a mathematical value.
pub struct ShellStateView {
    /// How the last command went, or 96 after an interrupt.
    pub last_exit_code: i32,
    /// What each alias stands for.
    pub aliases: Map<Seq<char>, Seq<char>>,
}

impl View for ShellState {
    type V = ShellStateView;

    closed spec fn view(&self) -> ShellStateView {
        ShellStateView { last_exit_code: self.last_exit_code, aliases: self.aliases@ }
    }
}

/// What a signal makes of the state, and what is to be done about it.
///
/// An interrupt records 96. The end of the input and `exit` end the session.
/// `$?` shows the recorded exit code. A definition enters the alias and has
/// the whole table saved. A command is expanded and planned: one that can be
/// run is handed out, with the recorded exit code as it was; one that cannot
/// is reported, and 1 is recorded.
pub open spec fn step(state: ShellStateView, signal: SignalView) -> (ShellStateView, ActionView) {
    match signal {
        SignalView::CtrlC => (
            ShellStateView { last_exit_code: interrupt_code(), ..state },
            ActionView::Interrupted,
        ),
        SignalView::CtrlD => (state, ActionView::Farewell),
        SignalView::Success(input) => match classified(input) {
            LineKindView::Exit => (state, ActionView::Exit),
            LineKindView::Status => (state, ActionView::ShowStatus(state.last_exit_code)),
            LineKindView::Define { name, value } => {
                let aliases = state.aliases.insert(name, value);
                (
                    ShellStateView { aliases, ..state },
                    ActionView::SaveAliases(pretty_document(aliases)),
                )
            },
            LineKindView::Run(text) => {
                let line = expanded(state.aliases, text);
                match planned(line) {
                    Ok(command) => (state, ActionView::Run { command, line }),
                    Err(error) => (
                        ShellStateView { last_exit_code: exit_code_of(false), ..state },
                        ActionView::Report(error),
                    ),
                }
            },
        },
    }
}

/// What the end of a command makes of the state: its exit code is recorded.
pub open spec fn completed(state: ShellStateView, succeeded: bool) -> ShellStateView {
    ShellStateView { last_exit_code: exit_code_of(succeeded), ..state }
}

/// What follows a definition. After a line that defines an alias, a command
/// that begins with the alias's name is run with the alias's text in place
/// of the name; the words after the name follow, each as it was.
pub proof fn lemma_defined_alias_is_used(
    state: ShellStateView,
    definition_line: Seq<char>,
    command_line: Seq<char>,
)
    requires
        classified(definition_line) is Define,
        classified(command_line) is Run,
        words(command_line).len() > 0,
        words(command_line)[0] == classified(definition_line)->name,
    ensures
        ({
            let name = classified(definition_line)->name;
            let value = classified(definition_line)->value;
            let defined = step(state, SignalView::Success(definition_line)).0;
            let line = value + seq![' '] + joined(words(command_line).skip(1));
            &&& defined.last_exit_code == state.last_exit_code
            &&& defined.aliases == state.aliases.insert(name, value)
            &&& words(line) == words(value) + words(command_line).skip(1)
            &&& step(defined, SignalView::Success(command_line)) == match planned_words(
                words(value) + words(command_line).skip(1),
            ) {
                Ok(command) => (defined, ActionView::Run { command, line }),
                Err(error) => (
                    ShellStateView { last_exit_code: 1, ..defined },
                    ActionView::Report(error),
                ),
            }
        }),
{
    let defined = step(state, SignalView::Success(definition_line)).0;
    lemma_words_of_trimmed(command_line);
    lemma_words_of_expanded(defined.aliases, trimmed(command_line));
}

/// The recorded exit code is 0, 1 or 96 and stays so: no signal makes it
/// anything else, and an interrupt makes it 96.
pub proof fn lemma_exit_code_stays_valid(state: ShellStateView, signal: SignalView)
    requires
        is_exit_code(state.last_exit_code),
    ensures
        is_exit_code(step(state, signal).0.last_exit_code),
        signal is CtrlC ==> step(state, signal).0.last_exit_code == 96,
{
}

/// What `$?` shows. After a command has ended it is 0 where the command was
/// carried out and 1 where it was not; after a command that could not be
/// planned it is 1; after an interrupt it is 96.
pub proof fn lemma_status_shows_last_outcome(
    state: ShellStateView,
    succeeded: bool,
    command_line: Seq<char>,
    status_line: Seq<char>,
)
    requires
        classified(status_line) is Status,
    ensures
        step(completed(state, succeeded), SignalView::Success(status_line)).1
            == ActionView::ShowStatus(
            if succeeded {
                0i32
            } else {
                1i32
            },
        ),
        step(state, SignalView::Success(command_line)).1 is Report ==> step(
            step(state, SignalView::Success(command_line)).0,
            SignalView::Success(status_line),
        ).1 == ActionView::ShowStatus(1),
        step(step(state, SignalView::CtrlC).0, SignalView::Success(status_line)).1
            == ActionView::ShowStatus(96),
{
}

/// A line asks for the status if it is `$?` with or without whitespace
/// around it; the line `$?` itself is one.
pub proof fn lemma_status_line(line: Seq<char>)
    requires
        trimmed(line) == "$?"@,
    ensures
        classified(line) is Status,
        classified("$?"@) is Status,
{
    reveal_strlit("$?");
    reveal_strlit("exit");
    let status = "$?"@;
    assert(status.len() == 2 && status[0] == '$' && status[1] == '?');
    assert(trimmed(status) == status);
    assert("exit"@.len() == 4);
}

/// `cd` without a directory. The dispatcher finds the operand missing and
/// has no part in the state; the session then reports the error and records
/// the exit code 1, with the aliases as they were.
pub proof fn lemma_cd_without_operand(state: ShellStateView, input: Seq<char>)
    requires
        classified(input) is Run,
        words(expanded(state.aliases, trimmed(input))) == seq!["cd"@],
    ensures
        planned(expanded(state.aliases, trimmed(input))) == Err::<
            CommandView,
            DispatchErrorView,
        >(DispatchErrorView::MissingOperand),
        message_of(DispatchErrorView::MissingOperand) == "cd: missing operand"@,
        step(state, SignalView::Success(input)) == (
            ShellStateView { last_exit_code: 1, ..state },
            ActionView::Report(DispatchErrorView::MissingOperand),
        ),
{
}

impl ShellState {
    /// The recorded exit code is one of 0, 1 and 96, and the alias table is
    /// well-formed.
    pub closed spec fn wf(&self) -> bool {
        self.aliases.wf() && is_exit_code(self.last_exit_code)
    }

    /// A session that starts with the given aliases and the exit code 0.
    pub fn new(aliases: AliasTable) -> (state: Self)
        requires
            aliases.wf(),
        ensures
            state.wf(),
            state@ == (ShellStateView { last_exit_code: 0, aliases: aliases@ }),
    {
        ShellState { last_exit_code: 0, aliases }
    }

    /// The session that a run of the shell starts with: the exit code 0 and
    /// the aliases that the alias file holds. `contents` is what the file
    /// holds, or `None` where there is no such file.
    pub fn start(contents: Option<&str>) -> (state: Self)
        ensures
            state.wf(),
            state@ == (ShellStateView {
                last_exit_code: 0,
                aliases: loaded(
                    match contents {
                        Some(text) => Some(text@),
                        None => None,
                    },
                ),
            }),
    {
        ShellState::new(AliasTable::load(contents))
    }

    /// The recorded exit code.
    pub fn last_exit_code(&self) -> (code: i32)
        requires
            self.wf(),
        ensures
            code == self@.last_exit_code,
            is_exit_code(code),
    {
        self.last_exit_code
    }

    /// The aliases.
    pub fn aliases(&self) -> (table: &AliasTable)
        requires
            self.wf(),
        ensures
            table.wf(),
            table@ == self@.aliases,
    {
        &self.aliases
    }

    /// Takes a signal from the line editor, brings the state up to date and
    /// says what is to be done. A document that it hands out to be saved
    /// holds the aliases of the state: a session that starts from it starts
    /// with them.
    pub fn handle(&mut self, signal: Signal) -> (action: Action)
        requires
            old(self).wf(),
        ensures
            final(self).wf(),
            (final(self)@, action@) == step(old(self)@, signal@),
            action matches Action::SaveAliases(document) ==> final(self)@.aliases == loaded(
                Some(document@),
            ),
    {
        match signal {
            Signal::CtrlC => {
                self.last_exit_code = 96;
                Action::Interrupted
            },
            Signal::CtrlD => Action::Farewell,
            Signal::Success(input) => match classify(input.as_str()) {
                LineKind::Exit => Action::Exit,
                LineKind::Status => Action::ShowStatus(self.last_exit_code),
                LineKind::Define { name, value } => {
                    self.aliases.define(name, value);
                    Action::SaveAliases(self.aliases.document())
                },
                LineKind::Run(text) => {
                    let line = self.aliases.expand(text.as_str());
                    match plan(line.as_str()) {
                        Ok(command) => Action::Run { command, line },
                        Err(error) => {
                            self.last_exit_code = exit_code(false);
                            Action::Report(error)
                        },
                    }
                },
            },
        }
    }

    /// Records how the command that was handed out went. `succeeded` says
    /// whether the command was carried out: the directory was entered, or
    /// the program was started and waited for, whatever exit status the
    /// program itself ended with.
    pub fn complete(&mut self, succeeded: bool)
        requires
            old(self).wf(),
        ensures
            final(self).wf(),
            final(self)@ == completed(old(self)@, succeeded),
    {
        self.last_exit_code = exit_code(succeeded);
    }
}

impl Default for ShellState {
    /// A session without aliases, with the exit code 0.
    fn default() -> (state: Self)
        ensures
            state.wf(),
            state@ == (ShellStateView { last_exit_code: 0, aliases: Map::empty() }),
    {
        ShellState { last_exit_code: 0, aliases: AliasTable::new() }
    }
}

} // verus!
