use rush::alias::AliasTable;
use rush::command::{Command, DispatchError};
use rush::session::{classify, Action, LineKind, ShellState, Signal};

fn line(text: &str) -> Signal {
    Signal::Success(text.to_string())
}

fn define(name: &str, value: &str) -> LineKind {
    LineKind::Define { name: name.to_string(), value: value.to_string() }
}

fn spawn(program: &str, arguments: &[&str], line: &str) -> Action {
    Action::Run {
        command: Command::Spawn {
            program: program.to_string(),
            arguments: arguments.iter().map(|a| a.to_string()).collect(),
        },
        line: line.to_string(),
    }
}

#[test]
fn classify_exit() {
    assert_eq!(classify("exit"), LineKind::Exit);
    assert_eq!(classify("  exit \n"), LineKind::Exit);
    assert_eq!(classify("exit 1"), LineKind::Run("exit 1".to_string()));
    assert_eq!(classify("Exit"), LineKind::Run("Exit".to_string()));
}

#[test]
fn classify_status() {
    assert_eq!(classify("$?"), LineKind::Status);
    assert_eq!(classify("\t$?  "), LineKind::Status);
    assert_eq!(classify("$? x"), LineKind::Run("$? x".to_string()));
}

#[test]
fn classify_alias_definition() {
    assert_eq!(classify("alias ll=ls"), define("ll", "ls"));
    assert_eq!(classify("alias ll=\"ls -la\""), define("ll", "ls -la"));
    assert_eq!(classify("  alias   ll  =  \"ls -la\"  "), define("ll", "ls -la"));
    assert_eq!(classify("alias ll=ls -la"), define("ll", "ls -la"));
    assert_eq!(classify("alias a=b=c"), define("a", "b=c"));
    assert_eq!(classify("alias x=\"\"y\"\""), define("x", "y"));
    assert_eq!(classify("alias x=\" y \""), define("x", " y "));
    assert_eq!(classify("alias x= \"y\" "), define("x", "y"));
    assert_eq!(classify("alias x="), define("x", ""));
    assert_eq!(classify("alias =y"), define("", "y"));
    assert_eq!(classify("alias x=\""), define("x", ""));
    assert_eq!(classify("alias x=a\"b"), define("x", "a\"b"));
}

#[test]
fn classify_alias_without_equals_is_a_command() {
    assert_eq!(classify("alias ll"), LineKind::Run("alias ll".to_string()));
    assert_eq!(classify("alias"), LineKind::Run("alias".to_string()));
    assert_eq!(classify("alias "), LineKind::Run("alias".to_string()));
    assert_eq!(classify("alias\tll=ls"), LineKind::Run("alias\tll=ls".to_string()));
    assert_eq!(classify("aliasll=ls"), LineKind::Run("aliasll=ls".to_string()));
}

#[test]
fn classify_command() {
    assert_eq!(classify("ls -la"), LineKind::Run("ls -la".to_string()));
    assert_eq!(classify("  ls   -la  "), LineKind::Run("ls   -la".to_string()));
    assert_eq!(classify(""), LineKind::Run("".to_string()));
    assert_eq!(classify("   "), LineKind::Run("".to_string()));
    assert_eq!(classify("x=1"), LineKind::Run("x=1".to_string()));
}

#[test]
fn fresh_session_has_exit_code_zero() {
    let state = ShellState::default();
    assert_eq!(state.last_exit_code(), 0);
    assert_eq!(state.aliases().resolve("ll"), None);
    let mut aliases = AliasTable::new();
    aliases.define("ll".to_string(), "ls -la".to_string());
    let state = ShellState::new(aliases);
    assert_eq!(state.last_exit_code(), 0);
    assert_eq!(state.aliases().resolve("ll"), Some(&"ls -la".to_string()));
}

#[test]
fn exit_ends_a_fresh_session() {
    let mut state = ShellState::default();
    assert_eq!(state.handle(line("exit")), Action::Exit);
    assert_eq!(state.last_exit_code(), 0);
}

#[test]
fn end_of_input_ends_with_a_farewell() {
    let mut state = ShellState::default();
    assert_eq!(state.handle(Signal::CtrlD), Action::Farewell);
    assert_eq!(state.last_exit_code(), 0);
}

#[test]
fn unknown_program_leaves_exit_code_one() {
    let mut state = ShellState::default();
    let action = state.handle(line("foobarbaz123"));
    assert_eq!(action, spawn("foobarbaz123", &[], "foobarbaz123"));
    let error = match action {
        Action::Run { command, line } => command.failure(&line),
        _ => unreachable!(),
    };
    assert_eq!(error.message(), "Failed to execute: foobarbaz123");
    assert_eq!(state.last_exit_code(), 0);
    state.complete(false);
    assert_eq!(state.last_exit_code(), 1);
    assert_eq!(state.handle(line("$?")), Action::ShowStatus(1));
    assert_eq!(state.handle(line("ls")), spawn("ls", &[], "ls"));
}

#[test]
fn status_shows_zero_after_success() {
    let mut state = ShellState::default();
    state.handle(line("foobarbaz123"));
    state.complete(false);
    assert_eq!(state.handle(line("true")), spawn("true", &[], "true"));
    assert_eq!(state.handle(line("$?")), Action::ShowStatus(1));
    state.complete(true);
    assert_eq!(state.handle(line("$?")), Action::ShowStatus(0));
    assert_eq!(state.last_exit_code(), 0);
}

#[test]
fn status_does_not_change_the_state() {
    let mut state = ShellState::default();
    state.handle(Signal::CtrlC);
    assert_eq!(state.handle(line("$?")), Action::ShowStatus(96));
    assert_eq!(state.handle(line(" $? ")), Action::ShowStatus(96));
    assert_eq!(state.last_exit_code(), 96);
}

#[test]
fn interrupt_records_ninety_six() {
    let mut state = ShellState::default();
    assert_eq!(state.handle(Signal::CtrlC), Action::Interrupted);
    assert_eq!(state.last_exit_code(), 96);
    assert_eq!(state.handle(line("$?")), Action::ShowStatus(96));
    assert_eq!(state.handle(line("ls")), spawn("ls", &[], "ls"));
    state.complete(true);
    assert_eq!(state.last_exit_code(), 0);
}

#[test]
fn cd_without_operand_is_reported_and_recorded() {
    let mut state = ShellState::default();
    state.handle(Signal::CtrlC);
    let action = state.handle(line("cd"));
    assert_eq!(action, Action::Report(DispatchError::MissingOperand));
    assert_eq!(DispatchError::MissingOperand.message(), "cd: missing operand");
    assert_eq!(state.last_exit_code(), 1);
}

#[test]
fn blank_line_is_reported_and_recorded() {
    let mut state = ShellState::default();
    assert_eq!(state.handle(line("   ")), Action::Report(DispatchError::EmptyCommand));
    assert_eq!(state.last_exit_code(), 1);
    assert_eq!(state.handle(line("")), Action::Report(DispatchError::EmptyCommand));
}

#[test]
fn cd_with_a_directory_is_handed_out() {
    let mut state = ShellState::default();
    let action = state.handle(line("cd /nowhere"));
    assert_eq!(
        action,
        Action::Run {
            command: Command::ChangeDirectory { target: "/nowhere".to_string() },
            line: "cd /nowhere".to_string(),
        }
    );
    let error = match action {
        Action::Run { command, line } => command.failure(&line),
        _ => unreachable!(),
    };
    assert_eq!(error.message(), "cd: no such file or directory: /nowhere");
    state.complete(false);
    assert_eq!(state.last_exit_code(), 1);
}

#[test]
fn alias_definition_saves_the_table() {
    let mut state = ShellState::default();
    state.handle(Signal::CtrlC);
    let action = state.handle(line("alias ll=\"ls -la\""));
    assert_eq!(action, Action::SaveAliases("{\n  \"ll\": \"ls -la\"\n}".to_string()));
    assert_eq!(state.last_exit_code(), 96);
    assert_eq!(state.aliases().resolve("ll"), Some(&"ls -la".to_string()));
    let action = state.handle(line("alias gs=git status"));
    assert_eq!(
        action,
        Action::SaveAliases("{\n  \"gs\": \"git status\",\n  \"ll\": \"ls -la\"\n}".to_string())
    );
}

#[test]
fn defined_alias_is_used_by_the_next_command() {
    let mut state = ShellState::default();
    state.handle(line("alias ll=\"ls -la\""));
    assert_eq!(state.handle(line("ll")), spawn("ls", &["-la"], "ls -la "));
    assert_eq!(
        state.handle(line("  ll   /tmp    /var ")),
        spawn("ls", &["-la", "/tmp", "/var"], "ls -la /tmp /var")
    );
    assert_eq!(state.handle(line("ls ll")), spawn("ls", &["ll"], "ls ll"));
}

#[test]
fn alias_of_an_alias_is_not_followed() {
    let mut state = ShellState::default();
    state.handle(line("alias a=b"));
    state.handle(line("alias b=c"));
    assert_eq!(state.handle(line("a x")), spawn("b", &["x"], "b x"));
    assert_eq!(state.handle(line("b x")), spawn("c", &["x"], "c x"));
}

#[test]
fn alias_for_cd_is_planned_as_cd() {
    let mut state = ShellState::default();
    state.handle(line("alias up=cd .."));
    assert_eq!(
        state.handle(line("up")),
        Action::Run {
            command: Command::ChangeDirectory { target: "..".to_string() },
            line: "cd .. ".to_string(),
        }
    );
    state.handle(line("alias home=cd"));
    assert_eq!(state.handle(line("home")), Action::Report(DispatchError::MissingOperand));
    assert_eq!(state.last_exit_code(), 1);
}

#[test]
fn session_starts_from_the_alias_file() {
    let mut state = ShellState::start(None);
    assert_eq!(state.last_exit_code(), 0);
    assert_eq!(state.handle(line("ll")), spawn("ll", &[], "ll"));
    let mut state = ShellState::start(Some("not json"));
    assert_eq!(state.handle(line("ll")), spawn("ll", &[], "ll"));
    let mut state = ShellState::start(Some("{\"ll\": \"ls -la\"}"));
    assert_eq!(state.last_exit_code(), 0);
    assert_eq!(state.handle(line("ll")), spawn("ls", &["-la"], "ls -la "));
}

#[test]
fn later_definitions_overlay_the_file() {
    let mut first = ShellState::start(Some("{\"ll\": \"ls -l\", \"g\": \"git\"}"));
    first.handle(line("alias ll=\"ls -la\""));
    first.handle(line("alias up=cd .."));
    let file = match first.handle(line("alias ll=ls -lah")) {
        Action::SaveAliases(document) => document,
        other => panic!("{:?}", other),
    };
    let second = ShellState::start(Some(&file));
    assert_eq!(second.aliases().resolve("ll"), Some(&"ls -lah".to_string()));
    assert_eq!(second.aliases().resolve("g"), Some(&"git".to_string()));
    assert_eq!(second.aliases().resolve("up"), Some(&"cd ..".to_string()));
    assert_eq!(second.aliases().document(), file);
}

#[test]
fn cd_with_two_directories_is_reported_and_recorded() {
    let mut state = ShellState::default();
    assert_eq!(state.handle(line("cd /tmp /var")), Action::Report(DispatchError::TooManyOperands));
    assert_eq!(state.last_exit_code(), 1);
    state.handle(line("alias up=cd .. .."));
    assert_eq!(state.handle(Signal::CtrlC), Action::Interrupted);
    assert_eq!(state.handle(line("up")), Action::Report(DispatchError::TooManyOperands));
    assert_eq!(state.last_exit_code(), 1);
    state.handle(line("alias home=cd /home"));
    assert_eq!(state.handle(line("home extra")), Action::Report(DispatchError::TooManyOperands));
}

#[test]
fn alias_line_without_equals_is_run_as_a_command() {
    let mut state = ShellState::default();
    assert_eq!(state.handle(line("alias ll")), spawn("alias", &["ll"], "alias ll"));
}

#[test]
fn session_restarts_with_its_aliases() {
    let mut state = ShellState::default();
    let file = match state.handle(line("alias ll=\"ls -la\"")) {
        Action::SaveAliases(document) => document,
        other => panic!("{:?}", other),
    };
    let mut restarted = ShellState::start(Some(&file));
    assert_eq!(restarted.last_exit_code(), 0);
    assert_eq!(restarted.aliases().resolve("ll"), Some(&"ls -la".to_string()));
    assert_eq!(restarted.handle(line("ll /tmp")), spawn("ls", &["-la", "/tmp"], "ls -la /tmp"));
}
