use jsh::builtin::EvalStage;
use jsh::dispatch::{dispatch, stage_pipes, CommandAction, NOT_FOUND_STATUS};
use jsh::repl::{after_read, keep_reading, record_result, ReadEvent, ReplAction};
use jsh::shell::{builtins, BuiltinKind, Shell};

fn args(items: &[&str]) -> Vec<String> {
    items.iter().map(|s| s.to_string()).collect()
}

fn shell() -> Shell {
    Shell::new("/".into(), vec![("PATH".to_owned(), "/bin".to_owned())], builtins())
}

#[test]
fn empty_commands_run_nothing() {
    assert!(matches!(dispatch(&shell(), Vec::new()), CommandAction::Nothing));
}

#[test]
fn builtins_get_the_remaining_words() {
    match dispatch(&shell(), args(&["echo", "a", "b"])) {
        CommandAction::Builtin { kind, name, argv } => {
            assert_eq!(kind, BuiltinKind::Echo);
            assert_eq!(name, "echo");
            assert_eq!(argv, args(&["a", "b"]));
        }
        other => panic!("unexpected {other:?}"),
    }
}

#[test]
fn external_commands_keep_the_name_they_were_called_by() {
    match dispatch(&shell(), args(&["sh", "-c", "true"])) {
        CommandAction::External { path, name, argv } => {
            assert_eq!(path, "/bin/sh");
            assert_eq!(name, "sh");
            assert_eq!(argv, args(&["-c", "true"]));
        }
        other => panic!("unexpected {other:?}"),
    }
}

#[test]
fn command_not_found_uses_status_127() {
    match dispatch(&shell(), args(&["definitely-not-a-command"])) {
        CommandAction::NotFound { message } => {
            assert_eq!(message, "definitely-not-a-command: not found\n");
        }
        other => panic!("unexpected {other:?}"),
    }
    assert_eq!(NOT_FOUND_STATUS, 127);
}

#[test]
fn pipeline_stages_are_wired_to_their_neighbours() {
    assert_eq!(stage_pipes(0, 1), (false, false));
    assert_eq!(stage_pipes(0, 3), (false, true));
    assert_eq!(stage_pipes(1, 3), (true, true));
    assert_eq!(stage_pipes(2, 3), (true, false));
}

#[test]
fn end_of_input_requests_exit_zero() {
    let mut shell = shell();
    assert!(keep_reading(&shell));
    assert_eq!(after_read(&mut shell, ReadEvent::Interrupted), ReplAction::ReadAgain);
    assert!(keep_reading(&shell));
    assert_eq!(after_read(&mut shell, ReadEvent::Line), ReplAction::Evaluate);
    assert_eq!(after_read(&mut shell, ReadEvent::Failed), ReplAction::Stop);
    assert_eq!(after_read(&mut shell, ReadEvent::EndOfInput), ReplAction::ReadAgain);
    assert_eq!(shell.exit_code(), Some(0));
    assert!(!keep_reading(&shell));
}

#[test]
fn failed_lines_leave_the_status_of_their_stage() {
    let mut shell = shell();
    record_result(&mut shell, Ok(5));
    assert_eq!(shell.last_status(), 5);
    record_result(&mut shell, Err(EvalStage::Lexer));
    assert_eq!(shell.last_status(), 1);
    record_result(&mut shell, Err(EvalStage::Parser));
    assert_eq!(shell.last_status(), 2);
    record_result(&mut shell, Err(EvalStage::Executor));
    assert_eq!(shell.last_status(), 3);
}
