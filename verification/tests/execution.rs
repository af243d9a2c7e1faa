use jsh::builtin::{cd, echo};
use jsh::dispatch::{dispatch, stage_pipes, CommandAction, NOT_FOUND_STATUS};
use jsh::expander::{ExpandedCommand, Expander};
use jsh::lexer::Lexer;
use jsh::parser::{Ast, Command, Parser};
use jsh::redirect::{plan_redirections, OpenMode, OpenRequest, RedirectPlan, SlotSource};
use jsh::shell::{builtins, BuiltinKind, Shell};

fn parse(source: &str) -> Ast {
    let tokens = Lexer::new(source).lex().expect("test input should lex");
    Parser::new(tokens)
        .parse()
        .expect("test input should parse")
        .expect("test input should produce an AST")
}

fn expand(command: Command) -> ExpandedCommand {
    Expander::new(None).expand_command(command).expect("command should expand")
}

fn single(source: &str) -> ExpandedCommand {
    match parse(source) {
        Ast::Command(c) => expand(c),
        other => panic!("expected a command, got {other:?}"),
    }
}

fn stages(source: &str) -> Vec<ExpandedCommand> {
    match parse(source) {
        Ast::Pipeline { commands } => commands.into_iter().map(expand).collect(),
        other => panic!("expected a pipeline, got {other:?}"),
    }
}

fn plan(cwd: &str, command: &ExpandedCommand) -> RedirectPlan {
    plan_redirections(cwd, &command.redirections)
}

fn shell_with_path(cwd: &str, path: &str) -> Shell {
    Shell::new(cwd.into(), vec![("PATH".to_owned(), path.to_owned())], builtins())
}

#[test]
fn executes_a_builtin_with_output_redirection() {
    let shell = shell_with_path("/work", "/bin");
    let command = single("echo hello world > output.txt");
    let plan = plan("/work", &command);
    assert_eq!(
        plan.opens,
        vec![OpenRequest { path: "/work/output.txt".into(), mode: OpenMode::Truncate }]
    );
    assert_eq!(plan.stdout, SlotSource::Opened(0));
    match dispatch(&shell, command.args) {
        CommandAction::Builtin { kind, argv, .. } => {
            assert_eq!(kind, BuiltinKind::Echo);
            assert_eq!(echo(&argv), "hello world\n");
        }
        other => panic!("unexpected {other:?}"),
    }
}

#[test]
fn output_append_preserves_existing_content() {
    let command = single("echo second >> output.txt");
    let plan = plan("/work", &command);
    assert_eq!(
        plan.opens,
        vec![OpenRequest { path: "/work/output.txt".into(), mode: OpenMode::Append }]
    );
    assert_eq!(plan.stdout, SlotSource::Opened(0));
}

#[test]
fn pipeline_passes_output_to_the_next_stage() {
    let commands = stages("printf pipeline-output | cat > output.txt");
    assert_eq!(commands.len(), 2);
    let first = plan("/work", &commands[0]);
    let last = plan("/work", &commands[1]);
    assert_eq!(stage_pipes(0, 2), (false, true));
    assert_eq!(stage_pipes(1, 2), (true, false));
    assert_eq!(first.stdout, SlotSource::Original(1));
    assert_eq!(last.stdin, SlotSource::Original(0));
    assert_eq!(last.stdout, SlotSource::Opened(0));
}

#[test]
fn command_redirection_overrides_the_pipeline_output() {
    let commands = stages("printf redirected > direct.txt | cat > pipeline.txt");
    let first = plan("/work", &commands[0]);
    assert!(stage_pipes(0, 2).1);
    assert_eq!(first.stdout, SlotSource::Opened(0));
    assert_eq!(first.opens[0].path, "/work/direct.txt");
    let second = plan("/work", &commands[1]);
    assert_eq!(second.stdin, SlotSource::Original(0));
    assert_eq!(second.opens[0].path, "/work/pipeline.txt");
}

#[test]
fn later_stage_redirection_failure_does_not_leave_a_running_child() {
    let commands = stages("sh -c 'sleep 1' | cat < missing.txt");
    let second = plan("/work", &commands[1]);
    assert_eq!(
        second.opens,
        vec![OpenRequest { path: "/work/missing.txt".into(), mode: OpenMode::Read }]
    );
    assert_eq!(second.error, None);
}

#[test]
fn command_not_found_uses_status_127_and_obeys_stderr_redirection() {
    let shell = shell_with_path("/work", "/nonexistent");
    let command = single("definitely-not-a-command 2> error.txt");
    let plan = plan("/work", &command);
    assert_eq!(plan.stderr, SlotSource::Opened(0));
    assert_eq!(plan.opens[0].path, "/work/error.txt");
    match dispatch(&shell, command.args) {
        CommandAction::NotFound { message } => {
            assert_eq!(message, "definitely-not-a-command: not found\n");
        }
        other => panic!("unexpected {other:?}"),
    }
    assert_eq!(NOT_FOUND_STATUS, 127);
}

#[test]
fn relative_executable_is_resolved_against_the_shell_cwd_after_cd() {
    let mut shell = shell_with_path("/tmp", "/nonexistent");
    let target = cd(&shell, &vec!["/bin".to_owned()]).expect("cd should name a target");
    shell.set_current_dir(target);
    match dispatch(&shell, vec!["./sh".to_owned()]) {
        CommandAction::External { path, name, .. } => {
            assert_eq!(path, "/bin/./sh");
            assert_eq!(name, "./sh");
        }
        other => panic!("unexpected {other:?}"),
    }
    let command = single("./sh > output.txt");
    assert_eq!(plan(shell.current_dir(), &command).opens[0].path, "/bin/output.txt");
}

#[test]
fn absolute_executable_path_runs_from_another_shell_cwd() {
    let shell = shell_with_path("/tmp", "/nonexistent");
    match dispatch(&shell, vec!["/bin/sh".to_owned()]) {
        CommandAction::External { path, .. } => assert_eq!(path, "/bin/sh"),
        other => panic!("unexpected {other:?}"),
    }
}

#[test]
fn relative_path_dir_is_resolved_against_the_shell_current_dir() {
    let shell = shell_with_path("/", "bin");
    match dispatch(&shell, vec!["sh".to_owned()]) {
        CommandAction::External { path, .. } => assert_eq!(path, "/bin/sh"),
        other => panic!("unexpected {other:?}"),
    }
}
