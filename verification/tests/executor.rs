use jsh::executor::{Evaluation, Executor, Outcome, Step};
use jsh::expander::{ExpandedRedirectOperand, Expander};
use jsh::job_control::{pipeline_result, StageOutcome};
use jsh::lexer::Lexer;
use jsh::parser::{Ast, Command, Parser};
use jsh::redirect::{plan_redirections, OpenMode, OpenRequest, RedirectionError, SlotSource};
use jsh::token::RedirectOperator;

fn parse(source: &str) -> Ast {
    let tokens = Lexer::new(source).lex().expect("test input should lex");
    Parser::new(tokens)
        .parse()
        .expect("test input should parse")
        .expect("test input should produce an AST")
}

fn completed(status: i32, exit_requested: bool) -> Outcome {
    Outcome::Completed { status, exit_requested }
}

fn command_name(step: &Step) -> Option<String> {
    match step {
        Step::RunCommand(Command { args, .. }) => args.first().map(|w| {
            let mut name = String::new();
            for part in w.parts() {
                if let jsh::token::WordPart::Unquoted(s) = part {
                    name.push_str(s);
                }
            }
            name
        }),
        _ => None,
    }
}

/// The step runs a command with no words whose only redirection creates
/// `name` in the shell's directory.
fn assert_creates(step: Step, name: &str) {
    let command = match step {
        Step::RunCommand(c) => c,
        other => panic!("expected a command, got {other:?}"),
    };
    assert!(command.args.is_empty());
    let expanded = Expander::new(None).expand_command(command).expect("command should expand");
    let plan = plan_redirections("/tmp/dir", &expanded.redirections);
    assert_eq!(
        plan.opens,
        vec![OpenRequest { path: format!("/tmp/dir/{name}"), mode: OpenMode::Truncate }]
    );
    assert_eq!(plan.error, None);
}

fn is_finished(step: &Step, status: i32) -> bool {
    matches!(step, Step::Finished(s) if *s == status)
}

#[test]
fn and_if_executes_the_right_side_only_after_success() {
    let executor = Executor::new();

    let (mut evaluation, step) = executor.start(parse("fail && exit"));
    assert_eq!(command_name(&step), Some("fail".into()));
    let (step, absorbed) = evaluation.resume(completed(7, false));
    assert!(is_finished(&step, 7));
    assert!(!absorbed);

    let (mut evaluation, step) = executor.start(parse("> created && exit"));
    assert_creates(step, "created");
    let (step, _) = evaluation.resume(completed(0, false));
    assert_eq!(command_name(&step), Some("exit".into()));
    let (step, _) = evaluation.resume(completed(0, true));
    assert!(is_finished(&step, 0));
}

#[test]
fn or_if_executes_the_right_side_only_after_failure() {
    let executor = Executor::new();

    let (mut evaluation, step) = executor.start(parse("fail || exit"));
    assert_eq!(command_name(&step), Some("fail".into()));
    let (step, _) = evaluation.resume(completed(7, false));
    assert_eq!(command_name(&step), Some("exit".into()));
    let (step, _) = evaluation.resume(completed(0, true));
    assert!(is_finished(&step, 0));

    let (mut evaluation, step) = executor.start(parse("> created || exit"));
    assert_creates(step, "created");
    let (step, _) = evaluation.resume(completed(0, false));
    assert!(is_finished(&step, 0));
}

#[test]
fn an_exit_request_stops_a_conditional() {
    let (mut evaluation, _) = Evaluation::start(parse("exit && echo no"));
    let (step, _) = evaluation.resume(completed(0, true));
    assert!(is_finished(&step, 0));

    let (mut evaluation, _) = Evaluation::start(parse("exit 4 || echo no"));
    let (step, _) = evaluation.resume(completed(0, true));
    assert!(is_finished(&step, 0));
}

#[test]
fn an_error_fails_a_conditional() {
    let (mut evaluation, _) = Evaluation::start(parse("a && b || c"));
    let (step, absorbed) = evaluation.resume(Outcome::Failed { exit_requested: false });
    assert!(matches!(step, Step::Failed));
    assert!(!absorbed);
}

#[test]
fn pipelines_are_handed_out_whole() {
    let (mut evaluation, step) = Evaluation::start(parse("false | true && echo ok"));
    assert!(matches!(&step, Step::RunPipeline(cs) if cs.len() == 2));
    let (step, _) = evaluation.resume(completed(0, false));
    assert_eq!(command_name(&step), Some("echo".into()));
}

#[test]
fn pipeline_returns_the_last_stage_status() {
    let status = pipeline_result(&vec![StageOutcome::Status(1), StageOutcome::Status(0)]);
    assert_eq!(status, Ok(0));

    let status = pipeline_result(&vec![StageOutcome::Status(0), StageOutcome::Status(1)]);
    assert_ne!(status, Ok(0));
}

#[test]
fn rejects_an_unsupported_redirection_without_creating_the_target() {
    let command = match parse("3> output.txt") {
        Ast::Command(c) => c,
        other => panic!("expected a command, got {other:?}"),
    };
    let expanded = Expander::new(None).expand_command(command).expect("command should expand");
    let plan = plan_redirections("/tmp/dir", &expanded.redirections);

    assert_eq!(
        plan.error,
        Some(RedirectionError::UnsupportedRedirection {
            redirected_fd: 3,
            operator: RedirectOperator::OutputTruncate,
        })
    );
    assert!(plan.opens.is_empty());
}

#[test]
fn missing_input_file_reports_the_resolved_target_path() {
    let command = match parse("< missing.txt") {
        Ast::Command(c) => c,
        other => panic!("expected a command, got {other:?}"),
    };
    let expanded = Expander::new(None).expand_command(command).expect("command should expand");
    let plan = plan_redirections("/tmp/dir", &expanded.redirections);

    assert_eq!(plan.error, None);
    assert_eq!(
        plan.opens,
        vec![OpenRequest { path: "/tmp/dir/missing.txt".into(), mode: OpenMode::Read }]
    );
    assert_eq!(plan.stdin, SlotSource::Opened(0));
}

#[test]
fn a_later_redirection_overrides_an_earlier_one() {
    let command = match parse("cmd > a 2>&1 >> b") {
        Ast::Command(c) => c,
        other => panic!("expected a command, got {other:?}"),
    };
    let expanded = Expander::new(None).expand_command(command).expect("command should expand");
    assert!(matches!(
        expanded.redirections[1].operand,
        ExpandedRedirectOperand::Fd(1)
    ));
    let plan = plan_redirections("/tmp/dir", &expanded.redirections);
    assert_eq!(plan.error, None);
    assert_eq!(plan.stdin, SlotSource::Original(0));
    assert_eq!(plan.stdout, SlotSource::Opened(1));
    assert_eq!(plan.stderr, SlotSource::Opened(0));
    assert_eq!(plan.opens[1].mode, OpenMode::Append);
    assert_eq!(plan.opens[0].path, "/tmp/dir/a");
    assert_eq!(plan.opens[1].path, "/tmp/dir/b");
}

#[test]
fn duplicating_a_bad_descriptor_is_refused() {
    let command = match parse("cmd 2>&5") {
        Ast::Command(c) => c,
        other => panic!("expected a command, got {other:?}"),
    };
    let expanded = Expander::new(None).expand_command(command).expect("command should expand");
    let plan = plan_redirections("/tmp/dir", &expanded.redirections);
    assert_eq!(plan.error, Some(RedirectionError::BadFileDescripter { fd: 5 }));
}
