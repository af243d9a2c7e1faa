use jsh::builtin::{
    cd, cd_failure, echo, eval_failure_status, exit, job_argument, jobs_arguments,
    prefixed_failure, pwd, type_command, BuiltinError, EvalStage,
};
use jsh::shell::{builtins, BuiltinKind, Shell};

fn args(items: &[&str]) -> Vec<String> {
    items.iter().map(|s| s.to_string()).collect()
}

fn shell_in(dir: &str) -> Shell {
    Shell::new(dir.to_owned(), Vec::new(), builtins())
}

fn failure(e: BuiltinError) -> (i32, String) {
    match e {
        BuiltinError::Failure { status, message } => (status, message),
        BuiltinError::Io(err) => panic!("unexpected I/O error {err}"),
    }
}

#[test]
fn missing_command_returns_failure_status() {
    let shell = Shell::new(".".into(), Vec::new(), Vec::new());
    let args = vec!["missing-command".to_owned()];

    let report = type_command(&shell, &args).expect("type should report the missing command");

    assert_eq!(report.status, 1);
    assert_eq!(report.stderr, "missing-command: not found\n");
    assert_eq!(report.stdout, "");
}

#[test]
fn type_reports_builtins() {
    let shell = shell_in("/");
    let report = type_command(&shell, &args(&["echo"])).unwrap();
    assert_eq!(report.status, 0);
    assert_eq!(report.stdout, "echo is a shell builtin\n");
    assert_eq!(failure(type_command(&shell, &args(&[])).unwrap_err()), (1, "type: missing operand".into()));
    assert_eq!(
        failure(type_command(&shell, &args(&["a", "b"])).unwrap_err()),
        (1, "type: too many arguments".into())
    );
}

#[test]
fn type_reports_the_path_of_an_external_command() {
    let shell = Shell::new(
        "/".into(),
        vec![("PATH".to_owned(), "/nonexistent-dir:/bin".to_owned())],
        builtins(),
    );
    let report = type_command(&shell, &args(&["sh"])).unwrap();
    assert_eq!(report.status, 0);
    assert_eq!(report.stdout, "sh is /bin/sh\n");
}

#[test]
fn exit_requests_status_zero() {
    let mut shell = shell_in("/");
    assert!(!shell.exit_requested());
    assert_eq!(exit(&mut shell, &args(&[])).unwrap(), 0);
    assert_eq!(shell.exit_code(), Some(0));
}

#[test]
fn exit_ignores_its_arguments() {
    for argv in [&["7"][..], &["-1"], &["2147483648"], &["x"], &["1", "2"]] {
        let mut shell = shell_in("/");
        assert_eq!(exit(&mut shell, &args(argv)).unwrap(), 0);
        assert_eq!(shell.exit_code(), Some(0));
        assert_eq!(shell.current_dir(), "/");
    }
}

#[test]
fn echo_joins_its_arguments() {
    assert_eq!(echo(&args(&["hello", "world"])), "hello world\n");
    assert_eq!(echo(&args(&[])), "\n");
    assert_eq!(echo(&args(&["", "x"])), " x\n");
}

#[test]
fn pwd_prints_the_shell_directory() {
    assert_eq!(pwd(&shell_in("/tmp/work")), "/tmp/work\n");
}

#[test]
fn cd_targets_are_taken_relative_to_the_shell_directory() {
    let shell = shell_in("/tmp/work");
    assert_eq!(cd(&shell, &args(&["sub"])).unwrap(), "/tmp/work/sub");
    assert_eq!(cd(&shell, &args(&["/etc"])).unwrap(), "/etc");
    assert_eq!(failure(cd(&shell, &args(&[])).unwrap_err()), (1, "cd: missing operand".into()));
    assert_eq!(
        failure(cd(&shell, &args(&["a", "b"])).unwrap_err()),
        (1, "cd: too many arguments".into())
    );
    assert_eq!(
        failure(cd_failure("/tmp/x", false)),
        (1, "cd: /tmp/x: No such file or directory".into())
    );
    assert_eq!(failure(cd_failure("/tmp/x", true)), (1, "cd: /tmp/x: Not a directory".into()));
}

#[test]
fn job_builtins_take_at_most_one_argument() {
    assert_eq!(job_argument("fg", &args(&[])).unwrap(), None);
    assert_eq!(job_argument("fg", &args(&["%1"])).unwrap(), Some("%1".to_owned()));
    assert_eq!(
        failure(job_argument("bg", &args(&["%1", "%2"])).unwrap_err()),
        (1, "bg: too many arguments".into())
    );
    assert!(jobs_arguments(&args(&[])).is_ok());
    assert_eq!(
        failure(jobs_arguments(&args(&["x"])).unwrap_err()),
        (1, "jobs: too many arguments".into())
    );
    assert_eq!(failure(prefixed_failure("fg", "no current job")), (1, "fg: no current job".into()));
}

#[test]
fn failure_statuses_follow_the_stage() {
    assert_eq!(eval_failure_status(EvalStage::Lexer), 1);
    assert_eq!(eval_failure_status(EvalStage::Parser), 2);
    assert_eq!(eval_failure_status(EvalStage::Executor), 3);
    assert_eq!(BuiltinError::new(4, "x".into()).status(), 4);
}

#[test]
fn the_builtin_table_names_every_builtin() {
    let names: Vec<(String, BuiltinKind)> = builtins();
    let expected = vec![
        ("exit", BuiltinKind::Exit),
        ("echo", BuiltinKind::Echo),
        ("type", BuiltinKind::Type),
        ("pwd", BuiltinKind::Pwd),
        ("cd", BuiltinKind::Cd),
        ("jobs", BuiltinKind::Jobs),
        ("fg", BuiltinKind::Fg),
        ("bg", BuiltinKind::Bg),
    ];
    assert_eq!(names.len(), expected.len());
    for ((name, kind), (en, ek)) in names.iter().zip(expected.iter()) {
        assert_eq!(name, en);
        assert_eq!(kind, ek);
    }
}
