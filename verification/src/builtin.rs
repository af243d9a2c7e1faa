//! The logic of the built-in commands. Writing their output is left to the
//! caller; these functions decide what is written, what the session becomes
//! and which status results.

use vstd::prelude::*;

use crate::shell::Shell;
use crate::text::push_str;

verus! {

/// `std::io::Error`, declared so that a built-in whose output could not be
/// written can carry it; nothing inside it is visible here.
#[verifier::external_type_specification]
#[verifier::external_body]
pub struct ExIoError(std::io::Error);

/// The failure of a built-in.
#[derive(Debug)]
pub enum BuiltinError {
    /// A failure with its status and its diagnostic.
    Failure { status: i32, message: String },
    /// Writing output failed.
    Io(std::io::Error),
}

/// The result of a built-in: its status, or its failure.
pub type BuiltinOutput = Result<i32, BuiltinError>;

/// The failure is `Failure` with this status and message.
pub open spec fn is_failure(e: BuiltinError, status: i32, message: Seq<char>) -> bool {
    e matches BuiltinError::Failure { status: s, message: m } && s == status && m@ == message
}

impl BuiltinError {
    /// A failure with a status and a diagnostic.
    pub fn new(status: i32, message: String) -> (e: BuiltinError)
        ensures
            is_failure(e, status, message@),
    {
        BuiltinError::Failure { status, message }
    }

    /// The status of the failure: its own for a failure, 1 for an I/O error.
    pub fn status(&self) -> (s: i32)
        ensures
            s == match self {
                BuiltinError::Failure { status, .. } => *status,
                BuiltinError::Io(_) => 1,
            },
    {
        match self {
            BuiltinError::Failure { status, .. } => *status,
            BuiltinError::Io(_) => 1,
        }
    }
}

/// What a built-in writes and the status it returns.
#[derive(Debug, Clone, PartialEq, Eq)]
pub struct BuiltinReport {
    pub stdout: String,
    pub stderr: String,
    pub status: i32,
}

fn concat3(a: &str, b: &str, c: &str) -> (s: String)
    ensures
        s@ == a@ + b@ + c@,
{
    let mut s = String::new();
    push_str(&mut s, a);
    push_str(&mut s, b);
    push_str(&mut s, c);
    s
}

fn concat2(a: &str, b: &str) -> (s: String)
    ensures
        s@ == a@ + b@,
{
    let mut s = String::new();
    push_str(&mut s, a);
    push_str(&mut s, b);
    s
}

fn failure(message: &str) -> (e: BuiltinError)
    ensures
        is_failure(e, 1, message@),
{
    let mut m = String::new();
    push_str(&mut m, message);
    BuiltinError::new(1, m)
}

/// `exit`: requests the session to end with status 0. The arguments are
/// ignored, and the status of the built-in is always 0.
pub fn exit(shell: &mut Shell, argv: &Vec<String>) -> (r: BuiltinOutput)
    ensures
        r matches Ok(0i32),
        final(shell).exit_request_spec() == Some(0i32),
        final(shell).cwd() == old(shell).cwd(),
        final(shell).env_bindings() == old(shell).env_bindings(),
        final(shell).builtin_bindings() == old(shell).builtin_bindings(),
        final(shell).search_paths() == old(shell).search_paths(),
        final(shell).last_status_spec() == old(shell).last_status_spec(),
{
    shell.request_exit(0);
    Ok(0)
}

/// The arguments joined by single spaces.
pub open spec fn joined(args: Seq<Seq<char>>) -> Seq<char>
    decreases args.len(),
{
    if args.len() == 0 {
        seq![]
    } else if args.len() == 1 {
        args[0]
    } else {
        joined(args.drop_last()) + seq![' '] + args.last()
    }
}

/// What `echo` writes: its arguments joined by single spaces, then a
/// newline.
pub fn echo(argv: &Vec<String>) -> (out: String)
    ensures
        out@ == joined(argv@.map_values(|a: String| a@)) + seq!['\n'],
{
    let ghost args = argv@.map_values(|a: String| a@);
    let mut out = String::new();
    let mut i: usize = 0;
    while i < argv.len()
        invariant
            i <= argv@.len(),
            args == argv@.map_values(|a: String| a@),
            out@ == joined(args.take(i as int)),
        decreases argv@.len() - i,
    {
        let ghost t = args.take(i + 1);
        assert(t.drop_last() =~= args.take(i as int));
        assert(t.last() == argv@[i as int]@);
        if i > 0 {
            out.push(' ');
        } else {
            assert(t =~= seq![argv@[0]@]);
        }
        push_str(&mut out, argv[i].as_str());
        i = i + 1;
    }
    assert(args.take(i as int) =~= args);
    out.push('\n');
    out
}

/// What `pwd` writes: the shell's current directory and a newline.
pub fn pwd(shell: &Shell) -> (out: String)
    ensures
        out@ == shell.cwd() + seq!['\n'],
{
    let mut out = String::new();
    push_str(&mut out, shell.current_dir());
    out.push('\n');
    out
}

/// The directory `cd dir` moves to before it is checked: `dir` taken
/// relative to the current directory.
pub fn cd(shell: &Shell, argv: &Vec<String>) -> (r: Result<String, BuiltinError>)
    ensures
        argv@.len() == 1 ==> (r matches Ok(d) && d@ == crate::external::join_path(shell.cwd(), argv@[0]@)),
        argv@.len() == 0 ==> (r matches Err(e) && is_failure(e, 1, "cd: missing operand"@)),
        argv@.len() > 1 ==> (r matches Err(e) && is_failure(e, 1, "cd: too many arguments"@)),
{
    if argv.len() == 1 {
        Ok(crate::external::join(shell.current_dir(), argv[0].as_str()))
    } else if argv.len() == 0 {
        Err(failure("cd: missing operand"))
    } else {
        Err(failure("cd: too many arguments"))
    }
}

/// The failure of `cd` when its target, resolved by the file system, is
/// missing (`found` false) or is not a directory.
pub fn cd_failure(target: &str, found: bool) -> (e: BuiltinError)
    ensures
        found ==> is_failure(e, 1, "cd: "@ + target@ + ": Not a directory"@),
        !found ==> is_failure(e, 1, "cd: "@ + target@ + ": No such file or directory"@),
{
    if found {
        BuiltinError::new(1, concat3("cd: ", target, ": Not a directory"))
    } else {
        BuiltinError::new(1, concat3("cd: ", target, ": No such file or directory"))
    }
}

/// The report of `type` for a name that is no built-in, given where the
/// lookup found it: ` is ` and the path, or `: not found` with status 1.
pub open spec fn type_report_for(rep: BuiltinReport, name: Seq<char>, found: Option<Seq<char>>) -> bool {
    match found {
        Some(p) => rep.status == 0 && rep.stderr@.len() == 0 && rep.stdout@ == name + " is "@ + p + "\n"@,
        None => rep.status == 1 && rep.stdout@.len() == 0 && rep.stderr@ == name + ": not found\n"@,
    }
}

/// The report of `type name`: how the name resolves.
pub fn type_command(shell: &Shell, argv: &Vec<String>) -> (r: Result<BuiltinReport, BuiltinError>)
    ensures
        argv@.len() == 1 ==> r is Ok,
        argv@.len() == 1 ==> match crate::shell::lookup(shell.builtin_bindings(), argv@[0]@) {
            Some(_) => r matches Ok(rep) && rep.status == 0 && rep.stdout@ == argv@[0]@
                + " is a shell builtin\n"@ && rep.stderr@.len() == 0,
            None => r matches Ok(rep) && exists|answers: Seq<bool>|
                type_report_for(
                    rep,
                    argv@[0]@,
                    #[trigger] crate::external::first_accepted_spec(
                        crate::external::candidates(shell.search_paths(), argv@[0]@, shell.cwd()),
                        answers,
                    ),
                ),
        },
        argv@.len() == 0 ==> (r matches Err(e) && is_failure(e, 1, "type: missing operand"@)),
        argv@.len() > 1 ==> (r matches Err(e) && is_failure(e, 1, "type: too many arguments"@)),
{
    if argv.len() == 1 {
        let name = argv[0].as_str();
        let resolved = shell.resolve_command(name);
        let ghost cands = crate::external::candidates(shell.search_paths(), name@, shell.cwd());
        let ghost w = choose|answers: Seq<bool>|
            #[trigger] crate::external::first_accepted_spec(cands, answers) == crate::shell::resolved_path(resolved);
        match resolved {
            Some(crate::shell::ResolvedCommand::Builtin(_)) => {
                Ok(BuiltinReport {
                    stdout: concat2(name, " is a shell builtin\n"),
                    stderr: String::new(),
                    status: 0,
                })
            },
            Some(crate::shell::ResolvedCommand::External(path)) => {
                let mut stdout = concat3(name, " is ", path.as_str());
                push_str(&mut stdout, "\n");
                Ok(BuiltinReport { stdout, stderr: String::new(), status: 0 })
            },
            None => Ok(BuiltinReport {
                stdout: String::new(),
                stderr: concat2(name, ": not found\n"),
                status: 1,
            }),
        }
    } else if argv.len() == 0 {
        Err(failure("type: missing operand"))
    } else {
        Err(failure("type: too many arguments"))
    }
}

/// The job specification given to `fg` or `bg`: none, or the single
/// argument; more is refused with `<name>: too many arguments`.
pub fn job_argument(name: &str, argv: &Vec<String>) -> (r: Result<Option<String>, BuiltinError>)
    ensures
        argv@.len() == 0 ==> (r matches Ok(None)),
        argv@.len() == 1 ==> (r matches Ok(Some(a)) && a@ == argv@[0]@),
        argv@.len() > 1 ==> (r matches Err(e) && is_failure(e, 1, name@ + ": too many arguments"@)),
{
    if argv.len() == 0 {
        Ok(None)
    } else if argv.len() == 1 {
        Ok(Some(argv[0].clone()))
    } else {
        Err(BuiltinError::new(1, concat2(name, ": too many arguments")))
    }
}

/// `jobs` takes no argument.
pub fn jobs_arguments(argv: &Vec<String>) -> (r: Result<(), BuiltinError>)
    ensures
        argv@.len() == 0 ==> r is Ok,
        argv@.len() > 0 ==> (r matches Err(e) && is_failure(e, 1, "jobs: too many arguments"@)),
{
    if argv.len() == 0 {
        Ok(())
    } else {
        Err(failure("jobs: too many arguments"))
    }
}

/// The diagnostic of a failed built-in prefixed by its name, as `fg` and
/// `bg` report job errors: `<name>: <message>`.
pub fn prefixed_failure(name: &str, message: &str) -> (e: BuiltinError)
    ensures
        is_failure(e, 1, name@ + ": "@ + message@),
{
    BuiltinError::new(1, concat3(name, ": ", message))
}

/// How a command line failed, by stage.
#[derive(Debug, Clone, Copy, PartialEq, Eq, Structural)]
pub enum EvalStage {
    Lexer,
    Parser,
    Executor,
}

/// The status of a command line that failed: 1 for lexing, 2 for parsing,
/// 3 for execution.
pub fn eval_failure_status(stage: EvalStage) -> (s: i32)
    ensures
        s == match stage {
            EvalStage::Lexer => 1i32,
            EvalStage::Parser => 2i32,
            EvalStage::Executor => 3i32,
        },
{
    match stage {
        EvalStage::Executor => 3,
        EvalStage::Parser => 2,
        EvalStage::Lexer => 1,
    }
}

} // verus!
