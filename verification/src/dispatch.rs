//! What a simple command runs once its words are expanded, and how the
//! stages of a pipeline are wired by default.

use vstd::prelude::*;

use crate::external::{candidates, first_accepted_spec};
use crate::shell::{lookup, BuiltinKind, Shell};
use crate::text::push_str;

verus! {

/// The status of a command that was not found.
pub const NOT_FOUND_STATUS: i32 = 127;

/// The status of a command that was found but could not be started.
pub const CANNOT_EXECUTE_STATUS: i32 = 126;

/// What a simple command runs.
#[derive(Debug)]
pub enum CommandAction {
    /// No words: only the redirections take effect, with status 0.
    Nothing,
    /// A built-in, the name it was called by and its arguments.
    Builtin { kind: BuiltinKind, name: String, argv: Vec<String> },
    /// An executable, the name it was called by and its arguments.
    External { path: String, name: String, argv: Vec<String> },
    /// No such command: the diagnostic for standard error, and status
    /// [`NOT_FOUND_STATUS`].
    NotFound { message: String },
}

pub open spec fn strings_view(v: Seq<String>) -> Seq<Seq<char>> {
    v.map_values(|s: String| s@)
}

/// The executable an action runs, if any.
pub open spec fn action_path(a: CommandAction) -> Option<Seq<char>> {
    match a {
        CommandAction::External { path, .. } => Some(path@),
        _ => None,
    }
}

/// Decides what the expanded words of a command run: the first word names
/// a built-in, else an executable found through the search directories,
/// else nothing is found; the other words are the arguments.
pub fn dispatch(shell: &Shell, args: Vec<String>) -> (a: CommandAction)
    ensures
        args@.len() == 0 ==> a is Nothing,
        args@.len() > 0 ==> {
            let name = args@[0]@;
            let rest = strings_view(args@).drop_first();
            match lookup(shell.builtin_bindings(), name) {
                Some(k) => a matches CommandAction::Builtin { kind, name: n, argv } && kind == k
                    && n@ == name && strings_view(argv@) == rest,
                None => {
                    ||| a matches CommandAction::External { path, name: n, argv } && n@ == name
                        && strings_view(argv@) == rest && candidates(
                        shell.search_paths(),
                        name,
                        shell.cwd(),
                    ).contains(path@)
                    ||| a matches CommandAction::NotFound { message } && message@ == name
                        + ": not found\n"@
                },
            }
        },
        args@.len() > 0 && lookup(shell.builtin_bindings(), args@[0]@) is None && candidates(
            shell.search_paths(),
            args@[0]@,
            shell.cwd(),
        ).len() == 0 ==> a is NotFound,
        args@.len() > 0 && lookup(shell.builtin_bindings(), args@[0]@) is None ==> exists|answers: Seq<bool>|
            #[trigger] first_accepted_spec(candidates(shell.search_paths(), args@[0]@, shell.cwd()), answers)
                == action_path(a),
{
    if args.len() == 0 {
        return CommandAction::Nothing;
    }
    let ghost whole = strings_view(args@);
    let mut argv = args;
    let name = argv.remove(0);
    assert(strings_view(argv@) =~= whole.drop_first());
    let resolved = shell.resolve_command(name.as_str());
    proof {
        if lookup(shell.builtin_bindings(), name@) is None {
            let cands = candidates(shell.search_paths(), name@, shell.cwd());
            let w = choose|answers: Seq<bool>|
                #[trigger] first_accepted_spec(cands, answers) == crate::shell::resolved_path(resolved);
            assert(first_accepted_spec(cands, w) == crate::shell::resolved_path(resolved));
        }
    }
    match resolved {
        Some(crate::shell::ResolvedCommand::Builtin(kind)) => CommandAction::Builtin { kind, name, argv },
        Some(crate::shell::ResolvedCommand::External(path)) => CommandAction::External {
            path,
            name,
            argv,
        },
        None => {
            let mut message = String::new();
            push_str(&mut message, name.as_str());
            push_str(&mut message, ": not found\n");
            CommandAction::NotFound { message }
        },
    }
}

/// The default wiring of stage `index` of a pipeline of `count` stages:
/// whether its input comes from the pipe of the stage before, and whether
/// its output goes into a pipe to the stage after. The stage's own
/// redirections are applied on top of this.
pub fn stage_pipes(index: usize, count: usize) -> (r: (bool, bool))
    requires
        index < count,
    ensures
        r.0 == (index > 0),
        r.1 == (index + 1 < count),
{
    (index > 0, index + 1 < count)
}

} // verus!
