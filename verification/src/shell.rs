//! The state of a shell session: its current directory, environment,
//! built-in commands, last status and exit request.

use vstd::prelude::*;

use crate::external::{candidates, first_accepted_spec, join, join_path, CommandLoader};
use crate::text::push_str;

verus! {

/// The built-in commands.
#[derive(Debug, Clone, Copy, PartialEq, Eq, Structural)]
pub enum BuiltinKind {
    Exit,
    Echo,
    Type,
    Pwd,
    Cd,
    Jobs,
    Fg,
    Bg,
}

/// What a command name stands for.
#[derive(Debug, Clone, PartialEq, Eq)]
pub enum ResolvedCommand {
    Builtin(BuiltinKind),
    External(String),
}

/// The names of the built-in commands.
pub fn builtins() -> (table: Vec<(String, BuiltinKind)>)
    ensures
        builtins_view(table@) == seq![
            ("exit"@, BuiltinKind::Exit),
            ("echo"@, BuiltinKind::Echo),
            ("type"@, BuiltinKind::Type),
            ("pwd"@, BuiltinKind::Pwd),
            ("cd"@, BuiltinKind::Cd),
            ("jobs"@, BuiltinKind::Jobs),
            ("fg"@, BuiltinKind::Fg),
            ("bg"@, BuiltinKind::Bg),
        ],
{
    let mut table: Vec<(String, BuiltinKind)> = Vec::new();
    table.push(("exit".to_owned(), BuiltinKind::Exit));
    table.push(("echo".to_owned(), BuiltinKind::Echo));
    table.push(("type".to_owned(), BuiltinKind::Type));
    table.push(("pwd".to_owned(), BuiltinKind::Pwd));
    table.push(("cd".to_owned(), BuiltinKind::Cd));
    table.push(("jobs".to_owned(), BuiltinKind::Jobs));
    table.push(("fg".to_owned(), BuiltinKind::Fg));
    table.push(("bg".to_owned(), BuiltinKind::Bg));
    assert(builtins_view(table@) =~= seq![
        ("exit"@, BuiltinKind::Exit),
        ("echo"@, BuiltinKind::Echo),
        ("type"@, BuiltinKind::Type),
        ("pwd"@, BuiltinKind::Pwd),
        ("cd"@, BuiltinKind::Cd),
        ("jobs"@, BuiltinKind::Jobs),
        ("fg"@, BuiltinKind::Fg),
        ("bg"@, BuiltinKind::Bg),
    ]);
    table
}

/// The value bound to `name` in a list of bindings: the last binding of
/// the name wins, as when the list is collected into a map.
pub open spec fn lookup<V>(table: Seq<(Seq<char>, V)>, name: Seq<char>) -> Option<V>
    decreases table.len(),
{
    if table.len() == 0 {
        None
    } else if table.last().0 == name {
        Some(table.last().1)
    } else {
        lookup(table.drop_last(), name)
    }
}

pub open spec fn env_view(env: Seq<(String, String)>) -> Seq<(Seq<char>, Seq<char>)> {
    env.map_values(|e: (String, String)| (e.0@, e.1@))
}

pub open spec fn builtins_view(b: Seq<(String, BuiltinKind)>) -> Seq<(Seq<char>, BuiltinKind)> {
    b.map_values(|e: (String, BuiltinKind)| (e.0@, e.1))
}

/// The executable a resolution found, if any.
pub open spec fn resolved_path(r: Option<ResolvedCommand>) -> Option<Seq<char>> {
    match r {
        Some(ResolvedCommand::External(p)) => Some(p@),
        _ => None,
    }
}

/// A shell session.
pub struct Shell {
    current_dir: String,
    env: Vec<(String, String)>,
    builtin: Vec<(String, BuiltinKind)>,
    command_loader: CommandLoader,
    exit_request: Option<i32>,
    last_status: i32,
}

impl Shell {
    pub closed spec fn cwd(&self) -> Seq<char> {
        self.current_dir@
    }

    pub closed spec fn env_bindings(&self) -> Seq<(Seq<char>, Seq<char>)> {
        env_view(self.env@)
    }

    pub closed spec fn builtin_bindings(&self) -> Seq<(Seq<char>, BuiltinKind)> {
        builtins_view(self.builtin@)
    }

    pub closed spec fn search_paths(&self) -> Seq<Seq<char>> {
        self.command_loader.paths()
    }

    pub closed spec fn exit_request_spec(&self) -> Option<i32> {
        self.exit_request
    }

    pub closed spec fn last_status_spec(&self) -> i32 {
        self.last_status
    }

    /// A session in `current_dir` with environment `env` and the given
    /// built-ins; the search directories come from `PATH`. No exit is
    /// requested and the last status is 0.
    pub fn new(current_dir: String, env: Vec<(String, String)>, builtin: Vec<(String, BuiltinKind)>) -> (s: Shell)
        ensures
            s.cwd() == current_dir@,
            s.env_bindings() == env_view(env@),
            s.builtin_bindings() == builtins_view(builtin@),
            s.search_paths() == match lookup(env_view(env@), seq!['P', 'A', 'T', 'H']) {
                Some(v) => crate::external::split_on(v, ':'),
                None => Seq::<Seq<char>>::empty(),
            },
            s.exit_request_spec() is None,
            s.last_status_spec() == 0,
    {
        let command_loader = {
            let path = lookup_env(&env, "PATH");
            proof {
                reveal_strlit("PATH");
                assert("PATH"@ =~= seq!['P', 'A', 'T', 'H']);
            }
            CommandLoader::new(path)
        };
        Shell { current_dir, env, builtin, command_loader, exit_request: None, last_status: 0 }
    }

    /// The shell's current directory.
    pub fn current_dir(&self) -> (d: &str)
        ensures
            d@ == self.cwd(),
    {
        self.current_dir.as_str()
    }

    /// Changes the shell's current directory.
    pub fn set_current_dir(&mut self, dir: String)
        ensures
            final(self).cwd() == dir@,
            final(self).env_bindings() == old(self).env_bindings(),
            final(self).builtin_bindings() == old(self).builtin_bindings(),
            final(self).search_paths() == old(self).search_paths(),
            final(self).exit_request_spec() == old(self).exit_request_spec(),
            final(self).last_status_spec() == old(self).last_status_spec(),
    {
        self.current_dir = dir;
    }

    /// Records the status of the last command line.
    pub fn set_last_status(&mut self, status: i32)
        ensures
            final(self).last_status_spec() == status,
            final(self).cwd() == old(self).cwd(),
            final(self).env_bindings() == old(self).env_bindings(),
            final(self).builtin_bindings() == old(self).builtin_bindings(),
            final(self).search_paths() == old(self).search_paths(),
            final(self).exit_request_spec() == old(self).exit_request_spec(),
    {
        self.last_status = status;
    }

    /// The status of the last command line.
    pub fn last_status(&self) -> (s: i32)
        ensures
            s == self.last_status_spec(),
    {
        self.last_status
    }

    /// The environment, in the order it was given.
    pub fn environment(&self) -> (env: &Vec<(String, String)>)
        ensures
            env_view(env@) == self.env_bindings(),
    {
        &self.env
    }

    /// The value of an environment variable.
    pub fn env(&self, name: &str) -> (v: Option<&str>)
        ensures
            match v {
                Some(v) => lookup(self.env_bindings(), name@) == Some(v@),
                None => lookup(self.env_bindings(), name@) is None,
            },
    {
        lookup_env(&self.env, name)
    }

    /// Records a request to exit with `code`.
    pub fn request_exit(&mut self, code: i32)
        ensures
            final(self).exit_request_spec() == Some(code),
            final(self).cwd() == old(self).cwd(),
            final(self).env_bindings() == old(self).env_bindings(),
            final(self).builtin_bindings() == old(self).builtin_bindings(),
            final(self).search_paths() == old(self).search_paths(),
            final(self).last_status_spec() == old(self).last_status_spec(),
    {
        self.exit_request = Some(code);
    }

    /// Whether an exit has been requested.
    pub fn exit_requested(&self) -> (b: bool)
        ensures
            b == self.exit_request_spec() is Some,
    {
        self.exit_request.is_some()
    }

    /// The code of the requested exit, if any.
    pub fn exit_code(&self) -> (c: Option<i32>)
        ensures
            c == self.exit_request_spec(),
    {
        self.exit_request
    }

    /// What a command name stands for: a built-in first, else an
    /// executable found through the search directories (see
    /// [`candidates`]), else nothing.
    pub fn resolve_command(&self, name: &str) -> (r: Option<ResolvedCommand>)
        ensures
            match lookup(self.builtin_bindings(), name@) {
                Some(k) => r == Some(ResolvedCommand::Builtin(k)),
                None => match r {
                    Some(ResolvedCommand::External(p)) => candidates(
                        self.search_paths(),
                        name@,
                        self.cwd(),
                    ).contains(p@),
                    Some(ResolvedCommand::Builtin(_)) => false,
                    None => true,
                },
            },
            lookup(self.builtin_bindings(), name@) is None && candidates(self.search_paths(), name@, self.cwd()).len()
                == 0 ==> r is None,
            lookup(self.builtin_bindings(), name@) is None ==> exists|answers: Seq<bool>|
                #[trigger] first_accepted_spec(candidates(self.search_paths(), name@, self.cwd()), answers)
                    == resolved_path(r),
    {
        if let Some(kind) = lookup_builtin(&self.builtin, name) {
            return Some(ResolvedCommand::Builtin(kind));
        }
        let found = self.command_loader.find_executable(name, self.current_dir.as_str());
        let r = match found {
            Some(path) => Some(ResolvedCommand::External(path)),
            None => None,
        };
        proof {
            let cands = candidates(self.search_paths(), name@, self.cwd());
            let w = choose|answers: Seq<bool>|
                #[trigger] first_accepted_spec(cands, answers) == crate::external::opt_str_view(found);
            assert(first_accepted_spec(cands, w) == resolved_path(r));
        }
        r
    }

    /// A copy of the session for a background subshell: same directory,
    /// environment, built-ins and last status, with no exit requested.
    pub fn forked_subshell(&self) -> (s: Shell)
        ensures
            s.cwd() == self.cwd(),
            s.env_bindings() == self.env_bindings(),
            s.builtin_bindings() == self.builtin_bindings(),
            s.search_paths() == self.search_paths(),
            s.exit_request_spec() is None,
            s.last_status_spec() == self.last_status_spec(),
    {
        let mut env: Vec<(String, String)> = Vec::new();
        let mut i: usize = 0;
        while i < self.env.len()
            invariant
                i <= self.env@.len(),
                env_view(env@) == env_view(self.env@.take(i as int)),
            decreases self.env@.len() - i,
        {
            let k = self.env[i].0.clone();
            let v = self.env[i].1.clone();
            env.push((k, v));
            assert(env_view(self.env@.take(i + 1)) =~= env_view(self.env@.take(i as int)).push(
                (self.env@[i as int].0@, self.env@[i as int].1@),
            ));
            assert(env_view(env@) =~= env_view(self.env@.take(i + 1)));
            i = i + 1;
        }
        assert(self.env@.take(i as int) =~= self.env@);
        let mut builtin: Vec<(String, BuiltinKind)> = Vec::new();
        let mut j: usize = 0;
        while j < self.builtin.len()
            invariant
                j <= self.builtin@.len(),
                builtins_view(builtin@) == builtins_view(self.builtin@.take(j as int)),
            decreases self.builtin@.len() - j,
        {
            let k = self.builtin[j].0.clone();
            builtin.push((k, self.builtin[j].1));
            assert(builtins_view(self.builtin@.take(j + 1)) =~= builtins_view(
                self.builtin@.take(j as int),
            ).push((self.builtin@[j as int].0@, self.builtin@[j as int].1)));
            assert(builtins_view(builtin@) =~= builtins_view(self.builtin@.take(j + 1)));
            j = j + 1;
        }
        assert(self.builtin@.take(j as int) =~= self.builtin@);
        let command_loader = self.command_loader.copy();
        Shell {
            current_dir: self.current_dir.clone(),
            env,
            builtin,
            command_loader,
            exit_request: None,
            last_status: self.last_status,
        }
    }
}

/// The value of a variable in an environment list; the last binding wins.
pub fn lookup_env<'a>(env: &'a Vec<(String, String)>, name: &str) -> (v: Option<&'a str>)
    ensures
        match v {
            Some(v) => lookup(env_view(env@), name@) == Some(v@),
            None => lookup(env_view(env@), name@) is None,
        },
{
    let mut i = env.len();
    assert(env_view(env@).take(env@.len() as int) =~= env_view(env@));
    while i > 0
        invariant
            i <= env@.len(),
            lookup(env_view(env@), name@) == lookup(env_view(env@).take(i as int), name@),
        decreases i,
    {
        let t = Ghost(env_view(env@).take(i as int));
        assert(t@.drop_last() =~= env_view(env@).take(i - 1));
        if str_eq(env[i - 1].0.as_str(), name) {
            return Some(env[i - 1].1.as_str());
        }
        i = i - 1;
    }
    None
}

/// The built-in a name is bound to; the last binding wins.
pub fn lookup_builtin(table: &Vec<(String, BuiltinKind)>, name: &str) -> (k: Option<BuiltinKind>)
    ensures
        k == lookup(builtins_view(table@), name@),
{
    let mut i = table.len();
    assert(builtins_view(table@).take(table@.len() as int) =~= builtins_view(table@));
    while i > 0
        invariant
            i <= table@.len(),
            lookup(builtins_view(table@), name@) == lookup(builtins_view(table@).take(i as int), name@),
        decreases i,
    {
        let t = Ghost(builtins_view(table@).take(i as int));
        assert(t@.drop_last() =~= builtins_view(table@).take(i - 1));
        if str_eq(table[i - 1].0.as_str(), name) {
            return Some(table[i - 1].1);
        }
        i = i - 1;
    }
    None
}

/// Whether two strings are equal.
pub fn str_eq(a: &str, b: &str) -> (r: bool)
    ensures
        r == (a@ == b@),
{
    let x = crate::text::chars_of(a);
    let y = crate::text::chars_of(b);
    if x.len() != y.len() {
        return false;
    }
    let mut i: usize = 0;
    while i < x.len()
        invariant
            i <= x@.len(),
            x@.len() == y@.len(),
            x@ == a@,
            y@ == b@,
            forall|k: int| 0 <= k < i ==> x@[k] == y@[k],
        decreases x@.len() - i,
    {
        if x[i] != y[i] {
            return false;
        }
        i = i + 1;
    }
    assert(x@ =~= y@);
    true
}

/// The history file: none when `HISTFILE` is set but empty, the value of
/// `HISTFILE` taken relative to the current directory when set, and
/// `.jsh_history` in the home directory otherwise.
pub open spec fn history_file_spec(
    histfile: Option<Seq<char>>,
    cwd: Seq<char>,
    home: Option<Seq<char>>,
) -> Option<Seq<char>> {
    match histfile {
        Some(p) => if p.len() == 0 {
            None
        } else {
            Some(join_path(cwd, p))
        },
        None => match home {
            Some(h) => Some(join_path(h, seq!['.', 'j', 's', 'h', '_', 'h', 'i', 's', 't', 'o', 'r', 'y'])),
            None => None,
        },
    }
}

/// Where the command history is kept; see [`history_file_spec`].
pub fn history_file_path(histfile: Option<&str>, cwd: &str, home: Option<&str>) -> (r: Option<String>)
    ensures
        crate::expander::opt_string_view(r) == history_file_spec(
            crate::job_control::opt_str_view(histfile),
            cwd@,
            crate::job_control::opt_str_view(home),
        ),
{
    match histfile {
        Some(p) => {
            if p.is_empty() {
                None
            } else {
                Some(join(cwd, p))
            }
        },
        None => match home {
            Some(h) => {
                proof {
                    reveal_strlit(".jsh_history");
                    assert(".jsh_history"@ =~= seq!['.', 'j', 's', 'h', '_', 'h', 'i', 's', 't', 'o', 'r', 'y']);
                }
                Some(join(h, ".jsh_history"))
            },
            None => None,
        },
    }
}

} // verus!
