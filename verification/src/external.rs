//! Finding external commands: paths are joined against the shell's own
//! current directory, never the process's.

use vstd::prelude::*;

use crate::text::{chars_of, push_str};

verus! {

/// `is_executable::is_executable` tells whether `path` names a regular file
/// with an execute permission bit set. The answer depends on the file
/// system at the moment of the call, so nothing is stated of it.
#[verifier::external_body]
fn path_is_executable(path: &str) -> bool {
    is_executable::is_executable(path)
}

/// `base` joined with `path` as `Path::join` does on Unix: an absolute
/// `path` replaces `base`; otherwise a `/` separates them unless `base` is
/// empty or already ends with one.
pub open spec fn join_path(base: Seq<char>, path: Seq<char>) -> Seq<char> {
    if path.len() > 0 && path[0] == '/' {
        path
    } else if base.len() == 0 || base.last() == '/' {
        base + path
    } else {
        base + seq!['/'] + path
    }
}

/// Joins two paths; see [`join_path`].
pub fn join(base: &str, path: &str) -> (r: String)
    ensures
        r@ == join_path(base@, path@),
{
    let p = chars_of(path);
    if p.len() > 0 && p[0] == '/' {
        let mut r = String::new();
        push_str(&mut r, path);
        return r;
    }
    let b = chars_of(base);
    let mut r = String::new();
    push_str(&mut r, base);
    if b.len() > 0 && b[b.len() - 1] != '/' {
        r.push('/');
    }
    push_str(&mut r, path);
    r
}

/// Whether `s` holds the character `c`.
pub fn contains_char(s: &str, c: char) -> (b: bool)
    ensures
        b == s@.contains(c),
{
    let cs = chars_of(s);
    let mut i: usize = 0;
    while i < cs.len()
        invariant
            i <= cs@.len(),
            cs@ == s@,
            forall|k: int| 0 <= k < i ==> cs@[k] != c,
        decreases cs@.len() - i,
    {
        if cs[i] == c {
            return true;
        }
        i = i + 1;
    }
    false
}

/// The pieces of `s` between the occurrences of `sep`.
pub open spec fn split_on(s: Seq<char>, sep: char) -> Seq<Seq<char>>
    decreases s.len(),
{
    if s.len() == 0 {
        seq![seq![]]
    } else {
        let rest = split_on(s.drop_last(), sep);
        if s.last() == sep {
            rest.push(seq![])
        } else {
            rest.update(rest.len() - 1, rest.last().push(s.last()))
        }
    }
}

pub proof fn lemma_split_on_nonempty(s: Seq<char>, sep: char)
    ensures
        split_on(s, sep).len() >= 1,
    decreases s.len(),
{
    if s.len() > 0 {
        lemma_split_on_nonempty(s.drop_last(), sep);
    }
}

/// The places where `cmd` is looked for, in order: a name holding a `/` is
/// only looked for relative to `cwd`; any other name in each search
/// directory, itself taken relative to `cwd`.
pub open spec fn candidates(paths: Seq<Seq<char>>, cmd: Seq<char>, cwd: Seq<char>) -> Seq<Seq<char>> {
    if cmd.contains('/') {
        seq![join_path(cwd, cmd)]
    } else {
        paths.map_values(|p: Seq<char>| join_path(join_path(cwd, p), cmd))
    }
}

/// Looks commands up in the directories of `PATH`.
pub struct CommandLoader {
    paths: Vec<String>,
}

impl CommandLoader {
    /// The search directories, in order.
    pub closed spec fn paths(&self) -> Seq<Seq<char>> {
        self.paths@.map_values(|p: String| p@)
    }

    /// A loader searching the directories of a `PATH` value, split at `:`
    /// as `std::env::split_paths` does on Unix; no value means no directory.
    pub fn new(path_var: Option<&str>) -> (l: CommandLoader)
        ensures
            l.paths() == match path_var {
                Some(v) => split_on(v@, ':'),
                None => Seq::<Seq<char>>::empty(),
            },
    {
        let mut paths: Vec<String> = Vec::new();
        match path_var {
            Some(v) => {
                let cs = chars_of(v);
                let mut current = String::new();
                let mut i: usize = 0;
                assert(cs@.take(0) =~= Seq::<char>::empty());
                assert(paths@.map_values(|p: String| p@).push(current@) =~= split_on(cs@.take(0), ':'));
                while i < cs.len()
                    invariant
                        i <= cs@.len(),
                        cs@ == v@,
                        paths@.map_values(|p: String| p@).push(current@) == split_on(cs@.take(i as int), ':'),
                    decreases cs@.len() - i,
                {
                    let ghost before = paths@.map_values(|p: String| p@);
                    let ghost cur = current@;
                    let ghost t = cs@.take(i + 1);
                    assert(t.drop_last() =~= cs@.take(i as int));
                    assert(t.last() == cs@[i as int]);
                    if cs[i] == ':' {
                        let mut done = String::new();
                        core::mem::swap(&mut done, &mut current);
                        paths.push(done);
                        assert(paths@.map_values(|p: String| p@) =~= before.push(cur));
                        assert(paths@.map_values(|p: String| p@).push(current@) =~= split_on(t, ':'));
                    } else {
                        current.push(cs[i]);
                        assert(paths@.map_values(|p: String| p@).push(current@) =~= split_on(t, ':'));
                    }
                    i = i + 1;
                }
                assert(cs@.take(i as int) =~= cs@);
                let ghost before = paths@.map_values(|p: String| p@);
                paths.push(current);
                assert(paths@.map_values(|p: String| p@) =~= before.push(current@));
            },
            None => {
                assert(paths@.map_values(|p: String| p@) =~= Seq::<Seq<char>>::empty());
            },
        }
        CommandLoader { paths }
    }

    /// A loader with the same search directories.
    pub fn copy(&self) -> (l: CommandLoader)
        ensures
            l.paths() == self.paths(),
    {
        let mut paths: Vec<String> = Vec::new();
        let mut i: usize = 0;
        while i < self.paths.len()
            invariant
                i <= self.paths@.len(),
                paths@.len() == i,
                forall|j: int| 0 <= j < i ==> #[trigger] paths@[j]@ == self.paths@[j]@,
            decreases self.paths@.len() - i,
        {
            let s = self.paths[i].clone();
            paths.push(s);
            i = i + 1;
        }
        let l = CommandLoader { paths };
        assert(l.paths() =~= self.paths());
        l
    }

    /// The places where `cmd` is looked for, in order; see [`candidates`].
    pub fn candidate_paths(&self, cmd: &str, cwd: &str) -> (r: Vec<String>)
        ensures
            strings_view(r@) == candidates(self.paths(), cmd@, cwd@),
    {
        let mut r: Vec<String> = Vec::new();
        if contains_char(cmd, '/') {
            r.push(join(cwd, cmd));
            assert(strings_view(r@) =~= candidates(self.paths(), cmd@, cwd@));
            return r;
        }
        let ghost all = candidates(self.paths(), cmd@, cwd@);
        let mut i: usize = 0;
        while i < self.paths.len()
            invariant
                i <= self.paths@.len(),
                !cmd@.contains('/'),
                all == candidates(self.paths(), cmd@, cwd@),
                r@.len() == i,
                forall|k: int| 0 <= k < i ==> #[trigger] r@[k]@ == all[k],
            decreases self.paths@.len() - i,
        {
            let dir = join(cwd, self.paths[i].as_str());
            r.push(join(dir.as_str(), cmd));
            i = i + 1;
        }
        assert(strings_view(r@) =~= all);
        r
    }

    /// The first candidate place (see [`candidates`]) that holds an
    /// executable file. Which places hold one depends on the file system, so
    /// the result is the first place accepted for some answers of the
    /// check, which makes it one of the candidates.
    pub fn find_executable(&self, cmd: &str, cwd: &str) -> (r: Option<String>)
        ensures
            r matches Some(p) ==> candidates(self.paths(), cmd@, cwd@).contains(p@),
            candidates(self.paths(), cmd@, cwd@).len() == 0 ==> r is None,
            exists|answers: Seq<bool>|
                #[trigger] first_accepted_spec(candidates(self.paths(), cmd@, cwd@), answers) == opt_str_view(r),
    {
        let places = self.candidate_paths(cmd, cwd);
        let mut accepted: Vec<bool> = Vec::new();
        let mut found = false;
        while !found && accepted.len() < places.len()
            invariant
                accepted@.len() <= places@.len(),
            decreases places@.len() - accepted@.len(),
        {
            let ok = path_is_executable(places[accepted.len()].as_str());
            accepted.push(ok);
            found = ok;
        }
        let r = first_accepted(&places, &accepted);
        proof {
            lemma_first_accepted_contains(strings_view(places@), accepted@);
            assert(first_accepted_spec(candidates(self.paths(), cmd@, cwd@), accepted@) == opt_str_view(r));
        }
        r
    }
}

pub open spec fn strings_view(v: Seq<String>) -> Seq<Seq<char>> {
    v.map_values(|s: String| s@)
}

/// The first place whose check said yes: `accepted[k]` is the answer of
/// the check of `places[k]`, for the places checked so far.
pub open spec fn first_accepted_spec(places: Seq<Seq<char>>, accepted: Seq<bool>) -> Option<Seq<char>>
    decreases places.len(),
{
    if places.len() == 0 || accepted.len() == 0 {
        None
    } else if accepted[0] {
        Some(places[0])
    } else {
        first_accepted_spec(places.drop_first(), accepted.drop_first())
    }
}

pub proof fn lemma_first_accepted_contains(places: Seq<Seq<char>>, accepted: Seq<bool>)
    ensures
        first_accepted_spec(places, accepted) matches Some(p) ==> places.contains(p),
    decreases places.len(),
{
    if places.len() > 0 && accepted.len() > 0 {
        if accepted[0] {
            assert(places[0] == places[0]);
        } else {
            lemma_first_accepted_contains(places.drop_first(), accepted.drop_first());
            if let Some(p) = first_accepted_spec(places.drop_first(), accepted.drop_first()) {
                let k = choose|k: int| 0 <= k < places.drop_first().len() && places.drop_first()[k] == p;
                assert(places[k + 1] == p);
            }
        }
    }
}

/// Given the answers of the executable check for the first places, in
/// order, the first place whose answer is yes; see [`first_accepted_spec`].
pub fn first_accepted(places: &Vec<String>, accepted: &Vec<bool>) -> (r: Option<String>)
    ensures
        opt_str_view(r) == first_accepted_spec(strings_view(places@), accepted@),
{
    let ghost goal = first_accepted_spec(strings_view(places@), accepted@);
    let mut i: usize = 0;
    assert(strings_view(places@).skip(0) =~= strings_view(places@));
    assert(accepted@.skip(0) =~= accepted@);
    while i < places.len() && i < accepted.len()
        invariant
            i <= places@.len(),
            i <= accepted@.len(),
            goal == first_accepted_spec(strings_view(places@), accepted@),
            goal == first_accepted_spec(strings_view(places@).skip(i as int), accepted@.skip(i as int)),
        decreases places@.len() - i,
    {
        assert(strings_view(places@).skip(i as int).drop_first() =~= strings_view(places@).skip(i + 1));
        assert(accepted@.skip(i as int).drop_first() =~= accepted@.skip(i + 1));
        if accepted[i] {
            return Some(places[i].clone());
        }
        i = i + 1;
    }
    assert(strings_view(places@).skip(i as int).len() == 0 || accepted@.skip(i as int).len() == 0);
    None
}

pub open spec fn opt_str_view(s: Option<String>) -> Option<Seq<char>> {
    match s {
        Some(s) => Some(s@),
        None => None,
    }
}

} // verus!
