//! Word expansion: quote removal and tilde expansion of command words and
//! redirection operands.

use vstd::prelude::*;

use crate::parser::{Command, CommandV, RedirV, Redirection};
use crate::text::{chars_of, parse_u32, parse_u32_spec, push_str};
use crate::token::{PartV, RedirectOperator, Word, WordPart};

verus! {

/// The operand of a redirection after expansion.
#[derive(Debug, PartialEq, Eq, Clone)]
pub enum ExpandedRedirectOperand {
    /// A file descriptor, for `>&` and `<&`.
    Fd(u32),
    /// A path, for `<`, `>` and `>>`.
    Path(String),
}

/// The value of an [`ExpandedRedirectOperand`].
pub enum OperandV {
    Fd(u32),
    Path(Seq<char>),
}

impl View for ExpandedRedirectOperand {
    type V = OperandV;

    open spec fn view(&self) -> OperandV {
        match self {
            ExpandedRedirectOperand::Fd(n) => OperandV::Fd(*n),
            ExpandedRedirectOperand::Path(p) => OperandV::Path(p@),
        }
    }
}

/// A redirection after expansion.
#[derive(Debug, PartialEq, Eq, Clone)]
pub struct ExpandedRedirection {
    pub redirected_fd: i32,
    pub operator: RedirectOperator,
    pub operand: ExpandedRedirectOperand,
}

/// The value of an [`ExpandedRedirection`].
pub struct ExpRedirV {
    pub fd: i32,
    pub op: RedirectOperator,
    pub operand: OperandV,
}

impl View for ExpandedRedirection {
    type V = ExpRedirV;

    open spec fn view(&self) -> ExpRedirV {
        ExpRedirV { fd: self.redirected_fd, op: self.operator, operand: self.operand@ }
    }
}

/// A command after expansion.
#[derive(Debug, PartialEq, Eq, Clone)]
pub struct ExpandedCommand {
    pub args: Vec<String>,
    pub redirections: Vec<ExpandedRedirection>,
}

/// The value of an [`ExpandedCommand`].
pub struct ExpCommandV {
    pub args: Seq<Seq<char>>,
    pub redirections: Seq<ExpRedirV>,
}

pub open spec fn strings_view(s: Seq<String>) -> Seq<Seq<char>> {
    s.map_values(|x: String| x@)
}

pub open spec fn exp_redirections_view(s: Seq<ExpandedRedirection>) -> Seq<ExpRedirV> {
    s.map_values(|x: ExpandedRedirection| x@)
}

impl View for ExpandedCommand {
    type V = ExpCommandV;

    open spec fn view(&self) -> ExpCommandV {
        ExpCommandV {
            args: strings_view(self.args@),
            redirections: exp_redirections_view(self.redirections@),
        }
    }
}

/// Errors of expansion.
#[derive(Debug, PartialEq, Eq)]
pub enum ExpanderError {
    /// A word starts with a tilde but the home directory is unknown.
    CouldNotExpandTilde,
    /// The operand of `>&` or `<&` is not a file descriptor number.
    InvalidFileDescriptor(String),
}

/// The value of an [`ExpanderError`].
pub enum ExpErr {
    CouldNotExpandTilde,
    InvalidFileDescriptor(Seq<char>),
}

impl View for ExpanderError {
    type V = ExpErr;

    open spec fn view(&self) -> ExpErr {
        match self {
            ExpanderError::CouldNotExpandTilde => ExpErr::CouldNotExpandTilde,
            ExpanderError::InvalidFileDescriptor(s) => ExpErr::InvalidFileDescriptor(s@),
        }
    }
}

// ---------------------------------------------------------------------------
// The meaning of expansion
// ---------------------------------------------------------------------------

/// Unquoted text that is `~` alone or starts with `~/`.
pub open spec fn is_tilde_prefix(s: Seq<char>) -> bool {
    ||| s == seq!['~']
    ||| (s.len() >= 2 && s[0] == '~' && s[1] == '/')
}

/// The part is subject to tilde expansion when it comes first.
pub open spec fn is_tilde_part(p: PartV) -> bool {
    p matches PartV::Unquoted(s) && is_tilde_prefix(s)
}

/// The text of a part once quotes are removed.
pub open spec fn part_text(p: PartV) -> Seq<char> {
    match p {
        PartV::SingleQuoted(s) => s,
        PartV::DoubleQuoted(s) => s,
        PartV::Unquoted(s) => s,
        PartV::Escaped(c) => seq![c],
    }
}

/// The concatenated text of the parts of a word.
pub open spec fn parts_text(parts: Seq<PartV>) -> Seq<char>
    decreases parts.len(),
{
    if parts.len() == 0 {
        seq![]
    } else {
        parts_text(parts.drop_last()) + part_text(parts.last())
    }
}

/// The expansion of a word: its parts' texts in order, where a first part
/// that is unquoted and reads `~` or `~/...` has its tilde replaced by the
/// home directory. Without a home directory such a word cannot expand.
pub open spec fn expand_word_spec(parts: Seq<PartV>, home: Option<Seq<char>>) -> Result<Seq<char>, ExpErr> {
    if parts.len() > 0 && is_tilde_part(parts[0]) {
        match home {
            Some(h) => Ok(h + part_text(parts[0]).drop_first() + parts_text(parts.drop_first())),
            None => Err(ExpErr::CouldNotExpandTilde),
        }
    } else {
        Ok(parts_text(parts))
    }
}

/// The expansions of a list of words; the first failure stops it.
pub open spec fn expand_words_spec(ws: Seq<Seq<PartV>>, home: Option<Seq<char>>) -> Result<Seq<Seq<char>>, ExpErr>
    decreases ws.len(),
{
    if ws.len() == 0 {
        Ok(seq![])
    } else {
        match expand_words_spec(ws.drop_last(), home) {
            Ok(prev) => match expand_word_spec(ws.last(), home) {
                Ok(s) => Ok(prev.push(s)),
                Err(e) => Err(e),
            },
            Err(e) => Err(e),
        }
    }
}

/// The expansion of one redirection: the operand of `>&` and `<&` must read
/// as a `u32` descriptor, that of the other operators is a path.
pub open spec fn expand_redirection_spec(r: RedirV, home: Option<Seq<char>>) -> Result<ExpRedirV, ExpErr> {
    match expand_word_spec(r.operand, home) {
        Ok(text) => match r.op {
            RedirectOperator::DuplicateInput | RedirectOperator::DuplicateOutput => match parse_u32_spec(text) {
                Some(fd) => Ok(ExpRedirV { fd: r.fd, op: r.op, operand: OperandV::Fd(fd) }),
                None => Err(ExpErr::InvalidFileDescriptor(text)),
            },
            _ => Ok(ExpRedirV { fd: r.fd, op: r.op, operand: OperandV::Path(text) }),
        },
        Err(e) => Err(e),
    }
}

/// The expansions of a list of redirections; the first failure stops it.
pub open spec fn expand_redirections_spec(rs: Seq<RedirV>, home: Option<Seq<char>>) -> Result<Seq<ExpRedirV>, ExpErr>
    decreases rs.len(),
{
    if rs.len() == 0 {
        Ok(seq![])
    } else {
        match expand_redirections_spec(rs.drop_last(), home) {
            Ok(prev) => match expand_redirection_spec(rs.last(), home) {
                Ok(r) => Ok(prev.push(r)),
                Err(e) => Err(e),
            },
            Err(e) => Err(e),
        }
    }
}

/// The expansion of a command: its words first, then its redirections.
pub open spec fn expand_command_spec(c: CommandV, home: Option<Seq<char>>) -> Result<ExpCommandV, ExpErr> {
    match expand_words_spec(c.args, home) {
        Ok(args) => match expand_redirections_spec(c.redirections, home) {
            Ok(rs) => Ok(ExpCommandV { args, redirections: rs }),
            Err(e) => Err(e),
        },
        Err(e) => Err(e),
    }
}

pub open spec fn opt_string_view(s: Option<String>) -> Option<Seq<char>> {
    match s {
        Some(s) => Some(s@),
        None => None,
    }
}

/// Expands words against a home directory.
pub struct Expander {
    home: Option<String>,
}

impl Expander {
    /// The home directory used for tilde expansion, if known.
    pub closed spec fn home(&self) -> Option<Seq<char>> {
        opt_string_view(self.home)
    }

    /// An expander that replaces a leading tilde by `home_dir`.
    pub fn new(home_dir: Option<String>) -> (e: Expander)
        ensures
            e.home() == opt_string_view(home_dir),
    {
        Expander { home: home_dir }
    }

    /// Expands the words and then the redirection operands of a command.
    pub fn expand_command(self, command: Command) -> (r: Result<ExpandedCommand, ExpanderError>)
        ensures
            match (r, expand_command_spec(command@, self.home())) {
                (Ok(c), Ok(cv)) => c@ == cv,
                (Err(e), Err(ev)) => e@ == ev,
                _ => false,
            },
    {
        let mut args: Vec<String> = Vec::new();
        let mut i: usize = 0;
        assert(command@.args.take(0) =~= Seq::<Seq<PartV>>::empty());
        assert(strings_view(args@) =~= Seq::<Seq<char>>::empty());
        while i < command.args.len()
            invariant
                i <= command.args@.len(),
                expand_words_spec(command@.args.take(i as int), self.home()) == Ok::<Seq<Seq<char>>, ExpErr>(
                    strings_view(args@),
                ),
            decreases command.args@.len() - i,
        {
            let ghost prefix = command@.args.take(i as int);
            assert(command@.args.take(i + 1).drop_last() == prefix);
            assert(command@.args.take(i + 1).last() == command.args@[i as int]@);
            let s = match self.expand_word_ref(&command.args[i]) {
                Ok(s) => s,
                Err(e) => {
                    proof {
                        lemma_words_error_propagates(command@.args, i + 1, self.home());
                    }
                    return Err(e);
                },
            };
            let ghost before = args@;
            args.push(s);
            assert(strings_view(args@) =~= strings_view(before).push(s@));
            i = i + 1;
        }
        assert(command@.args.take(i as int) == command@.args);
        let mut redirections: Vec<ExpandedRedirection> = Vec::new();
        let mut k: usize = 0;
        assert(command@.redirections.take(0) =~= Seq::<RedirV>::empty());
        assert(exp_redirections_view(redirections@) =~= Seq::<ExpRedirV>::empty());
        while k < command.redirections.len()
            invariant
                k <= command.redirections@.len(),
                expand_words_spec(command@.args, self.home()) == Ok::<Seq<Seq<char>>, ExpErr>(
                    strings_view(args@),
                ),
                expand_redirections_spec(command@.redirections.take(k as int), self.home())
                    == Ok::<Seq<ExpRedirV>, ExpErr>(exp_redirections_view(redirections@)),
            decreases command.redirections@.len() - k,
        {
            let ghost prefix = command@.redirections.take(k as int);
            assert(command@.redirections.take(k + 1).drop_last() == prefix);
            assert(command@.redirections.take(k + 1).last() == command.redirections@[k as int]@);
            let r = match self.expand_redirection(&command.redirections[k]) {
                Ok(r) => r,
                Err(e) => {
                    proof {
                        lemma_redirections_error_propagates(
                            command@.redirections,
                            k + 1,
                            self.home(),
                        );
                    }
                    return Err(e);
                },
            };
            let ghost before = redirections@;
            redirections.push(r);
            assert(exp_redirections_view(redirections@) =~= exp_redirections_view(before).push(
                r@,
            ));
            k = k + 1;
        }
        assert(command@.redirections.take(k as int) == command@.redirections);
        Ok(ExpandedCommand { args, redirections })
    }

    /// Expands one redirection operand according to its operator.
    fn expand_redirection(&self, redirection: &Redirection) -> (r: Result<ExpandedRedirection, ExpanderError>)
        ensures
            match (r, expand_redirection_spec(redirection@, self.home())) {
                (Ok(x), Ok(xv)) => x@ == xv,
                (Err(e), Err(ev)) => e@ == ev,
                _ => false,
            },
    {
        let text = self.expand_word_ref(&redirection.operand)?;
        let operand = match redirection.operator {
            RedirectOperator::DuplicateInput | RedirectOperator::DuplicateOutput => {
                match parse_u32(text.as_str()) {
                    Some(fd) => ExpandedRedirectOperand::Fd(fd),
                    None => {
                        return Err(ExpanderError::InvalidFileDescriptor(text));
                    },
                }
            },
            RedirectOperator::Input
            | RedirectOperator::OutputTruncate
            | RedirectOperator::OutputAppend => ExpandedRedirectOperand::Path(text),
        };
        Ok(ExpandedRedirection {
            redirected_fd: redirection.redirected_fd,
            operator: redirection.operator,
            operand,
        })
    }

    /// Replaces the leading `~` of `input` by the home directory.
    fn expand_tilde(&self, input: &str) -> (r: Result<String, ExpanderError>)
        requires
            input@.len() > 0,
            input@[0] == '~',
        ensures
            match self.home() {
                Some(h) => r matches Ok(s) && s@ == h + input@.drop_first(),
                None => r matches Err(e) && e@ == ExpErr::CouldNotExpandTilde,
            },
    {
        match &self.home {
            Some(home) => {
                let cs = chars_of(input);
                let mut out = String::new();
                push_str(&mut out, home.as_str());
                let mut j: usize = 1;
                while j < cs.len()
                    invariant
                        1 <= j <= cs@.len(),
                        cs@ == input@,
                        out@ == self.home().unwrap() + cs@.subrange(1, j as int),
                    decreases cs@.len() - j,
                {
                    out.push(cs[j]);
                    assert(cs@.subrange(1, j + 1) == cs@.subrange(1, j as int).push(cs@[j as int]));
                    j = j + 1;
                }
                assert(cs@.subrange(1, cs@.len() as int) == cs@.drop_first());
                Ok(out)
            },
            None => Err(ExpanderError::CouldNotExpandTilde),
        }
    }

    /// Expands a word: removes quotes and expands a leading tilde.
    pub fn expand_word(&self, word: Word) -> (r: Result<String, ExpanderError>)
        ensures
            match (r, expand_word_spec(word@, self.home())) {
                (Ok(s), Ok(sv)) => s@ == sv,
                (Err(e), Err(ev)) => e@ == ev,
                _ => false,
            },
    {
        self.expand_word_ref(&word)
    }

    fn expand_word_ref(&self, word: &Word) -> (r: Result<String, ExpanderError>)
        ensures
            match (r, expand_word_spec(word@, self.home())) {
                (Ok(s), Ok(sv)) => s@ == sv,
                (Err(e), Err(ev)) => e@ == ev,
                _ => false,
            },
    {
        let parts = word.parts();
        let mut buffer = String::new();
        let mut idx: usize = 0;
        while idx < parts.len()
            invariant
                0 <= idx <= parts@.len(),
                word@ == crate::token::parts_view(parts@),
                idx == 0 ==> buffer@ == Seq::<char>::empty(),
                idx > 0 ==> expand_word_spec(word@.take(idx as int), self.home()) == Ok::<Seq<char>, ExpErr>(buffer@),
            decreases parts@.len() - idx,
        {
            let ghost before = buffer@;
            let ghost p = word@[idx as int];
            assert(p == parts@[idx as int]@);
            match &parts[idx] {
                WordPart::Unquoted(content) => {
                    assert(p == PartV::Unquoted(content@));
                    let cs = chars_of(content.as_str());
                    let tilde = idx == 0 && ((cs.len() == 1 && cs[0] == '~') || (cs.len() >= 2 && cs[0] == '~' && cs[1] == '/'));
                    proof {
                        if idx == 0 {
                            if cs@.len() == 1 && cs@[0] == '~' {
                                assert(cs@ =~= seq!['~']);
                            }
                        }
                    }
                    if tilde {
                        let expanded = self.expand_tilde(content.as_str())?;
                        push_str(&mut buffer, expanded.as_str());
                        assert(cs@.subrange(1, cs@.len() as int) == cs@.drop_first());
                        assert(is_tilde_part(p));
                        assert(buffer@ =~= before + piece(word@, idx as int, self.home()));
                    } else {
                        push_str(&mut buffer, content.as_str());
                        assert(!(idx == 0 && is_tilde_part(p)));
                        assert(buffer@ =~= before + piece(word@, idx as int, self.home()));
                    }
                },
                WordPart::SingleQuoted(literal) => {
                    push_str(&mut buffer, literal.as_str());
                    assert(buffer@ =~= before + piece(word@, idx as int, self.home()));
                },
                WordPart::DoubleQuoted(content) => {
                    push_str(&mut buffer, content.as_str());
                    assert(buffer@ =~= before + piece(word@, idx as int, self.home()));
                },
                WordPart::Escaped(c) => {
                    buffer.push(*c);
                    assert(buffer@ =~= before + piece(word@, idx as int, self.home()));
                },
            }
            proof {
                lemma_expand_word_step(word@, idx as int, self.home(), before, buffer@);
            }
            idx = idx + 1;
        }
        proof {
            if parts@.len() == 0 {
                assert(word@.len() == 0);
                assert(parts_text(word@) =~= seq![]);
            } else {
                assert(word@.take(parts@.len() as int) == word@);
            }
        }
        Ok(buffer)
    }
}


/// The text a part contributes at position `idx` of a word.
/// Law: a word whose first part is quoted or escaped expands to the plain
/// text of its parts, one after the other, whatever the home directory: a
/// `~` inside quotes, or anywhere but at the start of an unquoted first
/// part, is kept as it is.
pub proof fn law_quoted_tilde_is_literal(parts: Seq<PartV>, home: Option<Seq<char>>)
    requires
        parts.len() > 0,
        !(parts[0] is Unquoted),
    ensures
        expand_word_spec(parts, home) == Ok::<Seq<char>, ExpErr>(parts_text(parts)),
{
}

/// Law: the home directory matters to the expansion of a word only when
/// its first part is unquoted and starts with `~`.
pub proof fn law_home_matters_only_for_a_leading_unquoted_tilde(
    parts: Seq<PartV>,
    h1: Option<Seq<char>>,
    h2: Option<Seq<char>>,
)
    requires
        !(parts.len() > 0 && parts[0] is Unquoted && parts[0]->Unquoted_0.len() > 0
            && parts[0]->Unquoted_0[0] == '~'),
    ensures
        expand_word_spec(parts, h1) == expand_word_spec(parts, h2),
        expand_word_spec(parts, h1) == Ok::<Seq<char>, ExpErr>(parts_text(parts)),
{
}

/// Law: the text of parts laid one after the other is the text of each
/// part in turn: quotes are removed, an escaped character stands for
/// itself.
pub proof fn law_parts_text_concatenates(a: Seq<PartV>, b: Seq<PartV>)
    ensures
        parts_text(a + b) == parts_text(a) + parts_text(b),
    decreases b.len(),
{
    if b.len() == 0 {
        assert(a + b == a);
    } else {
        law_parts_text_concatenates(a, b.drop_last());
        assert((a + b).drop_last() == a + b.drop_last());
    }
}

pub open spec fn piece(parts: Seq<PartV>, idx: int, home: Option<Seq<char>>) -> Seq<char> {
    if idx == 0 && is_tilde_part(parts[0]) {
        home.unwrap() + part_text(parts[0]).drop_first()
    } else {
        part_text(parts[idx])
    }
}

pub proof fn lemma_parts_text_push(parts: Seq<PartV>, n: int)
    requires
        0 <= n < parts.len(),
    ensures
        parts_text(parts.take(n + 1)) == parts_text(parts.take(n)) + part_text(parts[n]),
{
    assert(parts.take(n + 1).drop_last() == parts.take(n));
}

/// One more part extends the expansion by that part's text.
pub proof fn lemma_expand_word_step(
    parts: Seq<PartV>,
    idx: int,
    home: Option<Seq<char>>,
    before: Seq<char>,
    after: Seq<char>,
)
    requires
        0 <= idx < parts.len(),
        idx == 0 ==> before == Seq::<char>::empty(),
        idx > 0 ==> expand_word_spec(parts.take(idx), home) == Ok::<Seq<char>, ExpErr>(before),
        idx == 0 && is_tilde_part(parts[0]) ==> home is Some,
        after == before + piece(parts, idx, home),
    ensures
        expand_word_spec(parts.take(idx + 1), home) == Ok::<Seq<char>, ExpErr>(after),
{
    let t = parts.take(idx + 1);
    assert(t[0] == parts[0]);
    lemma_parts_text_push(parts, idx);
    if idx == 0 {
        assert(t.drop_first() =~= Seq::<PartV>::empty());
        assert(parts_text(t.drop_first()) == Seq::<char>::empty());
        assert(parts.take(0) =~= Seq::<PartV>::empty());
        assert(parts_text(parts.take(0)) == Seq::<char>::empty());
        if is_tilde_part(parts[0]) {
            assert(after =~= home.unwrap() + part_text(parts[0]).drop_first() + Seq::<char>::empty());
        } else {
            assert(after =~= parts_text(t));
        }
    } else {
        assert(parts.take(idx)[0] == parts[0]);
        if is_tilde_part(parts[0]) {
            assert(t.drop_first().drop_last() == parts.take(idx).drop_first());
            assert(t.drop_first().last() == parts[idx]);
            assert(parts_text(t.drop_first()) == parts_text(parts.take(idx).drop_first()) + part_text(parts[idx]));
            assert(after =~= home.unwrap() + part_text(parts[0]).drop_first() + parts_text(t.drop_first()));
        }
    }
}

/// A failing word makes the whole list fail with the same error.
pub proof fn lemma_words_error_propagates(ws: Seq<Seq<PartV>>, n: int, home: Option<Seq<char>>)
    requires
        1 <= n <= ws.len(),
        expand_words_spec(ws.take(n - 1), home) is Ok,
        expand_word_spec(ws[n - 1], home) is Err,
    ensures
        expand_words_spec(ws, home) == match expand_word_spec(ws[n - 1], home) {
            Err(e) => Err::<Seq<Seq<char>>, ExpErr>(e),
            Ok(_) => Ok(seq![]),
        },
    decreases ws.len() - n,
{
    let t = ws.take(n);
    assert(t.drop_last() == ws.take(n - 1));
    assert(t.last() == ws[n - 1]);
    if n == ws.len() {
        assert(t == ws);
    } else {
        lemma_words_error_extends(ws, n, home);
    }
}

/// An error on a prefix stays the error of every longer prefix.
pub proof fn lemma_words_error_extends(ws: Seq<Seq<PartV>>, n: int, home: Option<Seq<char>>)
    requires
        1 <= n <= ws.len(),
        expand_words_spec(ws.take(n), home) is Err,
    ensures
        expand_words_spec(ws, home) == expand_words_spec(ws.take(n), home),
    decreases ws.len() - n,
{
    if n == ws.len() {
        assert(ws.take(n) == ws);
    } else {
        assert(ws.take(n + 1).drop_last() == ws.take(n));
        lemma_words_error_extends(ws, n + 1, home);
    }
}

/// A failing redirection makes the whole list fail with the same error.
pub proof fn lemma_redirections_error_propagates(rs: Seq<RedirV>, n: int, home: Option<Seq<char>>)
    requires
        1 <= n <= rs.len(),
        expand_redirections_spec(rs.take(n - 1), home) is Ok,
        expand_redirection_spec(rs[n - 1], home) is Err,
    ensures
        expand_redirections_spec(rs, home) == match expand_redirection_spec(rs[n - 1], home) {
            Err(e) => Err::<Seq<ExpRedirV>, ExpErr>(e),
            Ok(_) => Ok(seq![]),
        },
{
    let t = rs.take(n);
    assert(t.drop_last() == rs.take(n - 1));
    assert(t.last() == rs[n - 1]);
    if n == rs.len() {
        assert(t == rs);
    } else {
        lemma_redirections_error_extends(rs, n, home);
    }
}

/// An error on a prefix stays the error of every longer prefix.
pub proof fn lemma_redirections_error_extends(rs: Seq<RedirV>, n: int, home: Option<Seq<char>>)
    requires
        1 <= n <= rs.len(),
        expand_redirections_spec(rs.take(n), home) is Err,
    ensures
        expand_redirections_spec(rs, home) == expand_redirections_spec(rs.take(n), home),
    decreases rs.len() - n,
{
    if n == rs.len() {
        assert(rs.take(n) == rs);
    } else {
        assert(rs.take(n + 1).drop_last() == rs.take(n));
        lemma_redirections_error_extends(rs, n + 1, home);
    }
}

} // verus!
