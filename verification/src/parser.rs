//! The parser: turns tokens into a syntax tree.
//!
//! Grammar, from the loosest to the tightest binding:
//!
//! ```text
//! sequence := and_or (';' and_or)*
//! and_or   := pipeline (('&&' | '||') pipeline)*      -- left associative
//! pipeline := command ('|' command)*
//! command  := (WORD | redirection)+
//! redirection := IO_NUMBER? REDIRECT WORD
//! ```
//!
//! The meaning is given by the spec functions `p_*` over the token values;
//! [`Parser::parse`] is proved to compute [`parse_spec`].

use vstd::prelude::*;

use crate::token::{spec_default_fd, tokens_view, PartV, RedirectOperator, Token, TokenV, Word};
use crate::lexer::{io_numbers_ok, law_lexed_tokens_are_well_formed, lex_spec};

verus! {

/// A redirection with its operand not yet expanded.
#[derive(Debug, PartialEq, Eq, Clone)]
pub struct Redirection {
    pub redirected_fd: i32,
    pub operator: RedirectOperator,
    pub operand: Word,
}

/// A simple command: its words and its redirections, both in source order.
#[derive(Debug, PartialEq, Eq, Clone)]
pub struct Command {
    pub args: Vec<Word>,
    pub redirections: Vec<Redirection>,
}

/// The syntax tree of a command line.
#[derive(Debug, PartialEq, Eq)]
pub enum Ast {
    Command(Command),
    AndIf { left: Box<Ast>, right: Box<Ast> },
    OrIf { left: Box<Ast>, right: Box<Ast> },
    Sequence(Vec<Ast>),
    Pipeline { commands: Vec<Command> },
}

/// The value of a [`Redirection`].
pub struct RedirV {
    pub fd: i32,
    pub op: RedirectOperator,
    pub operand: Seq<PartV>,
}

/// The value of a [`Command`].
pub struct CommandV {
    pub args: Seq<Seq<PartV>>,
    pub redirections: Seq<RedirV>,
}

/// The value of an [`Ast`].
pub enum AstV {
    Command(CommandV),
    AndIf(Box<AstV>, Box<AstV>),
    OrIf(Box<AstV>, Box<AstV>),
    Sequence(Seq<AstV>),
    Pipeline(Seq<CommandV>),
}

impl View for Redirection {
    type V = RedirV;

    open spec fn view(&self) -> RedirV {
        RedirV { fd: self.redirected_fd, op: self.operator, operand: self.operand@ }
    }
}

pub open spec fn words_view(ws: Seq<Word>) -> Seq<Seq<PartV>> {
    ws.map_values(|w: Word| w@)
}

pub open spec fn redirections_view(rs: Seq<Redirection>) -> Seq<RedirV> {
    rs.map_values(|r: Redirection| r@)
}

impl View for Command {
    type V = CommandV;

    open spec fn view(&self) -> CommandV {
        CommandV { args: words_view(self.args@), redirections: redirections_view(self.redirections@) }
    }
}

pub open spec fn commands_view(cs: Seq<Command>) -> Seq<CommandV> {
    cs.map_values(|c: Command| c@)
}

/// The value of a syntax tree.
pub open spec fn ast_view(a: Ast) -> AstV
    decreases a,
{
    match a {
        Ast::Command(c) => AstV::Command(c@),
        Ast::AndIf { left, right } => AstV::AndIf(
            Box::new(ast_view(*left)),
            Box::new(ast_view(*right)),
        ),
        Ast::OrIf { left, right } => AstV::OrIf(
            Box::new(ast_view(*left)),
            Box::new(ast_view(*right)),
        ),
        Ast::Sequence(items) => AstV::Sequence(asts_view(items@)),
        Ast::Pipeline { commands } => AstV::Pipeline(commands_view(commands@)),
    }
}

/// The values of a list of syntax trees.
pub open spec fn asts_view(s: Seq<Ast>) -> Seq<AstV>
    decreases s,
{
    if s.len() == 0 {
        seq![]
    } else {
        asts_view(s.drop_last()).push(ast_view(s.last()))
    }
}

impl View for Ast {
    type V = AstV;

    open spec fn view(&self) -> AstV {
        ast_view(*self)
    }
}

/// Errors reported by [`Parser::parse`].
#[derive(Debug, PartialEq, Eq)]
pub enum ParserError {
    UnexpectedToken(Token),
    MissingCommandAfterAndIf,
    MissingCommandAfterOrIf,
    ExpectCommand,
    ExpectRedirectOperator { found: Option<Token> },
    ExpectRedirectionOperand { found: Option<Token> },
    UnexpectedError,
}

/// The value of a [`ParserError`].
pub enum PErr {
    UnexpectedToken(TokenV),
    MissingCommandAfterAndIf,
    MissingCommandAfterOrIf,
    ExpectCommand,
    ExpectRedirectOperator(Option<TokenV>),
    ExpectRedirectionOperand(Option<TokenV>),
    UnexpectedError,
}

pub open spec fn opt_token_view(t: Option<Token>) -> Option<TokenV> {
    match t {
        Some(t) => Some(t@),
        None => None,
    }
}

impl View for ParserError {
    type V = PErr;

    open spec fn view(&self) -> PErr {
        match self {
            ParserError::UnexpectedToken(t) => PErr::UnexpectedToken(t@),
            ParserError::MissingCommandAfterAndIf => PErr::MissingCommandAfterAndIf,
            ParserError::MissingCommandAfterOrIf => PErr::MissingCommandAfterOrIf,
            ParserError::ExpectCommand => PErr::ExpectCommand,
            ParserError::ExpectRedirectOperator { found } => PErr::ExpectRedirectOperator(
                opt_token_view(*found),
            ),
            ParserError::ExpectRedirectionOperand { found } => PErr::ExpectRedirectionOperand(
                opt_token_view(*found),
            ),
            ParserError::UnexpectedError => PErr::UnexpectedError,
        }
    }
}

// ---------------------------------------------------------------------------
// The meaning of parsing
// ---------------------------------------------------------------------------

/// The token at `i`, if there is one.
pub open spec fn tok_at(ts: Seq<TokenV>, i: int) -> Option<TokenV> {
    if 0 <= i < ts.len() {
        Some(ts[i])
    } else {
        None
    }
}

/// Token `i` is the given control operator.
pub open spec fn is_at(ts: Seq<TokenV>, i: int, t: TokenV) -> bool {
    tok_at(ts, i) == Some(t)
}

/// A redirection starting at `i`, which holds an I/O number or an operator;
/// gives the redirection and the position after it.
pub open spec fn p_redirection(ts: Seq<TokenV>, i: int) -> Result<(RedirV, int), PErr> {
    let (fd, i1) = match tok_at(ts, i) {
        Some(TokenV::IoNumber(n)) => (n, i + 1),
        Some(TokenV::Redirect(op)) => (spec_default_fd(op), i),
        _ => (0i32, i),
    };
    match tok_at(ts, i1) {
        Some(TokenV::Redirect(op)) => match tok_at(ts, i1 + 1) {
            Some(TokenV::Word(w)) => Ok((RedirV { fd, op, operand: w }, i1 + 2)),
            found => Err(PErr::ExpectRedirectionOperand(found)),
        },
        found => Err(PErr::ExpectRedirectOperator(found)),
    }
}

pub open spec fn empty_command() -> CommandV {
    CommandV { args: seq![], redirections: seq![] }
}

/// The words and redirections of a command from `i` on, added to `acc`.
pub open spec fn p_command_items(ts: Seq<TokenV>, i: int, acc: CommandV) -> Result<(CommandV, int), PErr>
    decreases ts.len() - i,
{
    if i < 0 || i >= ts.len() {
        Ok((acc, i))
    } else {
        match ts[i] {
            TokenV::Word(w) => p_command_items(
                ts,
                i + 1,
                CommandV { args: acc.args.push(w), redirections: acc.redirections },
            ),
            TokenV::IoNumber(_) | TokenV::Redirect(_) => match p_redirection(ts, i) {
                Ok((r, j)) => p_command_items(
                    ts,
                    j,
                    CommandV { args: acc.args, redirections: acc.redirections.push(r) },
                ),
                Err(e) => Err(e),
            },
            _ => Ok((acc, i)),
        }
    }
}

/// A command starting at `i`: at least one word or redirection.
pub open spec fn p_command(ts: Seq<TokenV>, i: int) -> Result<(CommandV, int), PErr> {
    match p_command_items(ts, i, empty_command()) {
        Ok((c, j)) => if c.args.len() == 0 && c.redirections.len() == 0 {
            Err(PErr::ExpectCommand)
        } else {
            Ok((c, j))
        },
        Err(e) => Err(e),
    }
}

/// Parsing the items of a command never moves backwards, and consumes
/// something exactly when it adds an item.
pub proof fn lemma_command_items_progress(ts: Seq<TokenV>, i: int, acc: CommandV)
    ensures
        p_command_items(ts, i, acc) matches Ok((c, j)) ==> {
            &&& i <= j
            &&& (0 <= i <= ts.len() ==> j <= ts.len())
            &&& (j == i ==> c == acc)
            &&& c.args.len() + c.redirections.len() >= acc.args.len() + acc.redirections.len()
            &&& (j > i ==> c.args.len() + c.redirections.len() > acc.args.len() + acc.redirections.len())
        },
    decreases ts.len() - i,
{
    if i < 0 || i >= ts.len() {
    } else {
        match ts[i] {
            TokenV::Word(w) => {
                lemma_command_items_progress(
                    ts,
                    i + 1,
                    CommandV { args: acc.args.push(w), redirections: acc.redirections },
                );
            },
            TokenV::IoNumber(_) | TokenV::Redirect(_) => match p_redirection(ts, i) {
                Ok((r, j)) => {
                    lemma_command_items_progress(
                        ts,
                        j,
                        CommandV { args: acc.args, redirections: acc.redirections.push(r) },
                    );
                },
                Err(e) => {},
            },
            _ => {},
        }
    }
}

/// A parsed command always consumes at least one token.
pub proof fn lemma_command_progress(ts: Seq<TokenV>, i: int)
    ensures
        p_command(ts, i) matches Ok((c, j)) ==> i < j && (0 <= i <= ts.len() ==> j <= ts.len()),
{
    lemma_command_items_progress(ts, i, empty_command());
}

/// The remaining commands of a pipeline; `acc` holds the ones before.
pub open spec fn p_pipeline_rest(ts: Seq<TokenV>, i: int, acc: Seq<CommandV>) -> Result<(AstV, int), PErr>
    decreases ts.len() - i,
{
    match p_command(ts, i) {
        Ok((c, j)) => {
            proof {
                lemma_command_progress(ts, i);
            }
            if is_at(ts, j, TokenV::Pipeline) {
                p_pipeline_rest(ts, j + 1, acc.push(c))
            } else {
                Ok((AstV::Pipeline(acc.push(c)), j))
            }
        },
        Err(e) => Err(e),
    }
}

/// A pipeline starting at `i`; a single command stands alone.
pub open spec fn p_pipeline(ts: Seq<TokenV>, i: int) -> Result<(AstV, int), PErr> {
    match p_command(ts, i) {
        Ok((c, j)) => if is_at(ts, j, TokenV::Pipeline) {
            p_pipeline_rest(ts, j + 1, seq![c])
        } else {
            Ok((AstV::Command(c), j))
        },
        Err(e) => Err(e),
    }
}

pub proof fn lemma_pipeline_rest_progress(ts: Seq<TokenV>, i: int, acc: Seq<CommandV>)
    ensures
        p_pipeline_rest(ts, i, acc) matches Ok((a, j)) ==> i < j && (0 <= i <= ts.len() ==> j
            <= ts.len()),
    decreases ts.len() - i,
{
    lemma_command_progress(ts, i);
    match p_command(ts, i) {
        Ok((c, j)) => {
            if is_at(ts, j, TokenV::Pipeline) {
                lemma_pipeline_rest_progress(ts, j + 1, acc.push(c));
            }
        },
        Err(e) => {},
    }
}

/// A parsed pipeline always consumes at least one token.
pub proof fn lemma_pipeline_progress(ts: Seq<TokenV>, i: int)
    ensures
        p_pipeline(ts, i) matches Ok((a, j)) ==> i < j && (0 <= i <= ts.len() ==> j <= ts.len()),
{
    lemma_command_progress(ts, i);
    match p_command(ts, i) {
        Ok((c, j)) => {
            if is_at(ts, j, TokenV::Pipeline) {
                lemma_pipeline_rest_progress(ts, j + 1, seq![c]);
            }
        },
        Err(e) => {},
    }
}

/// The `&&`/`||` tail of an and-or list; `left` is everything before,
/// so the operators group to the left.
pub open spec fn p_and_or_rest(ts: Seq<TokenV>, i: int, left: AstV) -> Result<(AstV, int), PErr>
    decreases ts.len() - i,
{
    if is_at(ts, i, TokenV::AndAnd) {
        if i + 1 >= ts.len() {
            Err(PErr::MissingCommandAfterAndIf)
        } else {
            match p_pipeline(ts, i + 1) {
                Ok((right, j)) => {
                    proof {
                        lemma_pipeline_progress(ts, i + 1);
                    }
                    p_and_or_rest(ts, j, AstV::AndIf(Box::new(left), Box::new(right)))
                },
                Err(e) => Err(e),
            }
        }
    } else if is_at(ts, i, TokenV::OrOr) {
        if i + 1 >= ts.len() {
            Err(PErr::MissingCommandAfterOrIf)
        } else {
            match p_pipeline(ts, i + 1) {
                Ok((right, j)) => {
                    proof {
                        lemma_pipeline_progress(ts, i + 1);
                    }
                    p_and_or_rest(ts, j, AstV::OrIf(Box::new(left), Box::new(right)))
                },
                Err(e) => Err(e),
            }
        }
    } else {
        Ok((left, i))
    }
}

/// An and-or list starting at `i`.
pub open spec fn p_and_or(ts: Seq<TokenV>, i: int) -> Result<(AstV, int), PErr> {
    match p_pipeline(ts, i) {
        Ok((left, j)) => p_and_or_rest(ts, j, left),
        Err(e) => Err(e),
    }
}

pub proof fn lemma_and_or_rest_progress(ts: Seq<TokenV>, i: int, left: AstV)
    ensures
        p_and_or_rest(ts, i, left) matches Ok((a, j)) ==> i <= j && (0 <= i <= ts.len() ==> j
            <= ts.len()),
    decreases ts.len() - i,
{
    if is_at(ts, i, TokenV::AndAnd) {
        if i + 1 < ts.len() {
            lemma_pipeline_progress(ts, i + 1);
            match p_pipeline(ts, i + 1) {
                Ok((right, j)) => {
                    lemma_and_or_rest_progress(ts, j, AstV::AndIf(Box::new(left), Box::new(right)));
                },
                Err(e) => {},
            }
        }
    } else if is_at(ts, i, TokenV::OrOr) {
        if i + 1 < ts.len() {
            lemma_pipeline_progress(ts, i + 1);
            match p_pipeline(ts, i + 1) {
                Ok((right, j)) => {
                    lemma_and_or_rest_progress(ts, j, AstV::OrIf(Box::new(left), Box::new(right)));
                },
                Err(e) => {},
            }
        }
    }
}

/// A parsed and-or list always consumes at least one token.
pub proof fn lemma_and_or_progress(ts: Seq<TokenV>, i: int)
    ensures
        p_and_or(ts, i) matches Ok((a, j)) ==> i < j && (0 <= i <= ts.len() ==> j <= ts.len()),
{
    lemma_pipeline_progress(ts, i);
    match p_pipeline(ts, i) {
        Ok((left, j)) => {
            lemma_and_or_rest_progress(ts, j, left);
        },
        Err(e) => {},
    }
}

/// The list made of the collected and-or lists: a lone one stands alone.
pub open spec fn sequence_of(acc: Seq<AstV>) -> Result<AstV, PErr> {
    if acc.len() > 1 {
        Ok(AstV::Sequence(acc))
    } else if acc.len() == 1 {
        Ok(acc[0])
    } else {
        Err(PErr::UnexpectedError)
    }
}

/// The `;`-separated tail of a sequence; `acc` holds the lists before.
pub open spec fn p_sequence_rest(ts: Seq<TokenV>, i: int, acc: Seq<AstV>) -> Result<(AstV, int), PErr>
    decreases ts.len() - i,
{
    if is_at(ts, i, TokenV::Semicolon) {
        match p_and_or(ts, i + 1) {
            Ok((a, j)) => {
                proof {
                    lemma_and_or_progress(ts, i + 1);
                }
                p_sequence_rest(ts, j, acc.push(a))
            },
            Err(e) => Err(e),
        }
    } else {
        match sequence_of(acc) {
            Ok(a) => Ok((a, i)),
            Err(e) => Err(e),
        }
    }
}

/// A sequence starting at `i`.
pub open spec fn p_sequence(ts: Seq<TokenV>, i: int) -> Result<(AstV, int), PErr> {
    match p_and_or(ts, i) {
        Ok((a, j)) => p_sequence_rest(ts, j, seq![a]),
        Err(e) => Err(e),
    }
}

/// The syntax tree of a token list: none for no tokens, an error when the
/// tokens do not form a sequence or when tokens are left over.
pub open spec fn parse_spec(ts: Seq<TokenV>) -> Result<Option<AstV>, PErr> {
    if ts.len() == 0 {
        Ok(None)
    } else {
        match p_sequence(ts, 0) {
            Ok((a, j)) => if j < ts.len() {
                Err(PErr::UnexpectedToken(ts[j]))
            } else {
                Ok(Some(a))
            },
            Err(e) => Err(e),
        }
    }
}


/// A parse failure that tokens from the lexer can cause: neither a missing
/// operator after an I/O number nor the internal `UnexpectedError`.
pub open spec fn reachable_failure(e: PErr) -> bool {
    !(e is ExpectRedirectOperator) && !(e is UnexpectedError)
}

proof fn lemma_redirection_failure(ts: Seq<TokenV>, i: int)
    requires
        io_numbers_ok(ts),
        0 <= i < ts.len(),
        ts[i] is IoNumber || ts[i] is Redirect,
    ensures
        p_redirection(ts, i) matches Err(e) ==> reachable_failure(e),
{
}

proof fn lemma_command_items_failure(ts: Seq<TokenV>, i: int, acc: CommandV)
    requires
        io_numbers_ok(ts),
    ensures
        p_command_items(ts, i, acc) matches Err(e) ==> reachable_failure(e),
    decreases ts.len() - i,
{
    if 0 <= i < ts.len() {
        match ts[i] {
            TokenV::Word(w) => {
                lemma_command_items_failure(
                    ts,
                    i + 1,
                    CommandV { args: acc.args.push(w), redirections: acc.redirections },
                );
            },
            TokenV::IoNumber(_) | TokenV::Redirect(_) => {
                lemma_redirection_failure(ts, i);
                if let Ok((r, j)) = p_redirection(ts, i) {
                    lemma_command_items_failure(
                        ts,
                        j,
                        CommandV { args: acc.args, redirections: acc.redirections.push(r) },
                    );
                }
            },
            _ => {},
        }
    }
}

proof fn lemma_pipeline_rest_failure(ts: Seq<TokenV>, i: int, acc: Seq<CommandV>)
    requires
        io_numbers_ok(ts),
    ensures
        p_pipeline_rest(ts, i, acc) matches Err(e) ==> reachable_failure(e),
    decreases ts.len() - i,
{
    lemma_command_items_failure(ts, i, empty_command());
    lemma_command_progress(ts, i);
    if let Ok((c, j)) = p_command(ts, i) {
        if is_at(ts, j, TokenV::Pipeline) {
            lemma_pipeline_rest_failure(ts, j + 1, acc.push(c));
        }
    }
}

proof fn lemma_pipeline_failure(ts: Seq<TokenV>, i: int)
    requires
        io_numbers_ok(ts),
    ensures
        p_pipeline(ts, i) matches Err(e) ==> reachable_failure(e),
{
    lemma_command_items_failure(ts, i, empty_command());
    if let Ok((c, j)) = p_command(ts, i) {
        lemma_pipeline_rest_failure(ts, j + 1, seq![c]);
    }
}

proof fn lemma_and_or_rest_failure(ts: Seq<TokenV>, i: int, left: AstV)
    requires
        io_numbers_ok(ts),
    ensures
        p_and_or_rest(ts, i, left) matches Err(e) ==> reachable_failure(e),
    decreases ts.len() - i,
{
    if (is_at(ts, i, TokenV::AndAnd) || is_at(ts, i, TokenV::OrOr)) && i + 1 < ts.len() {
        lemma_pipeline_failure(ts, i + 1);
        lemma_pipeline_progress(ts, i + 1);
        if let Ok((right, j)) = p_pipeline(ts, i + 1) {
            lemma_and_or_rest_failure(ts, j, AstV::AndIf(Box::new(left), Box::new(right)));
            lemma_and_or_rest_failure(ts, j, AstV::OrIf(Box::new(left), Box::new(right)));
        }
    }
}

proof fn lemma_and_or_failure(ts: Seq<TokenV>, i: int)
    requires
        io_numbers_ok(ts),
    ensures
        p_and_or(ts, i) matches Err(e) ==> reachable_failure(e),
{
    lemma_pipeline_failure(ts, i);
    if let Ok((left, j)) = p_pipeline(ts, i) {
        lemma_and_or_rest_failure(ts, j, left);
    }
}

proof fn lemma_sequence_rest_failure(ts: Seq<TokenV>, i: int, acc: Seq<AstV>)
    requires
        io_numbers_ok(ts),
        acc.len() >= 1,
    ensures
        p_sequence_rest(ts, i, acc) matches Err(e) ==> reachable_failure(e),
    decreases ts.len() - i,
{
    if is_at(ts, i, TokenV::Semicolon) {
        lemma_and_or_failure(ts, i + 1);
        lemma_and_or_progress(ts, i + 1);
        if let Ok((a, j)) = p_and_or(ts, i + 1) {
            lemma_sequence_rest_failure(ts, j, acc.push(a));
        }
    }
}

/// Law: parsing what the lexer gives never fails for want of an operator
/// after an I/O number, and never with the internal `UnexpectedError`.
pub proof fn law_lexed_input_parses_without_internal_errors(src: Seq<char>)
    ensures
        lex_spec(src) matches Ok(ts) ==> (parse_spec(ts) matches Err(e) ==> reachable_failure(e)),
{
    law_lexed_tokens_are_well_formed(src);
    if let Ok(ts) = lex_spec(src) {
        lemma_and_or_failure(ts, 0);
        if let Ok((a, j)) = p_and_or(ts, 0) {
            lemma_sequence_rest_failure(ts, j, seq![a]);
        }
    }
}

/// The shape of an and-or list: `&&` and `||` group to the left and have a
/// pipeline or a single command on their right; a pipeline joins at least
/// two commands.
pub open spec fn and_or_shape(a: AstV) -> bool
    decreases a,
{
    match a {
        AstV::Command(_) => true,
        AstV::Pipeline(cs) => cs.len() >= 2,
        AstV::AndIf(l, r) => and_or_shape(*l) && pipeline_shape(*r),
        AstV::OrIf(l, r) => and_or_shape(*l) && pipeline_shape(*r),
        AstV::Sequence(_) => false,
    }
}

/// A single command, or a pipeline of at least two commands.
pub open spec fn pipeline_shape(a: AstV) -> bool {
    ||| a is Command
    ||| (a matches AstV::Pipeline(cs) && cs.len() >= 2)
}

/// The shape of a parsed tree: an and-or list, or a `;` list of at least
/// two and-or lists.
pub open spec fn tree_shape(a: AstV) -> bool {
    match a {
        AstV::Sequence(items) => items.len() >= 2 && forall|k: int|
            0 <= k < items.len() ==> and_or_shape(#[trigger] items[k]),
        _ => and_or_shape(a),
    }
}

proof fn lemma_pipeline_rest_shape(ts: Seq<TokenV>, i: int, acc: Seq<CommandV>)
    ensures
        p_pipeline_rest(ts, i, acc) matches Ok((a, _)) ==> (a matches AstV::Pipeline(cs) && cs.len() > acc.len()),
    decreases ts.len() - i,
{
    lemma_command_progress(ts, i);
    if let Ok((c, j)) = p_command(ts, i) {
        if is_at(ts, j, TokenV::Pipeline) {
            lemma_pipeline_rest_shape(ts, j + 1, acc.push(c));
        }
    }
}

proof fn lemma_pipeline_shape(ts: Seq<TokenV>, i: int)
    ensures
        p_pipeline(ts, i) matches Ok((a, _)) ==> pipeline_shape(a),
{
    if let Ok((c, j)) = p_command(ts, i) {
        lemma_pipeline_rest_shape(ts, j + 1, seq![c]);
    }
}

proof fn lemma_and_or_rest_shape(ts: Seq<TokenV>, i: int, left: AstV)
    requires
        and_or_shape(left),
    ensures
        p_and_or_rest(ts, i, left) matches Ok((a, _)) ==> and_or_shape(a),
    decreases ts.len() - i,
{
    if (is_at(ts, i, TokenV::AndAnd) || is_at(ts, i, TokenV::OrOr)) && i + 1 < ts.len() {
        lemma_pipeline_shape(ts, i + 1);
        lemma_pipeline_progress(ts, i + 1);
        if let Ok((right, j)) = p_pipeline(ts, i + 1) {
            lemma_and_or_rest_shape(ts, j, AstV::AndIf(Box::new(left), Box::new(right)));
            lemma_and_or_rest_shape(ts, j, AstV::OrIf(Box::new(left), Box::new(right)));
        }
    }
}

proof fn lemma_and_or_shape(ts: Seq<TokenV>, i: int)
    ensures
        p_and_or(ts, i) matches Ok((a, _)) ==> and_or_shape(a),
{
    lemma_pipeline_shape(ts, i);
    if let Ok((left, j)) = p_pipeline(ts, i) {
        lemma_and_or_rest_shape(ts, j, left);
    }
}

proof fn lemma_sequence_rest_shape(ts: Seq<TokenV>, i: int, acc: Seq<AstV>)
    requires
        acc.len() >= 1,
        forall|k: int| 0 <= k < acc.len() ==> and_or_shape(#[trigger] acc[k]),
    ensures
        p_sequence_rest(ts, i, acc) matches Ok((a, _)) ==> tree_shape(a),
    decreases ts.len() - i,
{
    if is_at(ts, i, TokenV::Semicolon) {
        lemma_and_or_shape(ts, i + 1);
        lemma_and_or_progress(ts, i + 1);
        if let Ok((a, j)) = p_and_or(ts, i + 1) {
            assert forall|k: int| 0 <= k < acc.push(a).len() implies and_or_shape(#[trigger] acc.push(a)[k]) by {
                if k < acc.len() {
                    assert(acc.push(a)[k] == acc[k]);
                }
            }
            lemma_sequence_rest_shape(ts, j, acc.push(a));
        }
    } else if acc.len() == 1 {
        assert(and_or_shape(acc[0]));
    }
}

/// A parse result with its position moved `d` tokens on.
pub open spec fn shifted_result<X>(r: Result<(X, int), PErr>, d: int) -> Result<(X, int), PErr> {
    match r {
        Ok((x, j)) => Ok((x, j + d)),
        Err(e) => Err(e),
    }
}

/// `t` holds the tokens of `a` followed by a `;`.
pub open spec fn extends_with_semicolon(a: Seq<TokenV>, t: Seq<TokenV>) -> bool {
    &&& t.len() > a.len()
    &&& t[a.len() as int] == TokenV::Semicolon
    &&& forall|k: int| 0 <= k < a.len() ==> t[k] == a[k]
}

proof fn lemma_tok_shift(p: Seq<TokenV>, b: Seq<TokenV>, k: int)
    requires
        k >= 0,
    ensures
        tok_at(p + b, p.len() + k) == tok_at(b, k),
{
    if k < b.len() {
        assert((p + b)[p.len() + k] == b[k]);
    }
}

proof fn lemma_redirection_shift(p: Seq<TokenV>, b: Seq<TokenV>, i: int)
    requires
        i >= 0,
    ensures
        p_redirection(p + b, p.len() + i) == shifted_result(p_redirection(b, i), p.len() as int),
{
    lemma_tok_shift(p, b, i);
    lemma_tok_shift(p, b, i + 1);
    lemma_tok_shift(p, b, i + 2);
}

proof fn lemma_command_items_shift(p: Seq<TokenV>, b: Seq<TokenV>, i: int, acc: CommandV)
    requires
        i >= 0,
    ensures
        p_command_items(p + b, p.len() + i, acc) == shifted_result(p_command_items(b, i, acc), p.len() as int),
    decreases b.len() - i,
{
    let t = p + b;
    if i < b.len() {
        assert(t[p.len() + i] == b[i]);
        match b[i] {
            TokenV::Word(w) => {
                lemma_command_items_shift(
                    p,
                    b,
                    i + 1,
                    CommandV { args: acc.args.push(w), redirections: acc.redirections },
                );
            },
            TokenV::IoNumber(_) | TokenV::Redirect(_) => {
                lemma_redirection_shift(p, b, i);
                if let Ok((r, j)) = p_redirection(b, i) {
                    lemma_command_items_shift(
                        p,
                        b,
                        j,
                        CommandV { args: acc.args, redirections: acc.redirections.push(r) },
                    );
                }
            },
            _ => {},
        }
    }
}

proof fn lemma_pipeline_rest_shift(p: Seq<TokenV>, b: Seq<TokenV>, i: int, acc: Seq<CommandV>)
    requires
        i >= 0,
    ensures
        p_pipeline_rest(p + b, p.len() + i, acc) == shifted_result(p_pipeline_rest(b, i, acc), p.len() as int),
    decreases b.len() - i,
{
    lemma_command_items_shift(p, b, i, empty_command());
    lemma_command_progress(b, i);
    if let Ok((c, j)) = p_command(b, i) {
        lemma_tok_shift(p, b, j);
        if is_at(b, j, TokenV::Pipeline) {
            lemma_pipeline_rest_shift(p, b, j + 1, acc.push(c));
        }
    }
}

proof fn lemma_pipeline_shift(p: Seq<TokenV>, b: Seq<TokenV>, i: int)
    requires
        i >= 0,
    ensures
        p_pipeline(p + b, p.len() + i) == shifted_result(p_pipeline(b, i), p.len() as int),
{
    lemma_command_items_shift(p, b, i, empty_command());
    lemma_command_progress(b, i);
    if let Ok((c, j)) = p_command(b, i) {
        lemma_tok_shift(p, b, j);
        if is_at(b, j, TokenV::Pipeline) {
            lemma_pipeline_rest_shift(p, b, j + 1, seq![c]);
        }
    }
}

proof fn lemma_and_or_rest_shift(p: Seq<TokenV>, b: Seq<TokenV>, i: int, left: AstV)
    requires
        i >= 0,
    ensures
        p_and_or_rest(p + b, p.len() + i, left) == shifted_result(p_and_or_rest(b, i, left), p.len() as int),
    decreases b.len() - i,
{
    lemma_tok_shift(p, b, i);
    if (is_at(b, i, TokenV::AndAnd) || is_at(b, i, TokenV::OrOr)) && i + 1 < b.len() {
        lemma_pipeline_shift(p, b, i + 1);
        lemma_pipeline_progress(b, i + 1);
        if let Ok((right, j)) = p_pipeline(b, i + 1) {
            lemma_and_or_rest_shift(p, b, j, AstV::AndIf(Box::new(left), Box::new(right)));
            lemma_and_or_rest_shift(p, b, j, AstV::OrIf(Box::new(left), Box::new(right)));
        }
    }
}

proof fn lemma_and_or_shift(p: Seq<TokenV>, b: Seq<TokenV>, i: int)
    requires
        i >= 0,
    ensures
        p_and_or(p + b, p.len() + i) == shifted_result(p_and_or(b, i), p.len() as int),
{
    lemma_pipeline_shift(p, b, i);
    lemma_pipeline_progress(b, i);
    if let Ok((left, j)) = p_pipeline(b, i) {
        lemma_and_or_rest_shift(p, b, j, left);
    }
}

proof fn lemma_tok_prefix(a: Seq<TokenV>, t: Seq<TokenV>, k: int)
    requires
        extends_with_semicolon(a, t),
        0 <= k <= a.len(),
    ensures
        k < a.len() ==> tok_at(t, k) == tok_at(a, k),
        k == a.len() ==> tok_at(t, k) == Some(TokenV::Semicolon) && tok_at(a, k) is None,
{
}

proof fn lemma_redirection_prefix(a: Seq<TokenV>, t: Seq<TokenV>, i: int)
    requires
        extends_with_semicolon(a, t),
        0 <= i <= a.len(),
        p_redirection(a, i) is Ok,
    ensures
        p_redirection(t, i) == p_redirection(a, i),
        p_redirection(a, i)->Ok_0.1 <= a.len(),
{
    lemma_tok_prefix(a, t, i);
    if i + 1 <= a.len() {
        lemma_tok_prefix(a, t, i + 1);
    }
    if i + 2 <= a.len() {
        lemma_tok_prefix(a, t, i + 2);
    }
}

proof fn lemma_command_items_prefix(a: Seq<TokenV>, t: Seq<TokenV>, i: int, acc: CommandV)
    requires
        extends_with_semicolon(a, t),
        0 <= i <= a.len(),
        p_command_items(a, i, acc) is Ok,
    ensures
        p_command_items(t, i, acc) == p_command_items(a, i, acc),
    decreases a.len() - i,
{
    lemma_tok_prefix(a, t, i);
    if i < a.len() {
        match a[i] {
            TokenV::Word(w) => {
                lemma_command_items_prefix(
                    a,
                    t,
                    i + 1,
                    CommandV { args: acc.args.push(w), redirections: acc.redirections },
                );
            },
            TokenV::IoNumber(_) | TokenV::Redirect(_) => {
                lemma_redirection_prefix(a, t, i);
                let (r, j) = p_redirection(a, i)->Ok_0;
                lemma_command_items_prefix(
                    a,
                    t,
                    j,
                    CommandV { args: acc.args, redirections: acc.redirections.push(r) },
                );
            },
            _ => {},
        }
    }
}

proof fn lemma_pipeline_rest_prefix(a: Seq<TokenV>, t: Seq<TokenV>, i: int, acc: Seq<CommandV>)
    requires
        extends_with_semicolon(a, t),
        0 <= i <= a.len(),
        p_pipeline_rest(a, i, acc) is Ok,
    ensures
        p_pipeline_rest(t, i, acc) == p_pipeline_rest(a, i, acc),
    decreases a.len() - i,
{
    lemma_command_items_prefix(a, t, i, empty_command());
    lemma_command_progress(a, i);
    let (c, j) = p_command(a, i)->Ok_0;
    lemma_tok_prefix(a, t, j);
    if is_at(a, j, TokenV::Pipeline) {
        lemma_pipeline_rest_prefix(a, t, j + 1, acc.push(c));
    }
}

proof fn lemma_pipeline_prefix(a: Seq<TokenV>, t: Seq<TokenV>, i: int)
    requires
        extends_with_semicolon(a, t),
        0 <= i <= a.len(),
        p_pipeline(a, i) is Ok,
    ensures
        p_pipeline(t, i) == p_pipeline(a, i),
        p_pipeline(a, i)->Ok_0.1 <= a.len(),
{
    lemma_command_items_prefix(a, t, i, empty_command());
    lemma_command_progress(a, i);
    lemma_pipeline_progress(a, i);
    let (c, j) = p_command(a, i)->Ok_0;
    lemma_tok_prefix(a, t, j);
    if is_at(a, j, TokenV::Pipeline) {
        lemma_pipeline_rest_prefix(a, t, j + 1, seq![c]);
    }
}

proof fn lemma_and_or_rest_prefix(a: Seq<TokenV>, t: Seq<TokenV>, i: int, left: AstV)
    requires
        extends_with_semicolon(a, t),
        0 <= i <= a.len(),
        p_and_or_rest(a, i, left) is Ok,
    ensures
        p_and_or_rest(t, i, left) == p_and_or_rest(a, i, left),
    decreases a.len() - i,
{
    lemma_tok_prefix(a, t, i);
    if is_at(a, i, TokenV::AndAnd) || is_at(a, i, TokenV::OrOr) {
        lemma_pipeline_prefix(a, t, i + 1);
        let (right, j) = p_pipeline(a, i + 1)->Ok_0;
        lemma_pipeline_progress(a, i + 1);
        if is_at(a, i, TokenV::AndAnd) {
            lemma_and_or_rest_prefix(a, t, j, AstV::AndIf(Box::new(left), Box::new(right)));
        } else {
            lemma_and_or_rest_prefix(a, t, j, AstV::OrIf(Box::new(left), Box::new(right)));
        }
    }
}

proof fn lemma_and_or_prefix(a: Seq<TokenV>, t: Seq<TokenV>, i: int)
    requires
        extends_with_semicolon(a, t),
        0 <= i <= a.len(),
        p_and_or(a, i) is Ok,
    ensures
        p_and_or(t, i) == p_and_or(a, i),
{
    lemma_pipeline_prefix(a, t, i);
    lemma_pipeline_progress(a, i);
    let (left, j) = p_pipeline(a, i)->Ok_0;
    lemma_and_or_rest_prefix(a, t, j, left);
}

/// A token list without `;` that parses to a tree is one and-or list that
/// takes all of it.
proof fn lemma_single_list(ts: Seq<TokenV>, x: AstV)
    requires
        parse_spec(ts) == Ok::<Option<AstV>, PErr>(Some(x)),
        !ts.contains(TokenV::Semicolon),
    ensures
        p_and_or(ts, 0) == Ok::<(AstV, int), PErr>((x, ts.len() as int)),
{
    lemma_and_or_progress(ts, 0);
    let (a, j) = p_and_or(ts, 0)->Ok_0;
    if j < ts.len() {
        assert(ts[j] != TokenV::Semicolon);
    }
}

/// Law: a `;` list keeps source order: when two token lists without `;`
/// parse on their own to trees `a` and `b`, the two joined by a `;` parse to
/// the list of `a` then `b`, so `a` runs first.
pub proof fn law_semicolon_lists_keep_source_order(ta: Seq<TokenV>, tb: Seq<TokenV>, a: AstV, b: AstV)
    requires
        parse_spec(ta) == Ok::<Option<AstV>, PErr>(Some(a)),
        parse_spec(tb) == Ok::<Option<AstV>, PErr>(Some(b)),
        !ta.contains(TokenV::Semicolon),
        !tb.contains(TokenV::Semicolon),
    ensures
        parse_spec(ta + seq![TokenV::Semicolon] + tb) == Ok::<Option<AstV>, PErr>(
            Some(AstV::Sequence(seq![a, b])),
        ),
{
    let p = ta + seq![TokenV::Semicolon];
    let t = p + tb;
    lemma_single_list(ta, a);
    lemma_single_list(tb, b);
    assert(extends_with_semicolon(ta, t)) by {
        assert forall|k: int| 0 <= k < ta.len() implies t[k] == ta[k] by {}
        assert(t[ta.len() as int] == TokenV::Semicolon);
    }
    lemma_and_or_prefix(ta, t, 0);
    assert(p_and_or(t, 0) == Ok::<(AstV, int), PErr>((a, ta.len() as int)));
    assert(is_at(t, ta.len() as int, TokenV::Semicolon));
    lemma_and_or_shift(p, tb, 0);
    assert(p_and_or(t, ta.len() + 1int) == Ok::<(AstV, int), PErr>((b, t.len() as int)));
    assert(!is_at(t, t.len() as int, TokenV::Semicolon));
    assert(seq![a].push(b) =~= seq![a, b]);
    assert(sequence_of(seq![a, b]) == Ok::<AstV, PErr>(AstV::Sequence(seq![a, b])));
    assert(p_sequence_rest(t, t.len() as int, seq![a, b]) == Ok::<(AstV, int), PErr>(
        (AstV::Sequence(seq![a, b]), t.len() as int),
    ));
    assert(p_sequence_rest(t, ta.len() as int, seq![a]) == p_sequence_rest(t, t.len() as int, seq![a].push(b)));
    assert(p_sequence(t, 0) == Ok::<(AstV, int), PErr>((AstV::Sequence(seq![a, b]), t.len() as int)));
}

/// Law: `&&` and `||` group to the left, pipelines bind tighter than both,
/// and `;` binds loosest: every tree the parser gives is an and-or list, or
/// a `;` list of at least two and-or lists, in which each `&&` and `||`
/// has a single command or a pipeline on its right.
pub proof fn law_parsed_trees_group_operators(ts: Seq<TokenV>)
    ensures
        parse_spec(ts) matches Ok(Some(a)) ==> tree_shape(a),
{
    lemma_and_or_shape(ts, 0);
    if let Ok((a, j)) = p_and_or(ts, 0) {
        lemma_sequence_rest_shape(ts, j, seq![a]);
    }
}

/// The value of an optional syntax tree.
pub open spec fn opt_ast_view(a: Option<Ast>) -> Option<AstV> {
    match a {
        Some(a) => Some(a@),
        None => None,
    }
}

pub proof fn lemma_asts_view_push(s: Seq<Ast>, a: Ast)
    ensures
        asts_view(s.push(a)) == asts_view(s).push(a@),
{
    assert(s.push(a).drop_last() == s);
}

pub proof fn lemma_asts_view_len(s: Seq<Ast>)
    ensures
        asts_view(s).len() == s.len(),
        forall|k: int| 0 <= k < s.len() ==> #[trigger] asts_view(s)[k] == s[k]@,
    decreases s.len(),
{
    if s.len() > 0 {
        lemma_asts_view_len(s.drop_last());
        assert forall|k: int| 0 <= k < s.len() implies #[trigger] asts_view(s)[k] == s[k]@ by {
            if k < s.len() - 1 {
                assert(s.drop_last()[k] == s[k]);
            }
        }
    }
}

/// A one-shot parser over a list of tokens.
pub struct Parser {
    /// The tokens still to be read, the next one last.
    tokens: Vec<Token>,
    /// All the tokens the parser was created with.
    all: Ghost<Seq<TokenV>>,
}

impl Parser {
    /// All the tokens the parser was created with.
    pub closed spec fn input(&self) -> Seq<TokenV> {
        self.all@
    }

    /// The position of the next token to read.
    pub closed spec fn pos(&self) -> int {
        self.all@.len() - self.tokens@.len()
    }

    pub closed spec fn wf(&self) -> bool {
        &&& self.tokens@.len() <= self.all@.len()
        &&& forall|k: int|
            0 <= k < self.tokens@.len() ==> #[trigger] self.tokens@[k]@ == self.all@[self.all@.len()
                - 1 - k]
    }

    /// The parser has not read anything yet.
    pub open spec fn fresh(&self) -> bool {
        self.wf() && self.pos() == 0
    }

    /// A parser over `tokens`, in the given order.
    pub fn new(tokens: Vec<Token>) -> (p: Parser)
        ensures
            p.fresh(),
            p.input() == tokens_view(tokens@),
    {
        let ghost all = tokens_view(tokens@);
        let ghost n = tokens@.len();
        let mut src = tokens;
        let mut rev: Vec<Token> = Vec::new();
        while src.len() > 0
            invariant
                n == all.len(),
                rev@.len() + src@.len() == n,
                forall|k: int| 0 <= k < src@.len() ==> #[trigger] src@[k]@ == all[k],
                forall|k: int| 0 <= k < rev@.len() ==> #[trigger] rev@[k]@ == all[n - 1 - k],
            decreases src@.len(),
        {
            match src.pop() {
                Some(t) => {
                    rev.push(t);
                },
                None => {},
            }
        }
        Parser { tokens: rev, all: Ghost(all) }
    }

    /// The next token, without reading it.
    fn peek(&self) -> (r: Option<&Token>)
        requires
            self.wf(),
        ensures
            match r {
                Some(t) => tok_at(self.input(), self.pos()) == Some(t@),
                None => tok_at(self.input(), self.pos()) is None,
            },
    {
        let n = self.tokens.len();
        if n == 0 {
            None
        } else {
            Some(&self.tokens[n - 1])
        }
    }

    /// Reads the next token.
    fn next(&mut self) -> (r: Option<Token>)
        requires
            old(self).wf(),
        ensures
            final(self).wf(),
            final(self).input() == old(self).input(),
            opt_token_view(r) == tok_at(old(self).input(), old(self).pos()),
            final(self).pos() == old(self).pos() + if r is Some { 1int } else { 0int },
    {
        self.tokens.pop()
    }

    /// Reads the next token when it is the control operator `op`.
    fn next_if_operator(&mut self, op: &Token) -> (b: bool)
        requires
            old(self).wf(),
            op is AndAnd || op is OrOr || op is Pipeline || op is Semicolon,
        ensures
            final(self).wf(),
            final(self).input() == old(self).input(),
            b == is_at(old(self).input(), old(self).pos(), op@),
            final(self).pos() == old(self).pos() + if b { 1int } else { 0int },
    {
        let matches = match (self.peek(), op) {
            (Some(Token::AndAnd), Token::AndAnd) => true,
            (Some(Token::OrOr), Token::OrOr) => true,
            (Some(Token::Pipeline), Token::Pipeline) => true,
            (Some(Token::Semicolon), Token::Semicolon) => true,
            _ => false,
        };
        if matches {
            self.next();
        }
        matches
    }

    /// Whether all tokens have been read.
    fn at_end(&self) -> (b: bool)
        requires
            self.wf(),
        ensures
            b == (self.pos() >= self.input().len()),
    {
        self.tokens.len() == 0
    }

    /// Parses a redirection: an optional I/O number, an operator and a word.
    fn parse_redirection(&mut self) -> (r: Result<Redirection, ParserError>)
        requires
            old(self).wf(),
        ensures
            match (r, p_redirection(old(self).input(), old(self).pos())) {
                (Ok(rd), Ok((rv, j))) => {
                    &&& rd@ == rv
                    &&& final(self).pos() == j
                    &&& final(self).wf()
                    &&& final(self).input() == old(self).input()
                },
                (Err(e), Err(ev)) => e@ == ev,
                _ => false,
            },
    {
        let redirected_fd = match self.peek() {
            Some(Token::IoNumber(n)) => {
                let fd = *n;
                self.next();
                fd
            },
            Some(Token::Redirect(operator)) => operator.default_fd(),
            _ => 0,
        };
        let operator = match self.next() {
            Some(Token::Redirect(operator)) => operator,
            Some(token) => {
                return Err(ParserError::ExpectRedirectOperator { found: Some(token) });
            },
            None => {
                return Err(ParserError::ExpectRedirectOperator { found: None });
            },
        };
        let operand = match self.next() {
            Some(Token::Word(word)) => word,
            Some(token) => {
                return Err(ParserError::ExpectRedirectionOperand { found: Some(token) });
            },
            None => {
                return Err(ParserError::ExpectRedirectionOperand { found: None });
            },
        };
        Ok(Redirection { redirected_fd, operator, operand })
    }

    /// Parses one command with its redirections, both kept in source order.
    fn parse_command(&mut self) -> (r: Result<Command, ParserError>)
        requires
            old(self).wf(),
        ensures
            match (r, p_command(old(self).input(), old(self).pos())) {
                (Ok(c), Ok((cv, j))) => {
                    &&& c@ == cv
                    &&& final(self).pos() == j
                    &&& final(self).wf()
                    &&& final(self).input() == old(self).input()
                },
                (Err(e), Err(ev)) => {
                    &&& e@ == ev
                    &&& (ev is ExpectCommand ==> final(self).pos() == old(self).pos() && final(self).wf()
                        && final(self).input() == old(self).input())
                },
                _ => false,
            },
    {
        let ghost ts = self.input();
        let ghost i0 = self.pos();
        let mut args: Vec<Word> = Vec::new();
        let mut redirections: Vec<Redirection> = Vec::new();
        assert(words_view(args@) =~= seq![]);
        assert(redirections_view(redirections@) =~= seq![]);
        loop
            invariant
                self.wf(),
                self.input() == ts,
                ts == old(self).input(),
                i0 == old(self).pos(),
                0 <= self.pos() <= ts.len(),
                p_command_items(ts, i0, empty_command()) == p_command_items(
                    ts,
                    self.pos(),
                    CommandV { args: words_view(args@), redirections: redirections_view(redirections@) },
                ),
            ensures
                self.wf(),
                self.input() == ts,
                p_command_items(ts, i0, empty_command()) == Ok::<(CommandV, int), PErr>(
                    (
                        CommandV { args: words_view(args@), redirections: redirections_view(redirections@) },
                        self.pos(),
                    ),
                ),
            decreases self.tokens@.len(),
        {
            let is_word = match self.peek() {
                Some(Token::Word(_)) => 1u8,
                Some(Token::IoNumber(_)) | Some(Token::Redirect(_)) => 2u8,
                _ => 0u8,
            };
            if is_word == 1 {
                match self.next() {
                    Some(Token::Word(word)) => {
                        let ghost before = args@;
                        let ghost wv = word@;
                        args.push(word);
                        assert(words_view(args@) =~= words_view(before).push(wv));
                    },
                    _ => {},
                }
            } else if is_word == 2 {
                let ghost p = self.pos();
                let ghost acc = CommandV {
                    args: words_view(args@),
                    redirections: redirections_view(redirections@),
                };
                let redirection = match self.parse_redirection() {
                    Ok(rd) => rd,
                    Err(e) => {
                        assert(p_command_items(ts, p, acc) == Err::<(CommandV, int), PErr>(e@));
                        return Err(e);
                    },
                };
                let ghost before = redirections@;
                let ghost rv = redirection@;
                redirections.push(redirection);
                assert(redirections_view(redirections@) =~= redirections_view(before).push(rv));
            } else {
                break;
            }
        }
        if args.len() == 0 && redirections.len() == 0 {
            proof {
                lemma_command_items_progress(ts, i0, empty_command());
            }
            return Err(ParserError::ExpectCommand);
        }
        Ok(Command { args, redirections })
    }

    /// Parses a pipeline: commands joined by `|`, or a lone command.
    fn parse_pipeline(&mut self) -> (r: Result<Ast, ParserError>)
        requires
            old(self).wf(),
        ensures
            match (r, p_pipeline(old(self).input(), old(self).pos())) {
                (Ok(a), Ok((av, j))) => {
                    &&& a@ == av
                    &&& final(self).pos() == j
                    &&& final(self).wf()
                    &&& final(self).input() == old(self).input()
                },
                (Err(e), Err(ev)) => e@ == ev,
                _ => false,
            },
    {
        let ghost ts = self.input();
        let first = self.parse_command()?;
        if !self.next_if_operator(&Token::Pipeline) {
            return Ok(Ast::Command(first));
        }
        let mut commands: Vec<Command> = Vec::new();
        let ghost fv = first@;
        commands.push(first);
        assert(commands_view(commands@) =~= seq![fv]);
        loop
            invariant
                self.wf(),
                self.input() == ts,
                ts == old(self).input(),
                commands@.len() >= 1,
                p_pipeline(ts, old(self).pos()) == p_pipeline_rest(
                    ts,
                    self.pos(),
                    commands_view(commands@),
                ),
            decreases self.tokens@.len(),
        {
            let ghost p = self.pos();
            let ghost acc = commands_view(commands@);
            let command = match self.parse_command() {
                Ok(c) => c,
                Err(e) => {
                    assert(p_pipeline_rest(ts, p, acc) == Err::<(AstV, int), PErr>(e@));
                    return Err(e);
                },
            };
            proof {
                lemma_command_progress(ts, p);
            }
            let ghost cv = command@;
            commands.push(command);
            assert(commands_view(commands@) =~= acc.push(cv));
            if !self.next_if_operator(&Token::Pipeline) {
                return Ok(Ast::Pipeline { commands });
            }
        }
    }

    /// Parses an and-or list; `&&` and `||` group to the left.
    fn parse_and_or(&mut self) -> (r: Result<Ast, ParserError>)
        requires
            old(self).wf(),
        ensures
            match (r, p_and_or(old(self).input(), old(self).pos())) {
                (Ok(a), Ok((av, j))) => {
                    &&& a@ == av
                    &&& final(self).pos() == j
                    &&& final(self).wf()
                    &&& final(self).input() == old(self).input()
                },
                (Err(e), Err(ev)) => e@ == ev,
                _ => false,
            },
    {
        let ghost ts = self.input();
        let mut left = self.parse_pipeline()?;
        loop
            invariant
                self.wf(),
                self.input() == ts,
                ts == old(self).input(),
                p_and_or(ts, old(self).pos()) == p_and_or_rest(ts, self.pos(), left@),
            decreases self.tokens@.len(),
        {
            let ghost p = self.pos();
            let ghost lv = left@;
            if self.next_if_operator(&Token::AndAnd) {
                if self.at_end() {
                    return Err(ParserError::MissingCommandAfterAndIf);
                }
                let right = match self.parse_pipeline() {
                    Ok(a) => a,
                    Err(e) => {
                        assert(p_and_or_rest(ts, p, lv) == Err::<(AstV, int), PErr>(e@));
                        return Err(e);
                    },
                };
                proof {
                    lemma_pipeline_progress(ts, p + 1);
                }
                left = Ast::AndIf { left: Box::new(left), right: Box::new(right) };
            } else if self.next_if_operator(&Token::OrOr) {
                if self.at_end() {
                    return Err(ParserError::MissingCommandAfterOrIf);
                }
                let right = match self.parse_pipeline() {
                    Ok(a) => a,
                    Err(e) => {
                        assert(p_and_or_rest(ts, p, lv) == Err::<(AstV, int), PErr>(e@));
                        return Err(e);
                    },
                };
                proof {
                    lemma_pipeline_progress(ts, p + 1);
                }
                left = Ast::OrIf { left: Box::new(left), right: Box::new(right) };
            } else {
                return Ok(left);
            }
        }
    }

    /// Parses `;`-separated and-or lists; a lone list stands alone.
    fn parse_sequence(&mut self) -> (r: Result<Ast, ParserError>)
        requires
            old(self).wf(),
        ensures
            match (r, p_sequence(old(self).input(), old(self).pos())) {
                (Ok(a), Ok((av, j))) => {
                    &&& a@ == av
                    &&& final(self).pos() == j
                    &&& final(self).wf()
                    &&& final(self).input() == old(self).input()
                },
                (Err(e), Err(ev)) => e@ == ev,
                _ => false,
            },
    {
        let ghost ts = self.input();
        let first = self.parse_and_or()?;
        let mut sequence: Vec<Ast> = Vec::new();
        let ghost fv = first@;
        sequence.push(first);
        proof {
            lemma_asts_view_push(seq![], sequence@[0]);
            assert(sequence@ == seq![].push(sequence@[0]));
            assert(asts_view(seq![]) == Seq::<AstV>::empty());
            assert(asts_view(sequence@) =~= seq![fv]);
        }
        loop
            invariant
                self.wf(),
                self.input() == ts,
                ts == old(self).input(),
                p_sequence(ts, old(self).pos()) == p_sequence_rest(
                    ts,
                    self.pos(),
                    asts_view(sequence@),
                ),
            ensures
                self.wf(),
                self.input() == ts,
                p_sequence(ts, old(self).pos()) == p_sequence_rest(
                    ts,
                    self.pos(),
                    asts_view(sequence@),
                ),
                !is_at(ts, self.pos(), TokenV::Semicolon),
            decreases self.tokens@.len(),
        {
            let ghost p = self.pos();
            let ghost acc = asts_view(sequence@);
            if !self.next_if_operator(&Token::Semicolon) {
                break;
            }
            let item = match self.parse_and_or() {
                Ok(a) => a,
                Err(e) => {
                    assert(p_sequence_rest(ts, p, acc) == Err::<(AstV, int), PErr>(e@));
                    return Err(e);
                },
            };
            proof {
                lemma_and_or_progress(ts, p + 1);
                lemma_asts_view_push(sequence@, item);
            }
            sequence.push(item);
        }
        proof {
            lemma_asts_view_len(sequence@);
        }
        if sequence.len() > 1 {
            Ok(Ast::Sequence(sequence))
        } else {
            match sequence.pop() {
                Some(a) => Ok(a),
                None => Err(ParserError::UnexpectedError),
            }
        }
    }

    /// Parses the whole token list.
    ///
    /// No tokens give `Ok(None)`; otherwise the tokens must form a single
    /// sequence with nothing left over. The result is exactly
    /// [`parse_spec`] of the tokens the parser was created with.
    pub fn parse(self) -> (r: Result<Option<Ast>, ParserError>)
        requires
            self.fresh(),
        ensures
            match (r, parse_spec(self.input())) {
                (Ok(a), Ok(av)) => opt_ast_view(a) == av,
                (Err(e), Err(ev)) => e@ == ev,
                _ => false,
            },
    {
        let mut p = self;
        if p.at_end() {
            return Ok(None);
        }
        let ast = p.parse_sequence()?;
        match p.next() {
            Some(token) => Err(ParserError::UnexpectedToken(token)),
            None => Ok(Some(ast)),
        }
    }
}

} // verus!
