//! Tokens produced by the lexer and consumed by the parser.

use vstd::prelude::*;

verus! {

/// The redirection operators the shell understands.
#[derive(Debug, Clone, Copy, PartialEq, Eq, Structural)]
pub enum RedirectOperator {
    /// `<`: read from a file.
    Input,
    /// `>`: write to a file, truncating it.
    OutputTruncate,
    /// `>>`: append to a file.
    OutputAppend,
    /// `>&`: duplicate an output descriptor.
    DuplicateOutput,
    /// `<&`: duplicate an input descriptor.
    DuplicateInput,
}

/// The descriptor an operator redirects when no number precedes it.
pub open spec fn spec_default_fd(op: RedirectOperator) -> i32 {
    match op {
        RedirectOperator::Input | RedirectOperator::DuplicateInput => 0,
        _ => 1,
    }
}

impl RedirectOperator {
    /// The file descriptor this operator acts on by default: 0 for the input
    /// operators, 1 for the output operators.
    pub fn default_fd(self) -> (fd: i32)
        ensures
            fd == spec_default_fd(self),
    {
        match self {
            RedirectOperator::Input | RedirectOperator::DuplicateInput => 0,
            RedirectOperator::OutputAppend
            | RedirectOperator::OutputTruncate
            | RedirectOperator::DuplicateOutput => 1,
        }
    }
}

/// One piece of a word, keeping the quoting it was written with.
#[derive(Debug, PartialEq, Eq, Clone)]
pub enum WordPart {
    SingleQuoted(String),
    DoubleQuoted(String),
    Unquoted(String),
    Escaped(char),
}

/// The mathematical value of a [`WordPart`].
pub enum PartV {
    SingleQuoted(Seq<char>),
    DoubleQuoted(Seq<char>),
    Unquoted(Seq<char>),
    Escaped(char),
}

impl View for WordPart {
    type V = PartV;

    open spec fn view(&self) -> PartV {
        match self {
            WordPart::SingleQuoted(s) => PartV::SingleQuoted(s@),
            WordPart::DoubleQuoted(s) => PartV::DoubleQuoted(s@),
            WordPart::Unquoted(s) => PartV::Unquoted(s@),
            WordPart::Escaped(c) => PartV::Escaped(*c),
        }
    }
}

/// A shell word: its parts in source order.
#[derive(Debug, PartialEq, Eq, Clone)]
pub struct Word {
    parts: Vec<WordPart>,
}

/// The views of a list of word parts.
pub open spec fn parts_view(parts: Seq<WordPart>) -> Seq<PartV> {
    parts.map_values(|p: WordPart| p@)
}

impl View for Word {
    type V = Seq<PartV>;

    closed spec fn view(&self) -> Seq<PartV> {
        parts_view(self.parts@)
    }
}

impl Word {
    /// Builds a word from its parts, kept in the given order.
    pub fn from_parts(parts: Vec<WordPart>) -> (w: Word)
        ensures
            w@ == parts_view(parts@),
    {
        Word { parts }
    }

    /// The parts of the word in source order.
    pub fn parts(&self) -> (parts: &Vec<WordPart>)
        ensures
            parts_view(parts@) == self@,
    {
        &self.parts
    }

    /// Gives back the parts of the word in source order.
    pub fn into_parts(self) -> (parts: Vec<WordPart>)
        ensures
            parts_view(parts@) == self@,
    {
        self.parts
    }
}

/// A lexical token.
#[derive(Debug, PartialEq, Eq, Clone)]
pub enum Token {
    Word(Word),
    Redirect(RedirectOperator),
    IoNumber(i32),
    /// `&&`
    AndAnd,
    /// `||`
    OrOr,
    /// `|`
    Pipeline,
    /// `;`
    Semicolon,
}

/// The mathematical value of a [`Token`].
pub enum TokenV {
    Word(Seq<PartV>),
    Redirect(RedirectOperator),
    IoNumber(i32),
    AndAnd,
    OrOr,
    Pipeline,
    Semicolon,
}

impl View for Token {
    type V = TokenV;

    open spec fn view(&self) -> TokenV {
        match self {
            Token::Word(w) => TokenV::Word(w@),
            Token::Redirect(op) => TokenV::Redirect(*op),
            Token::IoNumber(n) => TokenV::IoNumber(*n),
            Token::AndAnd => TokenV::AndAnd,
            Token::OrOr => TokenV::OrOr,
            Token::Pipeline => TokenV::Pipeline,
            Token::Semicolon => TokenV::Semicolon,
        }
    }
}

/// The views of a list of tokens.
pub open spec fn tokens_view(tokens: Seq<Token>) -> Seq<TokenV> {
    tokens.map_values(|t: Token| t@)
}

} // verus!
