//! The lexer: turns a command line into tokens.
//!
//! The lexer is a small state machine over the characters of the line. Its
//! meaning is given by [`lex_spec`], a step function ([`step`]) run from the
//! first character to the last and then closed off by [`finish`]; the
//! executable [`Lexer`] is proved to compute exactly that.

use vstd::prelude::*;

use crate::text::{all_digits, chars_of, parse_digits_i32, parse_digits_to_i32, str_all_digits};
use crate::token::{
    parts_view, tokens_view, PartV, RedirectOperator, Token, TokenV, Word, WordPart,
};

verus! {

/// The quoting context the lexer is in.
#[derive(Debug, Clone, Copy, PartialEq, Eq, Structural)]
pub enum LexerState {
    Normal,
    InSingleQuote,
    InDoubleQuote,
}

/// Failures of the state stack.
#[derive(Debug, Clone, Copy, PartialEq, Eq, Structural)]
pub enum LexerStateError {
    EmptyStack,
    CannotPushBaseState,
    CannotPopBaseState,
}

/// Errors reported by [`Lexer::lex`].
#[derive(Debug, PartialEq, Eq)]
pub enum LexerError {
    InvalidStateTransition(LexerStateError),
    IncompleteEscape,
    UnclosedSingleQuote,
    UnclosedDoubleQuote,
    UnsupportedOperator(&'static str),
    InvalidIoNumber(String),
    UnexpectedError(String),
}

/// The mathematical value of a [`LexerError`].
pub enum LexFailure {
    InvalidStateTransition(LexerStateError),
    IncompleteEscape,
    UnclosedSingleQuote,
    UnclosedDoubleQuote,
    UnsupportedOperator(Seq<char>),
    InvalidIoNumber(Seq<char>),
    UnexpectedError(Seq<char>),
}

impl View for LexerError {
    type V = LexFailure;

    open spec fn view(&self) -> LexFailure {
        match self {
            LexerError::InvalidStateTransition(e) => LexFailure::InvalidStateTransition(*e),
            LexerError::IncompleteEscape => LexFailure::IncompleteEscape,
            LexerError::UnclosedSingleQuote => LexFailure::UnclosedSingleQuote,
            LexerError::UnclosedDoubleQuote => LexFailure::UnclosedDoubleQuote,
            LexerError::UnsupportedOperator(s) => LexFailure::UnsupportedOperator(s@),
            LexerError::InvalidIoNumber(s) => LexFailure::InvalidIoNumber(s@),
            LexerError::UnexpectedError(s) => LexFailure::UnexpectedError(s@),
        }
    }
}

// ---------------------------------------------------------------------------
// The state stack
// ---------------------------------------------------------------------------

/// A stack of lexer states whose bottom is always [`LexerState::Normal`].
pub struct LexerStateManager {
    state_stack: Vec<LexerState>,
}

impl View for LexerStateManager {
    type V = Seq<LexerState>;

    closed spec fn view(&self) -> Seq<LexerState> {
        self.state_stack@
    }
}

impl LexerStateManager {
    /// A stack holding only the base `Normal` state.
    pub fn new() -> (m: Self)
        ensures
            m@ == seq![LexerState::Normal],
    {
        LexerStateManager { state_stack: vec![LexerState::Normal] }
    }

    /// Pushes a quote state; pushing `Normal` is refused and leaves the stack
    /// unchanged.
    pub fn push(&mut self, state: LexerState) -> (r: Result<(), LexerStateError>)
        ensures
            state == LexerState::Normal ==> r == Err::<(), LexerStateError>(
                LexerStateError::CannotPushBaseState,
            ) && final(self)@ == old(self)@,
            state != LexerState::Normal ==> r is Ok && final(self)@ == old(self)@.push(state),
    {
        if state == LexerState::Normal {
            return Err(LexerStateError::CannotPushBaseState);
        }
        self.state_stack.push(state);
        Ok(())
    }

    /// Pops the top quote state. The base state is never popped: on a stack
    /// of one state this fails with `CannotPopBaseState`, on an empty stack
    /// with `EmptyStack`, and the stack is left unchanged.
    pub fn pop_quote_state(&mut self) -> (r: Result<(), LexerStateError>)
        ensures
            old(self)@.len() == 0 ==> r == Err::<(), LexerStateError>(LexerStateError::EmptyStack)
                && final(self)@ == old(self)@,
            old(self)@.len() == 1 ==> r == Err::<(), LexerStateError>(
                LexerStateError::CannotPopBaseState,
            ) && final(self)@ == old(self)@,
            old(self)@.len() > 1 ==> r is Ok && final(self)@ == old(self)@.drop_last(),
    {
        let n = self.state_stack.len();
        if n == 0 {
            Err(LexerStateError::EmptyStack)
        } else if n == 1 {
            Err(LexerStateError::CannotPopBaseState)
        } else {
            self.state_stack.pop();
            Ok(())
        }
    }

    /// The state on top of the stack.
    pub fn current(&self) -> (r: Result<LexerState, LexerStateError>)
        ensures
            self@.len() == 0 ==> r == Err::<LexerState, LexerStateError>(
                LexerStateError::EmptyStack,
            ),
            self@.len() > 0 ==> r == Ok::<LexerState, LexerStateError>(self@.last()),
    {
        let n = self.state_stack.len();
        if n == 0 {
            Err(LexerStateError::EmptyStack)
        } else {
            Ok(self.state_stack[n - 1])
        }
    }
}

// ---------------------------------------------------------------------------
// The word builder
// ---------------------------------------------------------------------------

/// The value of a word under construction: the finished parts and the
/// characters collected for the part being read.
pub struct BuilderV {
    pub parts: Seq<PartV>,
    pub buffer: Seq<char>,
}

pub open spec fn empty_builder() -> BuilderV {
    BuilderV { parts: seq![], buffer: seq![] }
}

pub open spec fn b_push_char(b: BuilderV, c: char) -> BuilderV {
    BuilderV { parts: b.parts, buffer: b.buffer.push(c) }
}

/// Closes the pending unquoted text, if there is any.
pub open spec fn b_finish_unquoted(b: BuilderV) -> BuilderV {
    if b.buffer.len() == 0 {
        b
    } else {
        BuilderV { parts: b.parts.push(PartV::Unquoted(b.buffer)), buffer: seq![] }
    }
}

/// Closes a single-quoted part, even an empty one.
pub open spec fn b_finish_single(b: BuilderV) -> BuilderV {
    BuilderV { parts: b.parts.push(PartV::SingleQuoted(b.buffer)), buffer: seq![] }
}

/// Closes a double-quoted part, even an empty one.
pub open spec fn b_finish_double(b: BuilderV) -> BuilderV {
    BuilderV { parts: b.parts.push(PartV::DoubleQuoted(b.buffer)), buffer: seq![] }
}

pub open spec fn b_push_escaped(b: BuilderV, c: char) -> BuilderV {
    let b1 = b_finish_unquoted(b);
    BuilderV { parts: b1.parts.push(PartV::Escaped(c)), buffer: b1.buffer }
}

pub open spec fn b_push_double_quoted_escaped(b: BuilderV, c: char) -> BuilderV {
    let b1 = b_finish_double(b);
    BuilderV { parts: b1.parts.push(PartV::Escaped(c)), buffer: b1.buffer }
}

/// The parts of the finished word.
pub open spec fn b_finish(b: BuilderV) -> Seq<PartV> {
    b_finish_unquoted(b).parts
}

/// The builder is an I/O number: nothing but unquoted ASCII digits.
pub open spec fn b_is_io_number(b: BuilderV) -> bool {
    b.parts.len() == 0 && b.buffer.len() > 0 && all_digits(b.buffer)
}

/// The token a word becomes when a redirection operator follows it.
pub open spec fn b_finish_before_redirect(b: BuilderV) -> Result<TokenV, LexFailure> {
    if b_is_io_number(b) {
        match parse_digits_i32(b.buffer) {
            Some(n) => Ok(TokenV::IoNumber(n)),
            None => Err(LexFailure::InvalidIoNumber(b.buffer)),
        }
    } else {
        Ok(TokenV::Word(b_finish(b)))
    }
}

/// Incrementally builds a [`Word`].
pub struct WordBuilder {
    parts: Vec<WordPart>,
    buffer: String,
}

impl View for WordBuilder {
    type V = BuilderV;

    closed spec fn view(&self) -> BuilderV {
        BuilderV { parts: parts_view(self.parts@), buffer: self.buffer@ }
    }
}

impl WordBuilder {
    pub fn new() -> (b: Self)
        ensures
            b@ == empty_builder(),
    {
        let b = WordBuilder { parts: Vec::new(), buffer: String::new() };
        assert(b@.parts =~= seq![]);
        b
    }

    /// Appends a plain character to the pending part.
    pub fn push_char(&mut self, c: char)
        ensures
            final(self)@ == b_push_char(old(self)@, c),
    {
        self.buffer.push(c);
    }

    fn take_buffer(&mut self) -> (s: String)
        ensures
            s@ == old(self)@.buffer,
            final(self)@ == (BuilderV { parts: old(self)@.parts, buffer: seq![] }),
    {
        let mut s = String::new();
        core::mem::swap(&mut s, &mut self.buffer);
        s
    }

    fn push_part(&mut self, part: WordPart)
        ensures
            final(self)@ == (BuilderV { parts: old(self)@.parts.push(part@), buffer: old(self)@.buffer }),
    {
        self.parts.push(part);
        assert(parts_view(self.parts@) == parts_view(old(self).parts@).push(part@));
    }

    /// Commits the pending text as an unquoted part unless it is empty.
    pub fn finish_unquoted_part(&mut self)
        ensures
            final(self)@ == b_finish_unquoted(old(self)@),
    {
        if self.buffer.as_str().is_empty() {
            return;
        }
        let s = self.take_buffer();
        self.push_part(WordPart::Unquoted(s));
    }

    /// Commits the pending text as a single-quoted part, even when empty.
    pub fn finish_single_quoted_part(&mut self)
        ensures
            final(self)@ == b_finish_single(old(self)@),
    {
        let s = self.take_buffer();
        self.push_part(WordPart::SingleQuoted(s));
    }

    /// Commits the pending text as a double-quoted part, even when empty.
    pub fn finish_double_quoted_part(&mut self)
        ensures
            final(self)@ == b_finish_double(old(self)@),
    {
        let s = self.take_buffer();
        self.push_part(WordPart::DoubleQuoted(s));
    }

    /// Closes the pending unquoted text and adds a backslash-protected
    /// character.
    pub fn push_escaped(&mut self, c: char)
        ensures
            final(self)@ == b_push_escaped(old(self)@, c),
    {
        self.finish_unquoted_part();
        self.push_part(WordPart::Escaped(c));
    }

    /// Closes the pending double-quoted text and adds a backslash-protected
    /// character.
    pub fn push_double_quoted_escaped(&mut self, c: char)
        ensures
            final(self)@ == b_push_double_quoted_escaped(old(self)@, c),
    {
        self.finish_double_quoted_part();
        self.push_part(WordPart::Escaped(c));
    }

    /// Finishes the word.
    pub fn finish(self) -> (w: Word)
        ensures
            w@ == b_finish(self@),
    {
        let mut b = self;
        b.finish_unquoted_part();
        Word::from_parts(b.parts)
    }

    /// Finishes the word in front of a redirection operator: nothing but
    /// unquoted digits gives an I/O number, anything else a word.
    pub fn finish_before_redirect(self) -> (r: Result<Token, LexerError>)
        ensures
            match (r, b_finish_before_redirect(self@)) {
                (Ok(t), Ok(tv)) => t@ == tv,
                (Err(e), Err(ev)) => e@ == ev,
                _ => false,
            },
    {
        let mut b = self;
        let is_io_number = b.parts.len() == 0 && !b.buffer.as_str().is_empty() && str_all_digits(
            b.buffer.as_str(),
        );
        if is_io_number {
            let text = b.take_buffer();
            return match parse_digits_to_i32(text.as_str()) {
                Some(fd) => Ok(Token::IoNumber(fd)),
                None => Err(LexerError::InvalidIoNumber(text)),
            };
        }
        Ok(Token::Word(b.finish()))
    }
}


// ---------------------------------------------------------------------------
// The meaning of lexing
// ---------------------------------------------------------------------------

/// The value of a lexer between two characters: the tokens emitted so far,
/// the word being built (if any) and the quoting context.
pub struct LexV {
    pub tokens: Seq<TokenV>,
    pub word: Option<BuilderV>,
    pub mode: LexerState,
}

pub open spec fn initial_lex_state() -> LexV {
    LexV { tokens: seq![], word: None, mode: LexerState::Normal }
}

pub open spec fn word_or_new(w: Option<BuilderV>) -> BuilderV {
    match w {
        Some(b) => b,
        None => empty_builder(),
    }
}

pub open spec fn set_word(st: LexV, b: BuilderV, mode: LexerState) -> LexV {
    LexV { tokens: st.tokens, word: Some(b), mode }
}

/// Emits the word being built, if any.
pub open spec fn finish_word(st: LexV) -> LexV {
    match st.word {
        Some(b) => LexV {
            tokens: st.tokens.push(TokenV::Word(b_finish(b))),
            word: None,
            mode: st.mode,
        },
        None => st,
    }
}

/// Ends the current word and emits an operator token.
pub open spec fn emit(st: LexV, t: TokenV) -> LexV {
    let s1 = finish_word(st);
    LexV { tokens: s1.tokens.push(t), word: s1.word, mode: s1.mode }
}

/// Ends the current word in front of a redirection operator.
pub open spec fn finish_before_redirect_st(st: LexV) -> Result<LexV, LexFailure> {
    match st.word {
        None => Ok(st),
        Some(b) => match b_finish_before_redirect(b) {
            Ok(t) => Ok(LexV { tokens: st.tokens.push(t), word: None, mode: st.mode }),
            Err(e) => Err(e),
        },
    }
}

/// The character after position `pos`, if there is one.
pub open spec fn lookahead(src: Seq<char>, pos: int) -> Option<char> {
    if 0 <= pos + 1 < src.len() {
        Some(src[pos + 1])
    } else {
        None
    }
}

/// Emits a redirection token after the word before it has been closed.
pub open spec fn redirect_with(
    st: LexV,
    op: RedirectOperator,
    extra: bool,
) -> Result<(LexV, bool), LexFailure> {
    match finish_before_redirect_st(st) {
        Ok(s1) => Ok(
            (LexV { tokens: s1.tokens.push(TokenV::Redirect(op)), word: s1.word, mode: s1.mode }, extra),
        ),
        Err(e) => Err(e),
    }
}

/// One step outside quotes. `src[pos]` is the character read; the boolean
/// says whether the character after it was consumed too.
pub open spec fn step_normal(src: Seq<char>, pos: int, st: LexV) -> Result<(LexV, bool), LexFailure> {
    let c = src[pos];
    let next = lookahead(src, pos);
    if c == '\'' {
        Ok((set_word(st, b_finish_unquoted(word_or_new(st.word)), LexerState::InSingleQuote), false))
    } else if c == '"' {
        Ok((set_word(st, b_finish_unquoted(word_or_new(st.word)), LexerState::InDoubleQuote), false))
    } else if c == '>' {
        if next == Some('>') {
            redirect_with(st, RedirectOperator::OutputAppend, true)
        } else if next == Some('&') {
            redirect_with(st, RedirectOperator::DuplicateOutput, true)
        } else {
            redirect_with(st, RedirectOperator::OutputTruncate, false)
        }
    } else if c == '<' {
        match finish_before_redirect_st(st) {
            Err(e) => Err(e),
            Ok(_) => if next == Some('<') {
                Err(LexFailure::UnsupportedOperator(seq!['<', '<']))
            } else if next == Some('&') {
                redirect_with(st, RedirectOperator::DuplicateInput, true)
            } else {
                redirect_with(st, RedirectOperator::Input, false)
            },
        }
    } else if c == '&' {
        if next == Some('&') {
            Ok((emit(st, TokenV::AndAnd), true))
        } else {
            Err(LexFailure::UnsupportedOperator(seq!['&']))
        }
    } else if c == '|' {
        if next == Some('|') {
            Ok((emit(st, TokenV::OrOr), true))
        } else {
            Ok((emit(st, TokenV::Pipeline), false))
        }
    } else if c == '\\' {
        match next {
            Some(n) => Ok((set_word(st, b_push_escaped(word_or_new(st.word), n), st.mode), true)),
            None => Err(LexFailure::IncompleteEscape),
        }
    } else if c == ';' {
        Ok((emit(st, TokenV::Semicolon), false))
    } else if c == ' ' || c == '\t' {
        Ok((finish_word(st), false))
    } else {
        Ok((set_word(st, b_push_char(word_or_new(st.word), c), st.mode), false))
    }
}

/// One step inside single quotes: everything is literal up to the next `'`.
pub open spec fn step_single(src: Seq<char>, pos: int, st: LexV) -> (LexV, bool) {
    let c = src[pos];
    let b = word_or_new(st.word);
    if c == '\'' {
        (set_word(st, b_finish_single(b), LexerState::Normal), false)
    } else {
        (set_word(st, b_push_char(b, c), st.mode), false)
    }
}

/// The characters a backslash protects inside double quotes.
pub open spec fn is_double_quote_escapable(c: char) -> bool {
    c == '"' || c == '\\' || c == '$' || c == '`'
}

/// One step inside double quotes: a backslash protects `"`, `\`, `$` and a
/// backquote, drops a following newline, and is kept literally otherwise.
pub open spec fn step_double(src: Seq<char>, pos: int, st: LexV) -> (LexV, bool) {
    let c = src[pos];
    let next = lookahead(src, pos);
    let b = word_or_new(st.word);
    if c == '"' {
        (set_word(st, b_finish_double(b), LexerState::Normal), false)
    } else if c == '\\' {
        match next {
            Some(e) => if is_double_quote_escapable(e) {
                (set_word(st, b_push_double_quoted_escaped(b, e), st.mode), true)
            } else if e == '\n' {
                (st, true)
            } else {
                (set_word(st, b_push_char(b, '\\'), st.mode), false)
            },
            None => (set_word(st, b_push_char(b, '\\'), st.mode), false),
        }
    } else {
        (set_word(st, b_push_char(b, c), st.mode), false)
    }
}

/// One step of the lexer in its current quoting context.
pub open spec fn step(src: Seq<char>, pos: int, st: LexV) -> Result<(LexV, bool), LexFailure> {
    match st.mode {
        LexerState::Normal => step_normal(src, pos, st),
        LexerState::InSingleQuote => Ok(step_single(src, pos, st)),
        LexerState::InDoubleQuote => Ok(step_double(src, pos, st)),
    }
}

/// What remains of the input once it is exhausted: an open quote is an
/// error, otherwise the last word is emitted.
pub open spec fn finish(st: LexV) -> Result<Seq<TokenV>, LexFailure> {
    match st.mode {
        LexerState::InDoubleQuote => Err(LexFailure::UnclosedDoubleQuote),
        LexerState::InSingleQuote => Err(LexFailure::UnclosedSingleQuote),
        LexerState::Normal => Ok(finish_word(st).tokens),
    }
}

/// The position after a step from `pos`.
pub open spec fn next_pos(src: Seq<char>, pos: int, extra: bool) -> int {
    let p = pos + 1 + if extra { 1int } else { 0int };
    if p <= src.len() {
        p
    } else {
        src.len() as int
    }
}

/// Runs the lexer from position `pos` in state `st` to the end of `src`.
pub open spec fn run(src: Seq<char>, pos: int, st: LexV) -> Result<Seq<TokenV>, LexFailure>
    decreases src.len() - pos,
{
    if pos < 0 || pos >= src.len() {
        finish(st)
    } else {
        match step(src, pos, st) {
            Ok((st2, extra)) => run(src, next_pos(src, pos, extra), st2),
            Err(e) => Err(e),
        }
    }
}

/// The tokens of a command line, or the error that stops lexing it.
pub open spec fn lex_spec(src: Seq<char>) -> Result<Seq<TokenV>, LexFailure> {
    run(src, 0, initial_lex_state())
}

/// Every I/O number is directly followed by a redirection operator.
pub open spec fn io_numbers_ok(ts: Seq<TokenV>) -> bool {
    forall|i: int|
        0 <= i < ts.len() && (#[trigger] ts[i]) is IoNumber ==> i + 1 < ts.len() && ts[i + 1] is Redirect
}

/// Every word has at least one part.
pub open spec fn words_ok(ts: Seq<TokenV>) -> bool {
    forall|i: int| 0 <= i < ts.len() && (#[trigger] ts[i]) is Word ==> ts[i]->Word_0.len() > 0
}

/// What holds between two characters: the tokens so far are well formed,
/// and outside quotes a word under construction is not empty.
pub open spec fn lex_inv(st: LexV) -> bool {
    &&& io_numbers_ok(st.tokens)
    &&& words_ok(st.tokens)
    &&& (st.mode == LexerState::Normal && st.word is Some) ==> (st.word->0.parts.len() > 0
        || st.word->0.buffer.len() > 0)
}

proof fn lemma_push_token(ts: Seq<TokenV>, t: TokenV)
    requires
        io_numbers_ok(ts),
        words_ok(ts),
        !(t is IoNumber),
        t is Word ==> t->Word_0.len() > 0,
    ensures
        io_numbers_ok(ts.push(t)),
        words_ok(ts.push(t)),
{
    let ts2 = ts.push(t);
    assert forall|i: int| 0 <= i < ts2.len() && (#[trigger] ts2[i]) is IoNumber implies i + 1 < ts2.len()
        && ts2[i + 1] is Redirect by {
        assert(ts2[i] == ts[i]);
    }
    assert forall|i: int| 0 <= i < ts2.len() && (#[trigger] ts2[i]) is Word implies ts2[i]->Word_0.len() > 0 by {
        if i < ts.len() {
            assert(ts2[i] == ts[i]);
        }
    }
}

proof fn lemma_finish_word_inv(st: LexV)
    requires
        lex_inv(st),
        st.mode == LexerState::Normal,
    ensures
        lex_inv(finish_word(st)),
        finish_word(st).mode == LexerState::Normal,
{
    if let Some(b) = st.word {
        lemma_push_token(st.tokens, TokenV::Word(b_finish(b)));
    }
}

proof fn lemma_emit_inv(st: LexV, t: TokenV)
    requires
        lex_inv(st),
        st.mode == LexerState::Normal,
        !(t is IoNumber),
        !(t is Word),
    ensures
        lex_inv(emit(st, t)),
{
    lemma_finish_word_inv(st);
    lemma_push_token(finish_word(st).tokens, t);
}

proof fn lemma_redirect_inv(st: LexV, op: RedirectOperator, extra: bool)
    requires
        lex_inv(st),
        st.mode == LexerState::Normal,
    ensures
        redirect_with(st, op, extra) matches Ok((s2, _)) ==> lex_inv(s2),
{
    match finish_before_redirect_st(st) {
        Ok(s1) => {
            let ts = s1.tokens.push(TokenV::Redirect(op));
            match st.word {
                None => {
                    lemma_push_token(st.tokens, TokenV::Redirect(op));
                },
                Some(b) => {
                    let t = b_finish_before_redirect(b)->Ok_0;
                    assert(s1.tokens == st.tokens.push(t));
                    assert forall|i: int| 0 <= i < ts.len() && (#[trigger] ts[i]) is IoNumber implies i + 1
                        < ts.len() && ts[i + 1] is Redirect by {
                        if i < st.tokens.len() {
                            assert(ts[i] == st.tokens[i]);
                            if i + 1 < st.tokens.len() {
                                assert(ts[i + 1] == st.tokens[i + 1]);
                            }
                        }
                    }
                    assert forall|i: int| 0 <= i < ts.len() && (#[trigger] ts[i]) is Word implies ts[i]->Word_0.len()
                        > 0 by {
                        if i < st.tokens.len() {
                            assert(ts[i] == st.tokens[i]);
                        }
                    }
                },
            }
        },
        Err(_) => {},
    }
}

proof fn lemma_quoted_step_inv(src: Seq<char>, pos: int, st: LexV)
    requires
        lex_inv(st),
        0 <= pos < src.len(),
        st.mode != LexerState::Normal,
    ensures
        step(src, pos, st) matches Ok((s2, _)) ==> lex_inv(s2),
        step(src, pos, st) is Ok,
{
    let b = word_or_new(st.word);
    if st.mode == LexerState::InSingleQuote {
        assert(b_finish_single(b).parts.len() > 0);
    } else {
        assert(b_finish_double(b).parts.len() > 0);
        assert(b_push_double_quoted_escaped(b, '"').parts.len() > 0);
    }
}

proof fn lemma_escaped_part(b: BuilderV, n: char)
    ensures
        b_push_escaped(b, n).parts.len() > 0,
{
}

proof fn lemma_step_inv(src: Seq<char>, pos: int, st: LexV)
    requires
        lex_inv(st),
        0 <= pos < src.len(),
    ensures
        step(src, pos, st) matches Ok((s2, _)) ==> lex_inv(s2),
        step(src, pos, st) matches Err(e) ==> !(e is InvalidStateTransition) && !(e is UnexpectedError),
{
    match st.mode {
        LexerState::Normal => {
            let c = src[pos];
            let next = lookahead(src, pos);
            if c == '>' {
                lemma_redirect_inv(st, RedirectOperator::OutputAppend, true);
                lemma_redirect_inv(st, RedirectOperator::DuplicateOutput, true);
                lemma_redirect_inv(st, RedirectOperator::OutputTruncate, false);
            } else if c == '<' {
                lemma_redirect_inv(st, RedirectOperator::DuplicateInput, true);
                lemma_redirect_inv(st, RedirectOperator::Input, false);
            } else if c == '&' {
                lemma_emit_inv(st, TokenV::AndAnd);
            } else if c == '|' {
                lemma_emit_inv(st, TokenV::OrOr);
                lemma_emit_inv(st, TokenV::Pipeline);
            } else if c == ';' {
                lemma_emit_inv(st, TokenV::Semicolon);
            } else if c == ' ' || c == '\t' {
                lemma_finish_word_inv(st);
            } else if c == '\\' {
                if let Some(n) = next {
                    lemma_escaped_part(word_or_new(st.word), n);
                }
            } else {
                assert(b_push_char(word_or_new(st.word), c).buffer.len() > 0);
            }
        },
        _ => {
            lemma_quoted_step_inv(src, pos, st);
        },
    }
}

proof fn lemma_run_inv(src: Seq<char>, pos: int, st: LexV)
    requires
        lex_inv(st),
    ensures
        run(src, pos, st) matches Ok(ts) ==> io_numbers_ok(ts) && words_ok(ts),
        run(src, pos, st) matches Err(e) ==> !(e is InvalidStateTransition) && !(e is UnexpectedError),
    decreases src.len() - pos,
{
    if pos < 0 || pos >= src.len() {
        if st.mode == LexerState::Normal {
            lemma_finish_word_inv(st);
        }
    } else {
        lemma_step_inv(src, pos, st);
        if let Ok((st2, extra)) = step(src, pos, st) {
            lemma_run_inv(src, next_pos(src, pos, extra), st2);
        }
    }
}

/// Law: lexing never fails for a reason of its own making (a broken state
/// stack or an unexpected condition), every I/O number it gives is directly
/// followed by a redirection operator, and every word it gives has at least
/// one part.
pub proof fn law_lexed_tokens_are_well_formed(src: Seq<char>)
    ensures
        lex_spec(src) matches Ok(ts) ==> io_numbers_ok(ts) && words_ok(ts),
        lex_spec(src) matches Err(e) ==> !(e is InvalidStateTransition) && !(e is UnexpectedError),
{
    lemma_run_inv(src, 0, initial_lex_state());
}

/// A lexer state with `t` emitted before its tokens.
pub open spec fn shifted(st: LexV, t: Seq<TokenV>) -> LexV {
    LexV { tokens: t + st.tokens, word: st.word, mode: st.mode }
}

pub open spec fn shifted_step(r: Result<(LexV, bool), LexFailure>, t: Seq<TokenV>) -> Result<(LexV, bool), LexFailure> {
    match r {
        Ok((s2, extra)) => Ok((shifted(s2, t), extra)),
        Err(e) => Err(e),
    }
}

pub open spec fn shifted_tokens(r: Result<Seq<TokenV>, LexFailure>, t: Seq<TokenV>) -> Result<Seq<TokenV>, LexFailure> {
    match r {
        Ok(ts) => Ok(t + ts),
        Err(e) => Err(e),
    }
}

proof fn lemma_finish_word_shifted(st: LexV, t: Seq<TokenV>)
    ensures
        finish_word(shifted(st, t)) == shifted(finish_word(st), t),
{
    if let Some(b) = st.word {
        assert((t + st.tokens).push(TokenV::Word(b_finish(b))) =~= t + st.tokens.push(TokenV::Word(b_finish(b))));
    }
}

proof fn lemma_emit_shifted(st: LexV, tok: TokenV, t: Seq<TokenV>)
    ensures
        emit(shifted(st, t), tok) == shifted(emit(st, tok), t),
{
    lemma_finish_word_shifted(st, t);
    let s1 = finish_word(st);
    assert((t + s1.tokens).push(tok) =~= t + s1.tokens.push(tok));
}

proof fn lemma_redirect_shifted(st: LexV, op: RedirectOperator, extra: bool, t: Seq<TokenV>)
    ensures
        finish_before_redirect_st(shifted(st, t)) == match finish_before_redirect_st(st) {
            Ok(s1) => Ok(shifted(s1, t)),
            Err(e) => Err::<LexV, LexFailure>(e),
        },
        redirect_with(shifted(st, t), op, extra) == shifted_step(redirect_with(st, op, extra), t),
{
    if let Some(b) = st.word {
        if let Ok(tok) = b_finish_before_redirect(b) {
            assert((t + st.tokens).push(tok) =~= t + st.tokens.push(tok));
        }
    }
    if let Ok(s1) = finish_before_redirect_st(st) {
        assert((t + s1.tokens).push(TokenV::Redirect(op)) =~= t + s1.tokens.push(TokenV::Redirect(op)));
    }
}

proof fn lemma_step_shifted(src: Seq<char>, pos: int, st: LexV, t: Seq<TokenV>)
    requires
        0 <= pos < src.len(),
    ensures
        step(src, pos, shifted(st, t)) == shifted_step(step(src, pos, st), t),
{
    match st.mode {
        LexerState::Normal => {
            let c = src[pos];
            if c == '>' {
                lemma_redirect_shifted(st, RedirectOperator::OutputAppend, true, t);
                lemma_redirect_shifted(st, RedirectOperator::DuplicateOutput, true, t);
                lemma_redirect_shifted(st, RedirectOperator::OutputTruncate, false, t);
            } else if c == '<' {
                lemma_redirect_shifted(st, RedirectOperator::DuplicateInput, true, t);
                lemma_redirect_shifted(st, RedirectOperator::Input, false, t);
            } else if c == '&' {
                lemma_emit_shifted(st, TokenV::AndAnd, t);
            } else if c == '|' {
                lemma_emit_shifted(st, TokenV::OrOr, t);
                lemma_emit_shifted(st, TokenV::Pipeline, t);
            } else if c == ';' {
                lemma_emit_shifted(st, TokenV::Semicolon, t);
            } else if c == ' ' || c == '\t' {
                lemma_finish_word_shifted(st, t);
            }
        },
        _ => {},
    }
}

/// Lexing from a state with tokens `t` emitted before gives `t` followed
/// by what lexing without them gives.
proof fn lemma_run_shifted(src: Seq<char>, pos: int, st: LexV, t: Seq<TokenV>)
    ensures
        run(src, pos, shifted(st, t)) == shifted_tokens(run(src, pos, st), t),
    decreases src.len() - pos,
{
    if pos < 0 || pos >= src.len() {
        if st.mode == LexerState::Normal {
            lemma_finish_word_shifted(st, t);
        }
    } else {
        lemma_step_shifted(src, pos, st, t);
        if let Ok((st2, extra)) = step(src, pos, st) {
            lemma_run_shifted(src, next_pos(src, pos, extra), st2, t);
        }
    }
}

/// Lexing the rest of `src` from `pos` is lexing `src` without its first
/// `k` characters from `pos - k`.
proof fn lemma_run_suffix(src: Seq<char>, k: int, pos: int, st: LexV)
    requires
        0 <= k <= pos <= src.len(),
    ensures
        run(src, pos, st) == run(src.skip(k), pos - k, st),
    decreases src.len() - pos,
{
    let s2 = src.skip(k);
    if pos < src.len() {
        assert(s2[pos - k] == src[pos]);
        assert(lookahead(s2, pos - k) == lookahead(src, pos));
        assert(step(s2, pos - k, st) == step(src, pos, st));
        if let Ok((st2, extra)) = step(src, pos, st) {
            assert(next_pos(s2, pos - k, extra) == next_pos(src, pos, extra) - k);
            lemma_run_suffix(src, k, next_pos(src, pos, extra), st2);
        }
    }
}

/// A step on a character of `a` is the same in `a + [sep] + b`, as long as
/// it succeeds in `a`.
proof fn lemma_step_prefix(a: Seq<char>, j: Seq<char>, pos: int, st: LexV, sep: char)
    requires
        0 <= pos < a.len(),
        a.len() < j.len(),
        j[a.len() as int] == sep,
        sep == ' ' || sep == '\t',
        forall|k: int| 0 <= k < a.len() ==> j[k] == a[k],
        step(a, pos, st) is Ok,
    ensures
        step(j, pos, st) == step(a, pos, st),
        next_pos(j, pos, step(a, pos, st)->Ok_0.1) == next_pos(a, pos, step(a, pos, st)->Ok_0.1),
{
    assert(j[pos] == a[pos]);
    if pos + 1 < a.len() {
        assert(j[pos + 1] == a[pos + 1]);
        assert(lookahead(j, pos) == lookahead(a, pos));
    } else {
        assert(lookahead(j, pos) == Some(sep));
        assert(lookahead(a, pos) is None);
    }
}

proof fn lemma_run_joined(a: Seq<char>, b: Seq<char>, sep: char, pos: int, st: LexV)
    requires
        0 <= pos <= a.len(),
        sep == ' ' || sep == '\t',
        run(a, pos, st) is Ok,
        lex_spec(b) is Ok,
    ensures
        run(a + seq![sep] + b, pos, st) == Ok::<Seq<TokenV>, LexFailure>(
            run(a, pos, st)->Ok_0 + lex_spec(b)->Ok_0,
        ),
    decreases a.len() - pos,
{
    let j = a + seq![sep] + b;
    assert(j[a.len() as int] == sep);
    assert forall|k: int| 0 <= k < a.len() implies j[k] == a[k] by {}
    if pos == a.len() {
        let ta = run(a, pos, st)->Ok_0;
        let st1 = finish_word(st);
        assert(step(j, pos, st) == Ok::<(LexV, bool), LexFailure>((st1, false)));
        assert(next_pos(j, pos, false) == a.len() + 1);
        assert(st1 == shifted(initial_lex_state(), ta)) by {
            assert(ta =~= ta + Seq::<TokenV>::empty());
        }
        let n = a.len() + 1int;
        lemma_run_shifted(j, n, initial_lex_state(), ta);
        lemma_run_suffix(j, n, n, initial_lex_state());
        assert(j.skip(n) =~= b);
    } else {
        lemma_step_prefix(a, j, pos, st, sep);
        let (st2, extra) = step(a, pos, st)->Ok_0;
        lemma_run_joined(a, b, sep, next_pos(a, pos, extra), st2);
    }
}

/// Law: lexing two command lines joined by a blank (a space or a tab)
/// gives the tokens of the first followed by the tokens of the second,
/// whenever each lexes on its own.
pub proof fn law_lexing_blank_joined_lines(a: Seq<char>, b: Seq<char>, sep: char)
    requires
        sep == ' ' || sep == '\t',
        lex_spec(a) is Ok,
        lex_spec(b) is Ok,
    ensures
        lex_spec(a + seq![sep] + b) == Ok::<Seq<TokenV>, LexFailure>(lex_spec(a)->Ok_0 + lex_spec(b)->Ok_0),
{
    lemma_run_joined(a, b, sep, 0, initial_lex_state());
}

/// Inside single quotes every character up to the next single quote is
/// collected as it is.
proof fn lemma_run_single_quoted(src: Seq<char>, pos: int, end: int, st: LexV)
    requires
        0 <= pos <= end < src.len(),
        src[end] == '\'',
        forall|k: int| pos <= k < end ==> src[k] != '\'',
        st.mode == LexerState::InSingleQuote,
        st.word is Some,
    ensures
        run(src, pos, st) == run(
            src,
            end + 1,
            LexV {
                tokens: st.tokens,
                word: Some(
                    BuilderV {
                        parts: st.word->0.parts.push(
                            PartV::SingleQuoted(st.word->0.buffer + src.subrange(pos, end)),
                        ),
                        buffer: seq![],
                    },
                ),
                mode: LexerState::Normal,
            },
        ),
    decreases end - pos,
{
    let b = st.word->0;
    if pos == end {
        assert(src.subrange(pos, end) =~= Seq::<char>::empty());
        assert(b.buffer + src.subrange(pos, end) =~= b.buffer);
    } else {
        let st2 = set_word(st, b_push_char(b, src[pos]), LexerState::InSingleQuote);
        assert(step(src, pos, st) == Ok::<(LexV, bool), LexFailure>((st2, false)));
        lemma_run_single_quoted(src, pos + 1, end, st2);
        assert(b.buffer.push(src[pos]) + src.subrange(pos + 1, end) =~= b.buffer + src.subrange(pos, end));
    }
}

/// Law: a single-quoted text is one word of one single-quoted part holding
/// exactly the characters between the quotes; every character but a single
/// quote, double quotes and backslashes included, is literal there.
pub proof fn law_single_quotes_are_literal(s: Seq<char>)
    requires
        !s.contains('\''),
    ensures
        lex_spec(seq!['\''] + s + seq!['\'']) == Ok::<Seq<TokenV>, LexFailure>(
            seq![TokenV::Word(seq![PartV::SingleQuoted(s)])],
        ),
{
    let src = seq!['\''] + s + seq!['\''];
    let end = s.len() + 1;
    let st1 = LexV { tokens: seq![], word: Some(empty_builder()), mode: LexerState::InSingleQuote };
    assert(src[0] == '\'');
    assert(step(src, 0, initial_lex_state()) == Ok::<(LexV, bool), LexFailure>((st1, false)));
    assert(src[end as int] == '\'');
    assert forall|k: int| 1 <= k < end implies src[k] != '\'' by {
        assert(src[k] == s[k - 1]);
    }
    lemma_run_single_quoted(src, 1, end as int, st1);
    assert(src.subrange(1, end as int) =~= s);
    assert(seq![] + s =~= s);
}

/// Inside double quotes every character up to the next double quote is
/// collected as it is when none is a backslash.
proof fn lemma_run_double_quoted(src: Seq<char>, pos: int, end: int, st: LexV)
    requires
        0 <= pos <= end < src.len(),
        src[end] == '"',
        forall|k: int| pos <= k < end ==> src[k] != '"' && src[k] != '\\',
        st.mode == LexerState::InDoubleQuote,
        st.word is Some,
    ensures
        run(src, pos, st) == run(
            src,
            end + 1,
            LexV {
                tokens: st.tokens,
                word: Some(
                    BuilderV {
                        parts: st.word->0.parts.push(
                            PartV::DoubleQuoted(st.word->0.buffer + src.subrange(pos, end)),
                        ),
                        buffer: seq![],
                    },
                ),
                mode: LexerState::Normal,
            },
        ),
    decreases end - pos,
{
    let b = st.word->0;
    if pos == end {
        assert(src.subrange(pos, end) =~= Seq::<char>::empty());
        assert(b.buffer + src.subrange(pos, end) =~= b.buffer);
    } else {
        let st2 = set_word(st, b_push_char(b, src[pos]), LexerState::InDoubleQuote);
        assert(step(src, pos, st) == Ok::<(LexV, bool), LexFailure>((st2, false)));
        lemma_run_double_quoted(src, pos + 1, end, st2);
        assert(b.buffer.push(src[pos]) + src.subrange(pos + 1, end) =~= b.buffer + src.subrange(pos, end));
    }
}

/// Law: a double-quoted text without backslashes is one word of one
/// double-quoted part holding exactly the characters between the quotes;
/// single quotes and operators are literal there.
pub proof fn law_double_quotes_keep_their_text(s: Seq<char>)
    requires
        !s.contains('"'),
        !s.contains('\\'),
    ensures
        lex_spec(seq!['"'] + s + seq!['"']) == Ok::<Seq<TokenV>, LexFailure>(
            seq![TokenV::Word(seq![PartV::DoubleQuoted(s)])],
        ),
{
    let src = seq!['"'] + s + seq!['"'];
    let end = s.len() + 1;
    let st1 = LexV { tokens: seq![], word: Some(empty_builder()), mode: LexerState::InDoubleQuote };
    assert(src[0] == '"');
    assert(step(src, 0, initial_lex_state()) == Ok::<(LexV, bool), LexFailure>((st1, false)));
    assert(src[end as int] == '"');
    assert forall|k: int| 1 <= k < end implies src[k] != '"' && src[k] != '\\' by {
        assert(src[k] == s[k - 1]);
    }
    lemma_run_double_quoted(src, 1, end as int, st1);
    assert(src.subrange(1, end as int) =~= s);
    assert(seq![] + s =~= s);
}

/// Law: a single-quoted argument after a line that lexes adds one word
/// holding the quoted text as it is.
pub proof fn law_single_quoted_argument(a: Seq<char>, s: Seq<char>)
    requires
        lex_spec(a) is Ok,
        !s.contains('\''),
    ensures
        lex_spec(a + seq![' '] + (seq!['\''] + s + seq!['\''])) == Ok::<Seq<TokenV>, LexFailure>(
            lex_spec(a)->Ok_0.push(TokenV::Word(seq![PartV::SingleQuoted(s)])),
        ),
{
    law_single_quotes_are_literal(s);
    law_lexing_blank_joined_lines(a, seq!['\''] + s + seq!['\''], ' ');
    assert(lex_spec(a)->Ok_0 + seq![TokenV::Word(seq![PartV::SingleQuoted(s)])] =~= lex_spec(a)->Ok_0.push(
        TokenV::Word(seq![PartV::SingleQuoted(s)]),
    ));
}

/// The state stack is the base state, possibly with one quote state above.
pub open spec fn stack_ok(s: Seq<LexerState>) -> bool {
    ||| s == seq![LexerState::Normal]
    ||| (s.len() == 2 && s[0] == LexerState::Normal && s[1] != LexerState::Normal)
}

// ---------------------------------------------------------------------------
// The lexer
// ---------------------------------------------------------------------------

/// A one-shot lexer over a command line.
pub struct Lexer {
    tokens: Vec<Token>,
    source: Vec<char>,
    pos: usize,
    current_word: Option<WordBuilder>,
    state: LexerStateManager,
}

impl Lexer {
    /// The characters being lexed.
    pub closed spec fn src(&self) -> Seq<char> {
        self.source@
    }

    /// The value of the lexer state.
    pub closed spec fn lv(&self) -> LexV {
        LexV {
            tokens: tokens_view(self.tokens@),
            word: match self.current_word {
                Some(b) => Some(b@),
                None => None,
            },
            mode: self.state@.last(),
        }
    }

    /// What lexing the rest of the input from the current state gives.
    pub closed spec fn outcome(&self) -> Result<Seq<TokenV>, LexFailure> {
        run(self.source@, self.pos as int, self.lv())
    }

    /// The internal invariant of the lexer.
    pub closed spec fn wf(&self) -> bool {
        &&& self.pos <= self.source@.len()
        &&& stack_ok(self.state@)
        &&& self.state@.last() != LexerState::Normal ==> self.current_word is Some
    }

    /// A lexer at the start of `source`.
    pub fn new(source: &str) -> (l: Lexer)
        ensures
            l.wf(),
            l.outcome() == lex_spec(source@),
    {
        let l = Lexer {
            tokens: Vec::new(),
            source: chars_of(source),
            pos: 0,
            current_word: None,
            state: LexerStateManager::new(),
        };
        assert(l.lv() == initial_lex_state()) by {
            assert(tokens_view(l.tokens@) =~= seq![]);
        }
        l
    }

    /// Lexes the whole input.
    ///
    /// The result is exactly [`lex_spec`] of the source the lexer was created
    /// with: the tokens in source order, or the first error met.
    pub fn lex(self) -> (r: Result<Vec<Token>, LexerError>)
        requires
            self.wf(),
        ensures
            match (r, self.outcome()) {
                (Ok(ts), Ok(tv)) => tokens_view(ts@) == tv,
                (Err(e), Err(ev)) => e@ == ev,
                _ => false,
            },
    {
        let mut lx = self;
        let ghost goal = self.outcome();
        while lx.pos < lx.source.len()
            invariant
                lx.wf(),
                lx.outcome() == goal,
                goal == self.outcome(),
            decreases lx.source@.len() - lx.pos,
        {
            let ghost p = lx.pos as int;
            let ghost st0 = lx.lv();
            let ghost src = lx.source@;
            assert(goal == run(src, p, st0));
            let c = lx.source[lx.pos];
            lx.pos = lx.pos + 1;
            match lx.state.current() {
                Ok(LexerState::Normal) => {
                    match lx.lex_normal(c) {
                        Ok(()) => {},
                        Err(e) => {
                            assert(step(src, p, st0) == Err::<(LexV, bool), LexFailure>(e@));
                            assert(goal == Err::<Seq<TokenV>, LexFailure>(e@));
                            return Err(e);
                        },
                    }
                },
                Ok(LexerState::InSingleQuote) => lx.lex_single_quoted(c)?,
                Ok(LexerState::InDoubleQuote) => lx.lex_double_quoted(c)?,
                Err(e) => {
                    return Err(LexerError::InvalidStateTransition(e));
                },
            }
        }
        match lx.state.current() {
            Ok(LexerState::InDoubleQuote) => Err(LexerError::UnclosedDoubleQuote),
            Ok(LexerState::InSingleQuote) => Err(LexerError::UnclosedSingleQuote),
            Ok(LexerState::Normal) => {
                lx.finish_word();
                Ok(lx.tokens)
            },
            Err(e) => Err(LexerError::InvalidStateTransition(e)),
        }
    }

    /// Takes the word being built, or a fresh one.
    fn take_word(&mut self) -> (b: WordBuilder)
        ensures
            b@ == word_or_new(old(self).lv().word),
            final(self).current_word is None,
            final(self).tokens == old(self).tokens,
            final(self).source == old(self).source,
            final(self).pos == old(self).pos,
            final(self).state == old(self).state,
    {
        match self.current_word.take() {
            Some(b) => b,
            None => WordBuilder::new(),
        }
    }

    fn push_token(&mut self, t: Token)
        ensures
            final(self).lv() == (LexV { tokens: old(self).lv().tokens.push(t@), word: old(self).lv().word, mode: old(self).lv().mode }),
            final(self).current_word == old(self).current_word,
            final(self).source == old(self).source,
            final(self).pos == old(self).pos,
            final(self).state == old(self).state,
    {
        self.tokens.push(t);
        assert(tokens_view(self.tokens@) =~= tokens_view(old(self).tokens@).push(t@));
    }

    /// Consumes the next character when it is `expected`.
    fn consume_next_if(&mut self, expected: char) -> (b: bool)
        requires
            old(self).pos <= old(self).source@.len(),
        ensures
            b == (old(self).pos < old(self).source@.len() && old(self).source@[old(self).pos as int] == expected),
            final(self).pos == old(self).pos + if b { 1int } else { 0int },
            final(self).tokens == old(self).tokens,
            final(self).source == old(self).source,
            final(self).current_word == old(self).current_word,
            final(self).state == old(self).state,
    {
        if self.pos < self.source.len() && self.source[self.pos] == expected {
            self.pos = self.pos + 1;
            true
        } else {
            false
        }
    }

    /// Emits the word being built, if any.
    fn finish_word(&mut self)
        ensures
            final(self).lv() == finish_word(old(self).lv()),
            final(self).current_word is None,
            final(self).source == old(self).source,
            final(self).pos == old(self).pos,
            final(self).state == old(self).state,
    {
        match self.current_word.take() {
            Some(b) => {
                let w = b.finish();
                self.push_token(Token::Word(w));
            },
            None => {},
        }
    }

    /// Ends the current word and emits an operator token.
    fn emit_control_operator(&mut self, token: Token)
        ensures
            final(self).lv() == emit(old(self).lv(), token@),
            final(self).current_word is None,
            final(self).source == old(self).source,
            final(self).pos == old(self).pos,
            final(self).state == old(self).state,
    {
        self.finish_word();
        self.push_token(token);
    }

    /// Ends the current word in front of a redirection operator, emitting it
    /// as an I/O number or a word.
    fn finish_before_redirect(&mut self) -> (r: Result<(), LexerError>)
        ensures
            match (r, finish_before_redirect_st(old(self).lv())) {
                (Ok(()), Ok(st)) => final(self).lv() == st,
                (Err(e), Err(ev)) => e@ == ev,
                _ => false,
            },
            final(self).current_word is None,
            final(self).source == old(self).source,
            final(self).pos == old(self).pos,
            final(self).state == old(self).state,
    {
        match self.current_word.take() {
            Some(b) => {
                let t = b.finish_before_redirect()?;
                self.push_token(t);
                Ok(())
            },
            None => Ok(()),
        }
    }

    /// Puts back the word being built.
    fn put_word(&mut self, b: WordBuilder)
        ensures
            final(self).current_word == Some(b),
            final(self).tokens == old(self).tokens,
            final(self).source == old(self).source,
            final(self).pos == old(self).pos,
            final(self).state == old(self).state,
    {
        self.current_word = Some(b);
    }

    /// Handles a character read outside quotes; operators may consume the
    /// character after it.
    fn lex_normal(&mut self, this_char: char) -> (r: Result<(), LexerError>)
        requires
            old(self).wf(),
            1 <= old(self).pos,
            old(self).lv().mode == LexerState::Normal,
            this_char == old(self).src()[old(self).pos - 1],
        ensures
            match (r, step_normal(old(self).src(), old(self).pos - 1, old(self).lv())) {
                (Ok(()), Ok((st, extra))) => {
                    &&& final(self).lv() == st
                    &&& final(self).pos == next_pos(old(self).src(), old(self).pos - 1, extra)
                    &&& final(self).src() == old(self).src()
                    &&& final(self).wf()
                },
                (Err(e), Err(ev)) => e@ == ev,
                _ => false,
            },
    {
        proof {
            reveal_strlit("<<");
            reveal_strlit("&");
            assert("<<"@ =~= seq!['<', '<']);
            assert("&"@ =~= seq!['&']);
        }
        let ghost src = self.source@;
        let ghost p = self.pos - 1;
        let ghost st0 = self.lv();
        if this_char == '\'' || this_char == '"' {
            let mut b = self.take_word();
            b.finish_unquoted_part();
            self.put_word(b);
            let quote = if this_char == '\'' {
                LexerState::InSingleQuote
            } else {
                LexerState::InDoubleQuote
            };
            match self.state.push(quote) {
                Ok(()) => {},
                Err(e) => {
                    return Err(LexerError::InvalidStateTransition(e));
                },
            }
            return Ok(());
        } else if this_char == '>' || this_char == '<' {
            self.finish_before_redirect()?;
            let ghost st1 = self.lv();
            let op = if this_char == '>' {
                if self.consume_next_if('>') {
                    RedirectOperator::OutputAppend
                } else if self.consume_next_if('&') {
                    RedirectOperator::DuplicateOutput
                } else {
                    RedirectOperator::OutputTruncate
                }
            } else {
                if self.consume_next_if('<') {
                    return Err(LexerError::UnsupportedOperator("<<"));
                } else if self.consume_next_if('&') {
                    RedirectOperator::DuplicateInput
                } else {
                    RedirectOperator::Input
                }
            };
            self.push_token(Token::Redirect(op));
            return Ok(());
        } else if this_char == '&' {
            if self.consume_next_if('&') {
                self.emit_control_operator(Token::AndAnd);
            } else {
                return Err(LexerError::UnsupportedOperator("&"));
            }
        } else if this_char == '|' {
            if self.consume_next_if('|') {
                self.emit_control_operator(Token::OrOr);
            } else {
                self.emit_control_operator(Token::Pipeline);
            }
        } else if this_char == '\\' {
            if self.pos < self.source.len() {
                let next_char = self.source[self.pos];
                self.pos = self.pos + 1;
                let mut b = self.take_word();
                b.push_escaped(next_char);
                self.put_word(b);
            } else {
                return Err(LexerError::IncompleteEscape);
            }
        } else if this_char == ';' {
            self.emit_control_operator(Token::Semicolon);
        } else if this_char == ' ' || this_char == '\t' {
            self.finish_word();
        } else {
            let mut b = self.take_word();
            b.push_char(this_char);
            self.put_word(b);
        }
        Ok(())
    }

    /// Handles a character read inside single quotes.
    fn lex_single_quoted(&mut self, this_char: char) -> (r: Result<(), LexerError>)
        requires
            old(self).wf(),
            1 <= old(self).pos,
            old(self).lv().mode == LexerState::InSingleQuote,
            this_char == old(self).src()[old(self).pos - 1],
        ensures
            r is Ok,
            ({
                let (st, extra) = step_single(old(self).src(), old(self).pos - 1, old(self).lv());
                &&& final(self).lv() == st
                &&& final(self).pos == next_pos(old(self).src(), old(self).pos - 1, extra)
                &&& final(self).src() == old(self).src()
                &&& final(self).wf()
            }),
    {
        let mut b = self.take_word();
        if this_char == '\'' {
            b.finish_single_quoted_part();
            self.put_word(b);
            match self.state.pop_quote_state() {
                Ok(()) => {},
                Err(e) => {
                    return Err(LexerError::InvalidStateTransition(e));
                },
            }
            assert(self.state@ =~= seq![LexerState::Normal]);
        } else {
            b.push_char(this_char);
            self.put_word(b);
        }
        Ok(())
    }

    /// Handles a character read inside double quotes.
    fn lex_double_quoted(&mut self, this_char: char) -> (r: Result<(), LexerError>)
        requires
            old(self).wf(),
            1 <= old(self).pos,
            old(self).lv().mode == LexerState::InDoubleQuote,
            this_char == old(self).src()[old(self).pos - 1],
        ensures
            r is Ok,
            ({
                let (st, extra) = step_double(old(self).src(), old(self).pos - 1, old(self).lv());
                &&& final(self).lv() == st
                &&& final(self).pos == next_pos(old(self).src(), old(self).pos - 1, extra)
                &&& final(self).src() == old(self).src()
                &&& final(self).wf()
            }),
    {
        if this_char == '"' {
            let mut b = self.take_word();
            b.finish_double_quoted_part();
            self.put_word(b);
            match self.state.pop_quote_state() {
                Ok(()) => {},
                Err(e) => {
                    return Err(LexerError::InvalidStateTransition(e));
                },
            }
            assert(self.state@ =~= seq![LexerState::Normal]);
        } else if this_char == '\\' {
            let mut b = self.take_word();
            if self.pos < self.source.len() {
                let e = self.source[self.pos];
                if e == '"' || e == '\\' || e == '$' || e == '`' {
                    self.pos = self.pos + 1;
                    b.push_double_quoted_escaped(e);
                } else if e == '\n' {
                    self.pos = self.pos + 1;
                } else {
                    b.push_char('\\');
                }
            } else {
                b.push_char('\\');
            }
            self.put_word(b);
        } else {
            let mut b = self.take_word();
            b.push_char(this_char);
            self.put_word(b);
        }
        Ok(())
    }
}

} // verus!
