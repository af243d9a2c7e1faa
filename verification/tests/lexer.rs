use jsh::lexer::{Lexer, LexerError, LexerState, LexerStateError, LexerStateManager};
use jsh::token::{RedirectOperator, Token, Word, WordPart};

fn word(parts: Vec<WordPart>) -> Token {
    Token::Word(Word::from_parts(parts))
}

#[test]
fn closing_a_quote_keeps_the_normal_base_state() {
    let mut state = LexerStateManager::new();

    state
        .push(LexerState::InSingleQuote)
        .expect("a quote state can be pushed");
    state
        .pop_quote_state()
        .expect("a quote state can be popped");

    assert!(matches!(state.current(), Ok(LexerState::Normal)));
}

#[test]
fn cannot_pop_the_normal_base_state() {
    let mut state = LexerStateManager::new();

    assert_eq!(
        state.pop_quote_state(),
        Err(LexerStateError::CannotPopBaseState)
    );
    assert!(matches!(state.current(), Ok(LexerState::Normal)));
}

#[test]
fn closing_quotes_does_not_fail_lexing() {
    assert!(Lexer::new("echo 'hello'").lex().is_ok());
    assert!(Lexer::new("echo \"hello\"").lex().is_ok());
}

#[test]
fn lexes_word_parts_without_losing_quote_boundaries() {
    let tokens = Lexer::new("echo pre'single'\"double\"\\ value '' \"\"")
        .lex()
        .expect("valid quoting should lex");

    assert_eq!(
        tokens,
        vec![
            word(vec![WordPart::Unquoted("echo".into())]),
            word(vec![
                WordPart::Unquoted("pre".into()),
                WordPart::SingleQuoted("single".into()),
                WordPart::DoubleQuoted("double".into()),
                WordPart::Escaped(' '),
                WordPart::Unquoted("value".into()),
            ]),
            word(vec![WordPart::SingleQuoted(String::new())]),
            word(vec![WordPart::DoubleQuoted(String::new())]),
        ]
    );
}

#[test]
fn lexes_redirections_io_numbers_and_and_if() {
    let tokens = Lexer::new("cat 0<input 2>>error && echo done > output")
        .lex()
        .expect("valid operators should lex");

    assert_eq!(
        tokens,
        vec![
            word(vec![WordPart::Unquoted("cat".into())]),
            Token::IoNumber(0),
            Token::Redirect(RedirectOperator::Input),
            word(vec![WordPart::Unquoted("input".into())]),
            Token::IoNumber(2),
            Token::Redirect(RedirectOperator::OutputAppend),
            word(vec![WordPart::Unquoted("error".into())]),
            Token::AndAnd,
            word(vec![WordPart::Unquoted("echo".into())]),
            word(vec![WordPart::Unquoted("done".into())]),
            Token::Redirect(RedirectOperator::OutputTruncate),
            word(vec![WordPart::Unquoted("output".into())]),
        ]
    );
}

#[test]
fn a_quoted_number_before_redirect_is_a_word() {
    let tokens = Lexer::new("'2'>output")
        .lex()
        .expect("quoted number should lex");

    assert_eq!(
        tokens,
        vec![
            word(vec![WordPart::SingleQuoted("2".into())]),
            Token::Redirect(RedirectOperator::OutputTruncate),
            word(vec![WordPart::Unquoted("output".into())]),
        ]
    );
}

#[test]
fn keeps_file_descriptor_duplication_rhs_as_a_word() {
    let tokens = Lexer::new("echo 2>&1 0<&3")
        .lex()
        .expect("file descriptor duplication should lex");

    assert_eq!(
        tokens,
        vec![
            word(vec![WordPart::Unquoted("echo".into())]),
            Token::IoNumber(2),
            Token::Redirect(RedirectOperator::DuplicateOutput),
            word(vec![WordPart::Unquoted("1".into())]),
            Token::IoNumber(0),
            Token::Redirect(RedirectOperator::DuplicateInput),
            word(vec![WordPart::Unquoted("3".into())]),
        ]
    );
}

#[test]
fn double_quotes_only_escape_supported_characters() {
    let tokens = Lexer::new(r#"echo "\$x\q\\\"""#)
        .lex()
        .expect("double-quoted escapes should lex");

    assert_eq!(
        tokens,
        vec![
            word(vec![WordPart::Unquoted("echo".into())]),
            word(vec![
                WordPart::DoubleQuoted(String::new()),
                WordPart::Escaped('$'),
                WordPart::DoubleQuoted(r"x\q".into()),
                WordPart::Escaped('\\'),
                WordPart::DoubleQuoted(String::new()),
                WordPart::Escaped('"'),
                WordPart::DoubleQuoted(String::new()),
            ]),
        ]
    );
}

#[test]
fn reports_incomplete_constructs_and_unsupported_operators() {
    assert_eq!(
        Lexer::new("echo \\").lex(),
        Err(LexerError::IncompleteEscape)
    );
    assert_eq!(
        Lexer::new("echo 'open").lex(),
        Err(LexerError::UnclosedSingleQuote)
    );
    assert_eq!(
        Lexer::new("echo \"open").lex(),
        Err(LexerError::UnclosedDoubleQuote)
    );
    assert_eq!(
        Lexer::new("a & b").lex(),
        Err(LexerError::UnsupportedOperator("&"))
    );
    assert_eq!(
        Lexer::new("cat << input").lex(),
        Err(LexerError::UnsupportedOperator("<<"))
    );
}

#[test]
fn reports_an_io_number_that_does_not_fit_i32() {
    assert_eq!(
        Lexer::new("4294967296>output").lex(),
        Err(LexerError::InvalidIoNumber("4294967296".into()))
    );
}

#[test]
fn state_manager_rejects_pushing_another_base_state() {
    let mut state = LexerStateManager::new();

    assert_eq!(
        state.push(LexerState::Normal),
        Err(LexerStateError::CannotPushBaseState)
    );
    assert!(matches!(state.current(), Ok(LexerState::Normal)));
}

#[test]
fn lines_joined_by_a_blank_lex_to_joined_tokens() {
    let pairs = [
        ("echo 'a b'", "2>err | cat"),
        ("x >", ">y"),
        ("a &&", "b; c"),
        ("2", ">out"),
        ("\"q\\\"\"", "\\ z"),
    ];
    for (a, b) in pairs {
        let ta = Lexer::new(a).lex().expect("first line should lex");
        let tb = Lexer::new(b).lex().expect("second line should lex");
        let joined: Vec<Token> = ta.iter().cloned().chain(tb.iter().cloned()).collect();
        assert_eq!(Lexer::new(&format!("{a} {b}")).lex(), Ok(joined.clone()));
        assert_eq!(Lexer::new(&format!("{a}\t{b}")).lex(), Ok(joined));
    }
}
