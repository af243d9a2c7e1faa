use jsh::lexer::Lexer;
use jsh::parser::{Ast, Command, Parser, ParserError, Redirection};
use jsh::token::{RedirectOperator, Token, Word, WordPart};

fn word(value: &str) -> Word {
    Word::from_parts(vec![WordPart::Unquoted(value.into())])
}

fn parse(source: &str) -> Result<Option<Ast>, ParserError> {
    let tokens = Lexer::new(source).lex().expect("test input should lex");
    Parser::new(tokens).parse()
}

#[test]
fn parses_empty_input_as_no_ast() {
    assert_eq!(parse(""), Ok(None));
    assert_eq!(parse(" \t "), Ok(None));
}

#[test]
fn parses_command_arguments_and_ordered_redirections() {
    let ast = parse("cat input 2>>error >output <source")
        .expect("valid command should parse")
        .expect("command should produce an AST");

    assert_eq!(
        ast,
        Ast::Command(Command {
            args: vec![word("cat"), word("input")],
            redirections: vec![
                Redirection {
                    redirected_fd: 2,
                    operator: RedirectOperator::OutputAppend,
                    operand: word("error"),
                },
                Redirection {
                    redirected_fd: 1,
                    operator: RedirectOperator::OutputTruncate,
                    operand: word("output"),
                },
                Redirection {
                    redirected_fd: 0,
                    operator: RedirectOperator::Input,
                    operand: word("source"),
                },
            ],
        })
    );
}

#[test]
fn permits_a_redirection_only_command() {
    assert_eq!(
        parse(">output"),
        Ok(Some(Ast::Command(Command {
            args: vec![],
            redirections: vec![Redirection {
                redirected_fd: 1,
                operator: RedirectOperator::OutputTruncate,
                operand: word("output"),
            }],
        })))
    );
}

#[test]
fn keeps_redirection_operand_unexpanded() {
    assert_eq!(
        parse("echo 2>&1"),
        Ok(Some(Ast::Command(Command {
            args: vec![word("echo")],
            redirections: vec![Redirection {
                redirected_fd: 2,
                operator: RedirectOperator::DuplicateOutput,
                operand: word("1"),
            }],
        })))
    );
}

#[test]
fn parses_and_if_left_associatively() {
    let command = |name| {
        Ast::Command(Command {
            args: vec![word(name)],
            redirections: vec![],
        })
    };

    assert_eq!(
        parse("first && second && third"),
        Ok(Some(Ast::AndIf {
            left: Box::new(Ast::AndIf {
                left: Box::new(command("first")),
                right: Box::new(command("second")),
            }),
            right: Box::new(command("third")),
        }))
    );
}

#[test]
fn parses_or_if_left_associatively() {
    let command = |name| {
        Ast::Command(Command {
            args: vec![word(name)],
            redirections: vec![],
        })
    };

    assert_eq!(
        parse("first || second || third"),
        Ok(Some(Ast::OrIf {
            left: Box::new(Ast::OrIf {
                left: Box::new(command("first")),
                right: Box::new(command("second")),
            }),
            right: Box::new(command("third")),
        }))
    );
}

#[test]
fn parses_pipeline_commands_in_order() {
    assert_eq!(
        parse("first | second arg | third"),
        Ok(Some(Ast::Pipeline {
            commands: vec![
                Command {
                    args: vec![word("first")],
                    redirections: vec![],
                },
                Command {
                    args: vec![word("second"), word("arg")],
                    redirections: vec![],
                },
                Command {
                    args: vec![word("third")],
                    redirections: vec![],
                },
            ],
        }))
    );
}

#[test]
fn pipeline_binds_tighter_than_and_or() {
    let command = |name| Command {
        args: vec![word(name)],
        redirections: vec![],
    };

    assert_eq!(
        parse("first | second || third && fourth | fifth"),
        Ok(Some(Ast::AndIf {
            left: Box::new(Ast::OrIf {
                left: Box::new(Ast::Pipeline {
                    commands: vec![command("first"), command("second")],
                }),
                right: Box::new(Ast::Command(command("third"))),
            }),
            right: Box::new(Ast::Pipeline {
                commands: vec![command("fourth"), command("fifth")],
            }),
        }))
    );
}

#[test]
fn rejects_incomplete_redirections() {
    assert_eq!(
        Parser::new(vec![Token::IoNumber(2)]).parse(),
        Err(ParserError::ExpectRedirectOperator { found: None })
    );
    assert_eq!(
        Parser::new(vec![
            Token::IoNumber(2),
            Token::Word(word("not-an-operator")),
        ])
        .parse(),
        Err(ParserError::ExpectRedirectOperator {
            found: Some(Token::Word(word("not-an-operator"))),
        })
    );
    assert_eq!(
        parse("echo >"),
        Err(ParserError::ExpectRedirectionOperand { found: None })
    );
    assert_eq!(
        Parser::new(vec![
            Token::Redirect(RedirectOperator::OutputTruncate),
            Token::AndAnd,
        ])
        .parse(),
        Err(ParserError::ExpectRedirectionOperand {
            found: Some(Token::AndAnd),
        })
    );
}

#[test]
fn rejects_missing_commands_around_and_if() {
    assert_eq!(parse("&& echo ok"), Err(ParserError::ExpectCommand));
    assert_eq!(
        parse("echo ok &&"),
        Err(ParserError::MissingCommandAfterAndIf)
    );
}

#[test]
fn rejects_missing_commands_around_or_if() {
    assert_eq!(parse("|| echo ok"), Err(ParserError::ExpectCommand));
    assert_eq!(
        parse("echo ok ||"),
        Err(ParserError::MissingCommandAfterOrIf)
    );
}

#[test]
fn rejects_missing_commands_around_pipeline() {
    assert_eq!(parse("| echo ok"), Err(ParserError::ExpectCommand));
    assert_eq!(parse("echo ok |"), Err(ParserError::ExpectCommand));
    assert_eq!(parse("echo ok | | next"), Err(ParserError::ExpectCommand));
}
