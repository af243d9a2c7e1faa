use jsh::expander::{ExpandedRedirectOperand, Expander, ExpanderError};
use jsh::parser::{Command, Redirection};
use jsh::token::{RedirectOperator, Word, WordPart};

fn expander() -> Expander {
    Expander::new(None)
}

fn expander_with_home(home: &str) -> Expander {
    Expander::new(Some(home.to_owned()))
}

#[test]
fn expands_all_word_parts_in_order() {
    let word = Word::from_parts(vec![
        WordPart::Unquoted("plain".into()),
        WordPart::SingleQuoted(" single ".into()),
        WordPart::DoubleQuoted("double".into()),
        WordPart::Escaped('!'),
    ]);

    assert_eq!(
        expander().expand_word(word),
        Ok("plain single double!".into())
    );
}

#[test]
fn expands_tilde_only_at_the_start_of_the_first_unquoted_part() {
    let home = "/home/tester";
    let word = Word::from_parts(vec![
        WordPart::Unquoted("~/project".into()),
        WordPart::Unquoted("/~literal".into()),
    ]);

    assert_eq!(
        expander_with_home(home).expand_word(word),
        Ok(format!("{}/project/~literal", home))
    );
}

#[test]
fn does_not_expand_a_quoted_or_non_initial_tilde() {
    let quoted = Word::from_parts(vec![WordPart::SingleQuoted("~/project".into())]);
    let non_initial = Word::from_parts(vec![
        WordPart::Unquoted("prefix".into()),
        WordPart::Unquoted("~/project".into()),
    ]);
    let named_user = Word::from_parts(vec![WordPart::Unquoted("~x/project".into())]);

    assert_eq!(expander().expand_word(quoted), Ok("~/project".into()));
    assert_eq!(
        expander().expand_word(non_initial),
        Ok("prefix~/project".into())
    );
    assert_eq!(expander().expand_word(named_user), Ok("~x/project".into()));
}

#[test]
fn expands_only_the_leading_tilde() {
    let home = "/home/tester";
    let word = Word::from_parts(vec![WordPart::Unquoted("~/a~b".into())]);

    assert_eq!(
        expander_with_home(home).expand_word(word),
        Ok(format!("{}/a~b", home))
    );
}

#[test]
fn lone_tilde_expands_to_the_home_directory() {
    let word = Word::from_parts(vec![WordPart::Unquoted("~".into())]);
    assert_eq!(
        expander_with_home("/root").expand_word(word),
        Ok("/root".into())
    );
}

#[test]
fn tilde_without_a_home_directory_is_an_error() {
    let word = Word::from_parts(vec![WordPart::Unquoted("~/x".into())]);
    assert_eq!(
        expander().expand_word(word),
        Err(ExpanderError::CouldNotExpandTilde)
    );
}

#[test]
fn expands_command_arguments_and_redirection_operands() {
    let command = Command {
        args: vec![
            Word::from_parts(vec![WordPart::Unquoted("echo".into())]),
            Word::from_parts(vec![WordPart::SingleQuoted("hello world".into())]),
        ],
        redirections: vec![Redirection {
            redirected_fd: 2,
            operator: RedirectOperator::OutputAppend,
            operand: Word::from_parts(vec![WordPart::Unquoted("error.log".into())]),
        }],
    };

    let expanded = expander()
        .expand_command(command)
        .expect("command should expand");

    assert_eq!(expanded.args, vec!["echo", "hello world"]);
    assert_eq!(expanded.redirections.len(), 1);
    assert_eq!(expanded.redirections[0].redirected_fd, 2);
    assert_eq!(
        expanded.redirections[0].operator,
        RedirectOperator::OutputAppend
    );
    assert_eq!(
        expanded.redirections[0].operand,
        ExpandedRedirectOperand::Path("error.log".into())
    );
}

#[test]
fn resolves_redirection_operands_according_to_the_operator() {
    let command = Command {
        args: vec![],
        redirections: vec![
            Redirection {
                redirected_fd: 1,
                operator: RedirectOperator::OutputTruncate,
                operand: Word::from_parts(vec![WordPart::Unquoted("2".into())]),
            },
            Redirection {
                redirected_fd: 2,
                operator: RedirectOperator::DuplicateOutput,
                operand: Word::from_parts(vec![WordPart::Unquoted("1".into())]),
            },
        ],
    };

    let expanded = expander()
        .expand_command(command)
        .expect("redirection operands should resolve");

    assert_eq!(
        expanded.redirections[0].operand,
        ExpandedRedirectOperand::Path("2".into())
    );
    assert_eq!(
        expanded.redirections[1].operand,
        ExpandedRedirectOperand::Fd(1)
    );
}

#[test]
fn rejects_a_non_numeric_file_descriptor_after_expansion() {
    let command = Command {
        args: vec![],
        redirections: vec![Redirection {
            redirected_fd: 2,
            operator: RedirectOperator::DuplicateOutput,
            operand: Word::from_parts(vec![WordPart::Unquoted("stdout".into())]),
        }],
    };

    assert_eq!(
        expander().expand_command(command).map(|_| ()),
        Err(ExpanderError::InvalidFileDescriptor("stdout".into()))
    );
}

#[test]
fn a_plus_signed_descriptor_is_accepted_like_str_parse() {
    let command = Command {
        args: vec![],
        redirections: vec![Redirection {
            redirected_fd: 2,
            operator: RedirectOperator::DuplicateOutput,
            operand: Word::from_parts(vec![WordPart::Unquoted("+1".into())]),
        }],
    };
    let expanded = expander().expand_command(command).expect("+1 is a descriptor");
    assert_eq!(expanded.redirections[0].operand, ExpandedRedirectOperand::Fd(1));
}
