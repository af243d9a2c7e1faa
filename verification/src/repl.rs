//! The decisions of the interactive loop: what to do after reading a line,
//! which status a command line leaves, and when to stop.

use vstd::prelude::*;

use crate::builtin::{eval_failure_status, EvalStage};
use crate::shell::Shell;

verus! {

/// What reading a line gave.
#[derive(Debug, Clone, Copy, PartialEq, Eq, Structural)]
pub enum ReadEvent {
    /// A line was read.
    Line,
    /// The input ended (Ctrl-D).
    EndOfInput,
    /// Reading was interrupted (Ctrl-C).
    Interrupted,
    /// Reading failed.
    Failed,
}

/// What the loop does next.
#[derive(Debug, Clone, Copy, PartialEq, Eq, Structural)]
pub enum ReplAction {
    /// Evaluate the line read.
    Evaluate,
    /// Read the next line.
    ReadAgain,
    /// Leave the loop with an error.
    Stop,
}

/// After a read: a line is evaluated; the end of input requests exit 0; an
/// interruption reads again; a failure stops the loop.
pub fn after_read(shell: &mut Shell, event: ReadEvent) -> (a: ReplAction)
    ensures
        a == match event {
            ReadEvent::Line => ReplAction::Evaluate,
            ReadEvent::EndOfInput => ReplAction::ReadAgain,
            ReadEvent::Interrupted => ReplAction::ReadAgain,
            ReadEvent::Failed => ReplAction::Stop,
        },
        final(shell).exit_request_spec() == if event == ReadEvent::EndOfInput {
            Some(0i32)
        } else {
            old(shell).exit_request_spec()
        },
        final(shell).cwd() == old(shell).cwd(),
        final(shell).last_status_spec() == old(shell).last_status_spec(),
{
    match event {
        ReadEvent::Line => ReplAction::Evaluate,
        ReadEvent::EndOfInput => {
            shell.request_exit(0);
            ReplAction::ReadAgain
        },
        ReadEvent::Interrupted => ReplAction::ReadAgain,
        ReadEvent::Failed => ReplAction::Stop,
    }
}

/// Records how a command line went: its status, or the status of the stage
/// that failed (see [`eval_failure_status`]).
pub fn record_result(shell: &mut Shell, result: Result<i32, EvalStage>)
    ensures
        final(shell).last_status_spec() == match result {
            Ok(code) => code,
            Err(EvalStage::Lexer) => 1i32,
            Err(EvalStage::Parser) => 2i32,
            Err(EvalStage::Executor) => 3i32,
        },
        final(shell).exit_request_spec() == old(shell).exit_request_spec(),
        final(shell).cwd() == old(shell).cwd(),
{
    let status = match result {
        Ok(code) => code,
        Err(stage) => eval_failure_status(stage),
    };
    shell.set_last_status(status);
}

/// The loop reads lines until an exit is requested.
pub fn keep_reading(shell: &Shell) -> (b: bool)
    ensures
        b == (shell.exit_request_spec() is None),
{
    !shell.exit_requested()
}

} // verus!
