//! Core of an interactive shell: lexing, parsing and expansion of command
//! lines, redirection planning, job bookkeeping and built-in command logic.

pub mod text;

pub mod token;
pub mod lexer;
pub mod parser;
pub mod expander;
pub mod job_control;
pub mod redirect;
pub mod external;
pub mod shell;
pub mod builtin;
pub mod executor;
pub mod dispatch;
pub mod repl;
