# jsh

An interactive Unix shell whose core is verified with Verus.

- `src/` is the verified library: the lexer and parser of command lines
  (`lexer`, `parser`, `token`), word expansion (`expander`), redirection
  planning (`redirect`), command lookup (`external`, `dispatch`), the
  session state (`shell`), the built-in commands (`builtin`), job
  bookkeeping (`job_control`), the evaluation of syntax trees (`executor`)
  and the decisions of the interactive loop (`repl`). Each module states
  its behaviour as contracts over mathematical models, and the laws that
  relate several operations are proof functions named `law_*`.
- `app/` is the program around it: reading lines with `rustyline`, opening
  files, creating pipes, starting and waiting for processes with `nix`,
  and terminal handling for job control.
- `tests/` exercises the library on concrete inputs.
