# OrimaLang

A plain-English programming language: statements end with a period, clauses
are separated by commas, and text goes in double quotes.

```ori
set score to 0.
repeat 5 times, increase score by 10, end repeat.
say "final score is" and score.
```

The interpreter is a verified library (`src/`) and a small command (`app/`).

- `src/lexer.rs` turns source text into tokens; `src/grammar.rs` states what
  the parser makes of tokens, and `src/reading.rs` and `src/parser.rs` build
  the syntax tree to that statement.
- `src/semantics.rs` states what running a program does; `src/evaluator.rs`
  runs it, with its scopes, functions, types and output buffer.
- `src/lib.rs` runs whole programs and interactive sessions; `src/session.rs`
  decides what a session does with each line of input; `src/laws.rs` holds
  properties that span several operations, `src/error_lines.rs` shows that
  every parse error names a line, and `src/call_scopes.rs` that a call keeps
  its own scope.
- `src/host.rs`: numbers belong to the host. The library is generic over the
  number type and asks a host closure to parse, format, compare and compute.
  The library itself does no input or output: a run returns the text it said,
  and a run that reaches an `ask` with no answer left stops and returns the
  prompt. The caller shows it, reads the answer and runs the program (or the
  session's snippet) again with that answer added; the session is left as it
  was until a snippet ends. A session shows an error that stopped a snippet
  as the last line of the snippet's text.

`app/main.rs` is the `orima` command (`orima file.ori`, `orima repl`) and a
WebAssembly entry point; it supplies a host over 64-bit floats.
