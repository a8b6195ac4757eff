# lolcoders

An interpreter for LOLCODE programs, written in Verus: the lexer, the parser,
the values and their operators, and the interpreter itself are executable Rust
whose behaviour is stated in `requires` / `ensures` contracts over mathematical
models, and proved.

## Layout

- `src/text.rs`: characters and strings (trimming, lines, number texts).
- `src/decimal.rs`: arbitrary-precision decimals; the arithmetic is done by the
  `bigdecimal` crate behind small trusted wrappers whose contracts say what
  `bigdecimal` computes.
- `src/keywords.rs`, `src/lexer.rs`: keywords, source normalisation (line
  endings, `...` continuations, commas, `BTW` and `OBTW`/`TLDR` comments) and
  tokenizing.
- `src/expression.rs`, `src/statement.rs`, `src/parser.rs`: expressions,
  statements, and the parser that turns lines of tokens into statements.
- `src/types/`: values (`NUMBR`, `NUMBAR`, `YARN`, `TROOF`, `NOOB`), names, and
  the arithmetic, comparison and boolean operators.
- `src/evaluation.rs`: variable scopes, casts, interpolation in YARNs and
  expression evaluation.
- `src/interpreter.rs`: the interpreter as a machine that takes one step at a
  time; each step says what its caller must do (print, read a line, go on,
  stop). Its laws (a variable reads back what was declared or assigned, an error
  ends the program, every step keeps a scope for each running function and each
  name at most once per scope and in the function table, a call that comes back
  leaves the caller as it was but for the variable it fills) are proved there.
- `app/main.rs`: the command line program, which reads `.lol` files and runs the
  machine with standard input and output.
- `tests/`: tests of the library on concrete programs and values.
