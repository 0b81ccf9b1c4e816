# Ekanite

An interpreter for a small language, as a verified library:

- `lexer`: the tokenizer (`classify`, `read_next`, `tokenize`), each read
  specified exactly over the characters it consumes. A name starts with a
  letter and runs over letters, digits and `_`; a run that starts with `_`
  reads as the error token.
- `parser`: a recursive-descent parser over the tokens, specified by a
  grammar written as spec functions. Conditions of `if` are read by
  precedence climbing over the operators. Each parse function asks that its
  input parse; `parse_program` checks a whole program and reports the position
  of the token where parsing stopped.
- `env`: scopes with variables and functions (`env_def`, `env_get`,
  `env_set`, `env_lookup`, `fenv_*`), over maps from names to contents. A read
  needs a declared variable with a value, a write a declared variable, and a
  declaration a known type.
- `eval`: the evaluator as a machine that runs one step at a time. Numbers
  are double-precision values held by their bit patterns; reading a numeral,
  the steps that need floating-point arithmetic, and printing are handed to
  the program that runs the machine. `eval` and the frame handlers ask for
  inputs they can handle; the machine checks each step and stops with an
  error where a step cannot go on.

`app/main.rs` reads `file.ek`, tokenizes and parses it, prints the tree, and
runs the machine, doing the arithmetic and the printing.
