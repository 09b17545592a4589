# crafting_interpreters

A tree-walking interpreter for the Lox language. The front end — scanner,
parser and the printed form of syntax trees — is a library whose behaviour is
stated in Verus contracts and proved; the interpreter that runs programs, with
its `f64` numbers, lives in the `lox` program around it.

## Layout

- `src/` — the verified library.
  - `scanner.rs`: the lexical rules as spec functions over the bytes of the
    source (`spec_scan`), and the scanner proved to follow them.
  - `grammar.rs`: the grammar as spec functions over token sequences
    (`spec_parse`), one per rule of the recursive descent, with its error
    recovery and its desugaring of `for` loops.
  - `parser.rs`: the parser, proved to produce what `spec_parse` describes.
  - `token.rs`, `expr.rs`, `stmt.rs`, `error.rs`, `function.rs`: the data types,
    each with its mathematical view.
  - `sexpr.rs`: the printed (s-expression) form of syntax trees.
  - `text.rs`: text helpers (decimal numbers, UTF-8).
- `tests/` — tests of the library.
- `app/` — the `lox` program: reads a script or a prompt, runs programs with
  the interpreter, and prints tokens (`--tokens`) or syntax trees (`--ast`).
