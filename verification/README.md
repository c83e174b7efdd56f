# tred

A parser generator: a grammar source is parsed into nodes, and the nodes are
compiled into the Rust source of a parser for the grammar. The library is
verified with Verus.

- `src/runtime.rs`: the matching primitives of the generated parsers
  (string literals, regular expressions, captures) and their failures.
- `src/grammar.rs`: the parser of grammar sources; `src/newparse.rs` and
  `src/boot.rs` are the reduced and the first-stage parsers of the same
  language.
- `src/json.rs`: a JSON parser built from the primitives; `src/json_syntax.rs`
  recognizes the same language without building nodes.
- `src/compile/`: the compiler. `model.rs` states, as functions of the
  compiler's state, what each step does and which code it writes; `steps.rs`
  and `output.rs` do it, and are proved to do exactly that.
- `app/main.rs`: the command-line programs (file reading and printing).
