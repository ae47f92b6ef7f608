# rlisp

A small Lisp interpreter whose library is verified with Verus.

- `src/types.rs`: values (`MalVal`), expressions (`Expr`, `MalContainer`, `MalMap`), errors
  (`MalError`) and their views; how values and expressions are displayed.
- `src/reader.rs`: the reader. The grammar is written as spec functions over the characters
  of the input; the executable parsers are proved to agree with it.
- `src/env.rs`: environments (`Env`, `REnv`, `ReplEnv`).
- `src/prims.rs`: the arithmetic primitives.
- `src/lib.rs`: the evaluator (`eval`, `eval_as_fun`, `eval_as_val`, `apply`) and `print`.
- `src/laws.rs`: properties of the library as a whole, proved over the spec functions.
- `src/text.rs`: decimal text of integers.
- `app/`: the read-eval-print loops (`step0` echoes lines, `step1` reads, evaluates and
  prints them), built on `rustyline`.

The reader tries numbers before symbols: a run of decimal digits that fits in an `i64`
reads as a number, so `(+ 1 2)` typed at the prompt evaluates to `3`. A numeral with a
sign, such as `-5`, or one too large for an `i64` reads as a symbol.

Expressions compare equal by structure; two maps are equal when they bind the same keys
to equal values, whatever the order in which the keys were inserted.

`ReplEnv` keeps the four built-ins bound among its local bindings (a type invariant);
`ReplEnv::get` requires its key to be bound locally.
