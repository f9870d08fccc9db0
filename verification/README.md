# LispDM

An interpreter for a subset of Scheme, written in Verus: the reader, the evaluator and the
built-in procedures are verified against specifications of what they compute.

## Layout

- `src/text.rs`: decimal text of integers, integer and float literals.
- `src/lexer.rs`, `src/parser.rs`: tokens and expressions read from source text.
- `src/expr.rs`: expressions, lists, procedures and how they are displayed.
- `src/env.rs`: environments held in a store, and how symbols are looked up and bound.
- `src/procedure.rs`: procedure values, their parameters and arity checks.
- `src/primitives/`: the built-in procedures on numbers, pairs, strings and characters, and
  the output procedures, whose text the root environment's frame holds until the caller
  takes it.
- `src/eval.rs`: the evaluator. Its contracts are given by spec functions that say, for a
  number of steps, what an expression evaluates to and how the environments change
  (`tree_value`, `run_value`, `step_value`, `form_step`, `proc_step`, `expand_value`).
- `src/engine.rs`: the root environment with the built-ins, the prelude (the derived forms
  `and`, `or`, `when`, `unless`, `let*`, `letrec*`, `case`, `do`, `match`, `delay` and the
  list procedures, written in Scheme), and an engine that reads and evaluates programs.
- `src/laws.rs`: properties of evaluation: lexical scope, the branch that `if` evaluates,
  what a symbol gives after `define` and `set!`, macro expansion where no macro is defined,
  quasiquote without unquotes, and what `display` writes.
- `app/`: the command-line program and the REPL.
- `tests/`: tests of the library on concrete programs.
