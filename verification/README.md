# Axis core, verified

Axis is a small expression language: a surface syntax with blocks,
`let`, rebinding, `if`, lambdas, tuples and curried application, and a
minimal core language that the surface desugars into. This crate holds
the tokenizer, parser, desugaring, both evaluators and the preparation of
a program's entry point, each with a contract checked by Verus.

Layout of `src/`:

- `ast.rs`, `core_ast.rs`, `value.rs`: the syntax trees, runtime values and
  environments, each with a mathematical model (`@`). Environments keep
  their bindings in a canonical order of names, so two environments with
  the same bindings are equal.
- `lexer.rs`, `parse_ast.rs`, `parse.rs`: source text to tokens to a
  `Program`; the grammar is written at the top of `parse_ast.rs`, and the
  parser is proved to compute exactly the grammar's spec functions.
- `desugar.rs`: surface blocks to core expressions.
- `eval.rs`: the core evaluator; `surface_eval.rs`: a direct evaluator for
  the surface language.
- `preservation.rs`: the proof that desugaring preserves meaning: what the
  surface evaluator gives a block, the core evaluator gives its desugaring
  at sufficient depth, and at every depth at which it does not run out.
- `entry.rs`: the entry expression of a program, with its parameter bound
  to a default value.

Both evaluators count the nesting depth of an evaluation and report
`DepthLimitExceeded` beyond a bound; `eval`, `eval_block` and `eval_expr`
use the largest `u64`, which no stack reaches, and the `_bounded` forms take
the bound as an argument. The result never depends on the bound otherwise.

`app/` is the command line: `axis <file>` checks that a file parses, and
`axis run <file>` evaluates the program's entry expression.
