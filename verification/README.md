# brod

A small scripting language: lexer, parser, variable resolver, formatter and a
tree-walking interpreter. The front end is a Verus library whose functions are
proved against mathematical specifications; the program around it is plain Rust.

## Layout

- `src/lexer/` — a table-driven lexer; `lex` returns exactly the tokens (or the
  first error) that the specification `spec_lex` gives.
- `src/parser/grammar.rs` — the grammar as spec functions over token sequences.
- `src/parser/builder.rs` — the recursive-descent parser (`ASTBuilder`), proved to
  build what the grammar describes and to keep the AST free of dangling indices.
- `src/parser/resolver.rs` — turns local variable names into stack slots.
- `src/parser/format.rs` — prints an AST back as source text.
- `src/diagnostic.rs` — spans, line/column computation and error rendering.
- `src/interpreter/environment.rs` — the scoped variable store of the interpreter.
- `src/interpreter/machine.rs` — the evaluator of declarations and statements as
  a step function with its small-step semantics (`spec_step`): blocks and their
  scopes, `if`/`elif`/`else`, `while` with `break` and `continue`, `return`,
  calls and their frames, and the run of the top-level declarations. It asks its
  caller for the value of each expression it needs.
- `src/interpreter/evaluator.rs` — runtime errors and their messages, how loops
  and calls take `break`, `continue` and `return`, short-circuiting, which operand
  kinds each operator accepts, arity checks, the stack of locals with its scopes
  and call frames, and the instances' fields.
- `src/parser/copy.rs` — copies of statements and declarations.
- `src/containers/` — a bounded vector.
- `src/vm/` — the byte encoding of VM instructions, and the VM as a step function
  whose caller does the floating-point additions it asks for.
- `app/` — the `brod` command: file and prompt input, and the evaluation of
  expressions, which compute on floating-point numbers; it drives the library's
  step function and answers its requests.

## Usage

```
brod script.brod              # run a script
brod script.brod -i           # run a script, then drop into a prompt sharing its state
brod                          # prompt only
brod --format script.brod     # print the script back, formatted
```
