# Binding forms of a small Lisp, verified with Verus

The library implements the forms of a Lisp interpreter that create, change,
look up and remove bindings: `lex`, `set!`, `def`, `var`, `undef`, `dyn`,
`def?` and `ref`, together with the environment they work on (namespaces,
a stack of lexical scopes and dynamic bindings), an expression heap, a symbol
interner and a small evaluator that dispatches forms to them.

Every executable function has a contract over a mathematical model of the
environment (`EnvState`), and Verus proves the code against it.

## Layout

- `src/interner.rs`: symbols and the table of their names.
- `src/types.rs`: expressions, heap nodes, bindings and errors.
- `src/environment.rs`: the environment, its model, its invariant and the
  operations on scopes and dynamic bindings.
- `src/eval.rs`: evaluation of symbols and forms.
- `src/builtins_bind.rs`: the binding forms and their installation in a
  namespace.
- `src/bind_docs.rs`: names and documentation of the binding forms.
- `src/errors.rs`: the text of each error.
- `src/debugger.rs`: the decisions of the debugger prompt: what a read
  leads to, which action a line of input asks for, which registers a frame
  shows, how registers and stack slots are labelled, and the error lines.
- `src/laws.rs`: properties that relate several forms (what a read gives
  back after a write, what `dyn` restores, what `lex` leaves behind).
- `tests/`: executable scenarios, most of them taken from the examples in the
  documentation of the forms.
