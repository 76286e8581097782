# nyash_interpreter

A tree-walking interpreter for the Nyash language ("everything is a box"),
written in Verus. Every function of `src/` is verified against its
`requires` / `ensures` contract. The contracts state the outcome of the
builtin methods, the operators, expressions that only read the state,
assignments, `local`, `print`, `break`/`continue`/`return`, `new`, method
and function calls, calls of static functions and of static boxes'
methods, `from` calls and static initialization. Where the parts of a
call do more than read the state, the contract is compositional: the
receiver and the arguments run left to right as their own contracts say,
the call is made on their values in the state they leave, and the body of
the function or method runs statement by statement as the statement
contract says, up to its first error or `return`. A program runs its
statements the same way and stops at the first error or pending
`break`/`continue`/`return`. The statement contract itself is exact for
statements whose expressions, and the parts of whose calls, only read the
state; beyond those it states less. What remains open: loops that run,
`if` statements whose branches hold more than such statements, and `from`
calls to builtin parents with arguments that do more than read the state.

## Layout

- `src/text.rs`: character-level string helpers (search, split, join,
  replace, trim, decimal text and parsing) with their specifications.
- `src/assoc.rs`: an insertion-ordered association list keyed by strings.
- `src/value.rs`, `src/heap.rs`: runtime values, the heap of arrays, maps
  and instances, and how values read as text.
- `src/ast.rs`: the syntax tree the interpreter runs.
- `src/errors.rs`: runtime errors and their messages.
- `src/ops.rs`: binary and unary operators, equality and truthiness.
- `src/state.rs`, `src/interp.rs`: the interpreter state, variables,
  declarations, static boxes and weak-reference bookkeeping.
- `src/methods.rs`: the methods of the builtin boxes (strings, integers,
  booleans, null, arrays, maps).
- `src/eval.rs`: expressions, statements, calls, `new`, inheritance and
  delegation, static initialization; all recursion is bounded by fuel.
- `src/imports.rs`: resolution of included paths and include cycles.
- `src/laws.rs`: properties that relate several operations.
- `app/`: what needs the outside world: reading and running included files, loading
  plugins, and error types with derived traits.

Floating-point boxes and the boxes whose implementation lives outside this
crate (console, web, sockets, sound and the like) are not part of the
interpreter here.
