# ditto

The core of the ditto compiler as a verified library: the type model and its
substitutions, unification, the type checker, pattern coverage, ordering of
value declarations, and JavaScript and TypeScript code generation, together
with the configuration, project bootstrapping and the decisions of
`ditto make`. Every function in `src/` is checked by Verus against its
contract.

Layout:

- `src/names.rs`, `src/types.rs`, `src/typevars.rs`, `src/render.rs`: names,
  types and kinds, their type variables and their rendering.
- `src/substitution.rs`, `src/unify.rs`, `src/state.rs`: substitutions,
  unification and the checker's state.
- `src/pre_ast.rs`, `src/ast.rs`, `src/env.rs`, `src/checker.rs`,
  `src/apply_expr.rs`: expressions before and after type checking, the
  environment and schemes, and the type checker.
- `src/coverage.rs`: exhaustiveness and redundancy of match clauses.
- `src/graph.rs`, `src/toposort.rs`: reachability in a dependency graph, and
  value declarations in dependency order.
- `src/pkg.rs`: the package set's decisions: installed entries and what to do
  with each dependency.
- `src/js_ast.rs`, `src/js_convert.rs`, `src/js_render.rs`, `src/ts.rs`:
  JavaScript generation and rendering; TypeScript declarations.
- `src/config.rs`, `src/bootstrap.rs`, `src/version.rs`, `src/make.rs`,
  `src/text.rs`: configuration, new projects, versions, the build's
  decisions, and text helpers.
- `src/assoc.rs`: association lists, looked up by their first entry of a key.
- `tests/`: tests of the library.
- `app/`: the command line program around the library.
