# Dyn compiler core, verified

The front and middle end of the Dyn compiler as a Verus library: the
recursive-descent parser over tokens, the grouping of source files into
modules, the MIR data model with its well-formedness verification, the
per-function lowering state (blocks, values, locals and loop contexts, with
the operations that extend it), and the
string-level type-hint, layout and variable analyses that lowering uses.
Every function in `src/` carries a contract that Verus proves.

The lowering of whole HIR programs to MIR (expressions, calls, control
flow, the builtins that emit code, and inlining) is not part of this
library: it provides the per-function lowering state, the match-pattern
test and the compile-time evaluator that such lowering is built on, not
the lowering itself.

## Layout

- `src/text.rs`, `src/name_set.rs`: character-sequence utilities and a sorted
  set of names, with their specifications (trimming, prefixes, decimal and
  radix number reading, lexicographic order).
- `src/span.rs`, `src/token.rs`, `src/ast.rs`, `src/hir.rs`, `src/mir.rs`,
  `src/diagnostics.rs`: the data model of the compiler phases.
- `src/parser_text.rs`, `src/parser.rs`: the parser, from tokens to an AST
  with diagnostics; every parse step moves forward through the tokens and
  only appends parser diagnostics labelled with the file being parsed.
- `src/module_resolver.rs`, `src/module_reader.rs`, `src/module_graph.rs`:
  import paths, module declarations, and the module graph of a project,
  with module ids that follow the order of module keys.
- `src/mir_verify.rs`: MIR verification; it reports a structural fault
  (E5001) or a value fault (E5003) exactly when the function has one, one
  report per fault in the order the checks run.
- `src/function_lowerer.rs`: the state of lowering one function — blocks,
  SSA values with their types and definitions, local bindings, loop
  contexts, pattern bindings — whose consistency every operation keeps, so
  that a finished function passes the structural checks of verification;
  and the lowering of a match pattern's test into the instructions and the
  branch that it ends its block with.
- `src/comptime_eval.rs`: compile-time evaluation of HIR expressions —
  literals, types, locals, operators, blocks, conditionals, the type and
  layout builtins, `$target()` fields and calls of known functions — stated
  as a recursive evaluator bounded by nesting depth; and the compile-time
  values of MIR values, read from their defining instructions with a cache. A condition whose value
  is a float literal is left undecided (its truth is a floating-point
  comparison), and a type designator is evaluated one level deeper rather
  than from depth zero, so that every evaluation ends.
- `src/lower_helpers.rs`, `src/lower_analysis.rs`, `src/scope_analysis.rs`:
  type hints, layouts, compile-time arithmetic, enum metadata, inlining
  analyses, and the free and assigned variables of HIR expressions.

Maps and sets keyed by names (module groups and ids by key, the set of
names that a scope binds, the lowering tables, compile-time locals) are
vectors here, kept sorted or free of repeated keys as each type's invariant
states: vstd's specifications of `BTreeMap` and `BTreeSet` say what such a
collection holds only for key types whose ordering is known to obey them,
which `String` keys are not, so nothing about their contents could be
proved through them. A module directory is likewise held as its path
components.

`app/` holds what touches the file system and the environment (reading
module files, locating the standard library) and the float-dependent
truth of compile-time values; `tests/` exercises the library on concrete
inputs.
