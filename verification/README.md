# dm_constants

Constant folding for DreamMaker object trees. The variables of a type may be initialised with
expressions; where an initialiser must be a constant, this library works the constant out. It
follows references to other variables, through the ancestors of a type and into the static
variables of other types, and refuses a variable whose value depends on itself.

The library is written in Rust and verified with Verus.

- `src/ast.rs`: expressions and paths.
- `src/constant.rs`: constants. A single-precision number is held as the operations that yield it.
- `src/equality.rs`: when two constants are equal, up to the numbers in them.
- `src/objtree.rs`: types, their variables, and the notes taken on the way.
- `src/error.rs`: what can go wrong, and where.
- `src/semantics.rs`: what folding means, as mathematical functions on declarations and a memo.
- `src/constants.rs`: the folder, proved to do what `semantics.rs` says. `evaluate_all` is the
  entry; `checked_evaluate_all` also reports integer arithmetic that has no result.
- `src/render.rs`, `src/text.rs`: constants and numbers as text.
- `src/shared.rs`: values with several owners.
- `src/orderly.rs`, `src/laws.rs`: what holds of folding as a whole.
- `src/vars.rs`: the map in which the overrides of a prefab are gathered, from `linked-hash-map`.
- `app/`: the editor window, and evaluation with numbers, messages and output.
