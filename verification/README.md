# circom_core

Verified passes of a circuit compiler, written in Verus.

- `algebra`: linear combinations of signals (kept sorted by signal index),
  constraints `A * B + C`, renaming of signals, and the text of constraints.
  Coefficients are rendered in decimal by `num-bigint-dig`.
- `constraint_list`, `dag`: porting constraints to the Maple and JSON debug
  listings, in the order of their ids or in depth-first preorder of the tree
  of components.
- `constraint_writers`: the listings themselves (paths and text); writing
  them to disk is done by `app/`.
- `ast`, `program_archive`, `report`: the syntax tree, the functions and
  templates of a program, and the errors reported on it.
- `type_analysis::symbol_analysis`: declared-before-use, declared-twice,
  call-arity and underscore checks, each function stated against a
  functional specification of the reports it produces, with lemmas on
  block scoping.
