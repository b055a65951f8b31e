# lib

The core of a small JavaScript engine, written in Verus and verified:
NaN-boxed values and their conversions, the atom table for interned
strings, the garbage-collected heap and its typed handles, the operators
(arithmetic plans, equality, ToString), native calls and constructions,
the bytecode format with its disassembler, and the bytecode optimizer
(block passes, jump threading, liveness and register reuse, switch-table
relocation, and the whole pipeline over a compiled unit).

Layout:

- `src/` — the verified library; every public function states what it
  returns or changes in its `ensures`, and the laws that relate several
  functions stand as public proof functions (`law_*`).
- `tests/` — tests of the library on concrete values.
- `app/` — what cannot be verified: floating-point arithmetic, printing,
  the thread-local current context, and the runtime traits whose
  implementations compute doubles.
