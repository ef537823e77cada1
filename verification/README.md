# openqudit

Symbolic expressions for qudit circuits: exact rational constants, real and
complex scalar expression trees, and the unitary, ket, bra and Kraus
operator expressions built from them, verified with Verus.

## Layout

- `src/` — the verified library.
  - `constant.rs`: exact rationals, computed by the `num` crate behind
    small trusted wrappers.
  - `expression.rs`, `derivative.rs`, `variables.rs`, `zero_one.rs`,
    `laws.rs`: real expression trees, their simplifying constructors,
    differentiation, variable queries and the zero and one tests.
  - `complex.rs`, `cisc.rs`: complex expressions and the conversion of a
    parsed scalar formula.
  - `radices.rs`, `unitary.rs`, `products.rs`, `qasm.rs`, `system.rs`,
    `tensor.rs`, `ket.rs`, `bra.rs`, `kraus.rs`: matrices, vectors and
    operator sets, their products and layouts.
  - `directive.rs`, `text.rs`, `varmap.rs`: circuit directives, generated
    names and variable renamings.
  - `prefix_text.rs`: the prefix text form of a tree and the set of texts
    that name its parts.
- `tests/` — tests of the library on concrete values.
- `app/` — floating-point evaluation, `faer` matrices, `postcard`
  serialization and the Python bindings.
