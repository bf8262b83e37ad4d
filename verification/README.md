# autodiff

Forward-mode automatic differentiation, verified with Verus.

A dual number (`GFloat`, `FwdGFloat`) holds a value and its gradient with
respect to `ARGWIDTH` variables.  Every arithmetic and elementary operation
computes the value and, by its rule of differentiation, the gradient.  The
scalars are any type implementing `Scalar`, the operations of a
floating-point type; dual numbers implement `Scalar` themselves, so they nest.

- `src/scalar.rs`: the `Scalar` trait.
- `src/grads.rs`: gradient vectors and the entry-by-entry rules.
- `src/gfloat.rs`, `src/fwdgfloat.rs`: the two dual number types.
- `src/lib.rs`: `grad`, which seeds arguments as variables; the operation
  traits `UnaryDOp`, `BinaryDOp`, `NaryDOp`; `DFloat`; `WrappedFloat`.
- `src/laws.rs`: laws across operations.
- `src/examples.rs`: two small functions written against `WrappedFloat`.
- `app/`: `f32`/`f64` as scalars, the dual numbers as `num::Float` types,
  and a program that prints the examples.
