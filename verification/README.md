# malleus

Structured compilation contracts for finite-precision local kernels, written in Verus.

A `StructuredKernel` describes a fixed local iteration domain, affine operand indexing,
dense layouts, scalar expressions, reductions and a numeric policy. The library validates
kernels and modules, pairs them with schedules, differentiates them into new structured
kernels (JVP and VJP), composes kernels over shared buffers, gives facet-pair kernels side
roles, and frames deterministic blake3 digests. Every function in `src/` carries a contract
that pins its result down over a mathematical model of the data, and the laws that relate
several functions stand as public proof functions.

## Layout

- `src/ir.rs` — the IR types and their models.
- `src/validate.rs` — structural validation of kernels and modules.
- `src/executable.rs` — schedules and executables.
- `src/dependency.rs` — whether a primal output reads an input.
- `src/derivative_rules.rs`, `src/differentiate.rs` — forward and reverse differentiation.
- `src/interpreter.rs` — binding checks, element offsets and the loop nest of reference
  execution.
- `src/compose.rs`, `src/compose_derivative.rs` — kernel compositions and their derivatives.
- `src/facet.rs` — facet-pair kernels, their derivatives and side swaps.
- `src/digest.rs` — digest payloads and the one trusted call into `blake3`.
- `src/campaign.rs` — the decisions of local differential campaigns.
- `src/scientific.rs` — cross-block sharing of scientific evaluations.
- `app/` — the floating-point work around the library: the reference interpreter's scalar
  evaluation, swap-covariance and campaign comparisons, and serializable copies of the
  library's types used for digests and archives.
