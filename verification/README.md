# miden_stark_verifier

A STARK verifier whose decisions are proved with Verus.

- `src/` is the library. `verification::verify` decides on a proof; `acceptance` and `laws` state
  what holds of that decision, above all when it is to accept.
- `app/` runs the library over the commitment schemes and challengers of `p3_commit` and
  `p3_challenger`.
- `tests/` runs the library on given values, over Goldilocks and its quadratic extension.

Some proofs and statements ask for an operation that is not defined, such as the inverse of zero or
a domain that is too large. `verify` and its like rule these out in their contracts; their `try_`
siblings, and the steps that they are made of, answer `None` there.

What is taken on trust is marked `#[verifier::external_body]`: the arithmetic of `p3_goldilocks` and
`p3_field` in `goldilocks`, and the domains of `p3_commit` in `coset`. Proof systems and AIRs come in
through the traits `StarkGenericConfig` and `MidenAir`, whose methods only name what they return.
