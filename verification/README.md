# evolver

Algebraic logic generation over the class groups of imaginary quadratic
fields, verified with Verus.

- `src/` is the verified library.
  - `bigint` — `BigNum`, an unbounded integer whose arithmetic is done by
    `num-bigint`; each call's result is stated over mathematical integers.
  - `soul` — binary quadratic forms as triples (`forms`): reduction, Gauss
    composition, inverse, with the laws proved of them (reduced results,
    discriminant kept, idempotent reduction, the principal form as identity
    on both sides for reduced classes, and the inverse law for reduced
    primitive classes; the proofs take as premises the facts that
    `num_integer`'s extended gcd gives, and `IdealClass::compose` states the
    laws without premises); `commute` proves that composition is
    commutative; associativity is not proved;
    `algebra` (`IdealClass`, universe generation from a context), `primes`
    (Miller-Rabin, the search for `M = 3 (mod 4)`), `entropy` (SHA-256 sponge
    expansion), `dynamics` (identity and delay-function time evolution).
  - `will` — the perturbation set (prime forms), the search certificate and
    its verifier, whose verdict is stated exactly.
  - `body` — exact projection of states to digits, and the adapter from
    entropy to logic gates.
  - `control` — the bias vector on the torus `(Z/256)^16` with its ring laws.
  - `dsl` — the STP energy of a proof path.
  - `engine` — the decisions of the grand loop.
  - `lib.rs` — the orchestrator: strategy selection and path materialization.
- `app/` is the unverified program around it: the floating-point parts (bias
  projection and VAPO control, modular features, Sinkhorn divergence, the
  curvature-driven optimizer, energy audits), the Python binding and a demo.
- `tests/` exercise the library through its public API.
