# mnemo_core

The verified core of the Mnemo memory engine, written in Verus.

- `src/` — the library, verified by Verus: validation rules for names and
  identifiers, access-control orderings, the guardrail evaluator, the CRDTs
  and clocks used for multi-node replication (with their merge laws),
  Merkle proofs over the identity allowlist, the audit hash chain, envelope
  encryption, tiered context assembly and the counterfactual ("what if")
  rewriting of facts.  Calls into outside crates (hashing, AES-GCM, base64,
  regex, UUIDs, the clock, the random number generator) go through small
  trusted wrappers whose contracts state what the crates document.  Where a
  result is random or read from the environment, the wrapper states only
  what holds of every outcome, and a variant of the function that uses it
  takes it as an argument and has an exact contract (`encrypt_with`, the
  `*_at` functions).  Scores are held as order-preserving `u32` keys of
  their `f32` bits.
- `app/` — ordinary Rust around the library: the JSON forms of library
  types, `Display` for errors, environment configuration and the
  floating-point weighting formulas.
- `tests/` — the test suite, run against the compiled library.
