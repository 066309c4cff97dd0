# verdict_kernel

A verified kernel for combining evidence verdicts.

- `src/verdict.rs`: the five-valued `Verdict`, its join `merge`, the fold
  `merge_all`, and the lattice laws (commutativity, associativity,
  idempotence, identity, absorption, least upper bound, order independence
  of folds).
- `src/bounded.rs`: `BoundedArray`, a fixed-capacity array that never grows
  past its capacity.
- `src/evidence.rs`: `EvidenceLog`, a fixed-capacity log whose running state
  is always the join of its entries.
- `src/policy.rs`: `Policy` and `PolicyEngine`, which evaluate a bounded list
  of rules and join their verdicts. For rules that have one verdict per
  input, laws state that rule order does not change the verdict, that
  evaluating after `add_rule` merges the new rule's verdict into the earlier
  result, and that the engine agrees with the policy. `Policy::rules` copies
  the rules into a `Vec`; `Policy::rule` reads one without allocating.

Verify with Verus; the tests under `tests/` run the compiled library.
