# dev-flaky

Flaky-test detection: run a test suite repeatedly, tally each test's
passes and failures, classify it as stable, flaky or broken, and report.

- `src/` is the verified library (Verus): the libtest output parser, the
  per-test tally across iterations, the classification policy, the
  report outline, the run configuration, and the laws that tie them
  together.
- `app/` is the unverified edge: spawning `cargo test`, rendering the
  report with `dev_report` (timestamps, floating-point reliability
  figures), the serde wire format and the `Producer` adapter.
- `tests/` exercises the library on concrete values.

Thresholds are kept in basis points (`9900` is 99%) so that the
classification is exact integer arithmetic; `app/` converts percentages.
