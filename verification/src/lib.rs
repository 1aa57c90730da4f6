//! Flaky-test detection for Rust.
//!
//! A run executes a test suite repeatedly and tracks each test's pass /
//! fail history. Stable tests pass every iteration, flaky tests fail
//! sometimes, broken tests fail every time.
//!
//! This crate holds the verified core of that work:
//! - [`parse`]: the libtest output parser;
//! - [`tally`]: the per-test tally across iterations, yielding the
//!   run's [`FlakyResult`] sorted by test name;
//! - [`reliability`] and [`classification`]: the classification policy;
//! - [`report`]: the outline of the report that a result becomes;
//! - [`run`]: the configuration of a run and the `cargo test`
//!   arguments it implies;
//! - [`laws`]: properties of the library as a whole.

pub mod classification;
pub mod laws;
pub mod order;
pub mod parse;
pub mod reliability;
pub mod report;
pub mod result;
pub mod run;
pub mod tally;
pub mod text;

pub use classification::{Classification, Severity};
pub use parse::{parse_test_outcomes, Outcome};
pub use reliability::TestReliability;
pub use report::{CheckBody, CheckPlan, ReportPlan, Verdict};
pub use result::{FlakyError, FlakyResult};
pub use run::FlakyRun;
pub use tally::Tally;
