//! The result of a run and the errors that can end one.

use vstd::prelude::*;

use crate::classification::Classification;
use crate::reliability::TestReliability;

verus! {

/// Result of a flaky-test detection run.
#[derive(Debug, Clone)]
pub struct FlakyResult {
    /// Subject name.
    pub name: String,
    /// Subject version.
    pub version: String,
    /// Iterations completed.
    pub iterations: u32,
    /// Per-test reliability records, sorted by `name`.
    pub tests: Vec<TestReliability>,
    /// Reliability threshold (basis points) that was active when the
    /// result was produced, so that the report can re-derive each
    /// test's classification.
    pub reliability_threshold_bp: Option<u32>,
}

/// How many of `tests` the policy classifies as `c` under `threshold_bp`.
pub open spec fn count_classified(
    tests: Seq<TestReliability>,
    threshold_bp: Option<u32>,
    c: Classification,
) -> nat
    decreases tests.len(),
{
    if tests.len() == 0 {
        0
    } else {
        count_classified(tests.drop_last(), threshold_bp, c) + if tests.last().classified(
            threshold_bp,
        ) == c {
            1nat
        } else {
            0nat
        }
    }
}

impl FlakyResult {
    /// How many tests this result classifies as `c`.
    fn count_of(&self, c: Classification) -> (n: usize)
        ensures
            n == count_classified(self.tests@, self.reliability_threshold_bp, c),
    {
        let mut n: usize = 0;
        let mut i: usize = 0;
        while i < self.tests.len()
            invariant
                i <= self.tests@.len(),
                n <= i,
                n == count_classified(self.tests@.take(i as int), self.reliability_threshold_bp, c),
            decreases self.tests@.len() - i,
        {
            assert(self.tests@.take(i + 1).drop_last() =~= self.tests@.take(i as int));
            if self.tests[i].classification(self.reliability_threshold_bp) == c {
                n += 1;
            }
            i += 1;
        }
        assert(self.tests@.take(i as int) =~= self.tests@);
        n
    }

    /// Number of tests classified as stable.
    pub fn stable_count(&self) -> (n: usize)
        ensures
            n == count_classified(
                self.tests@,
                self.reliability_threshold_bp,
                Classification::Stable,
            ),
    {
        self.count_of(Classification::Stable)
    }

    /// Number of tests classified as flaky.
    pub fn flaky_count(&self) -> (n: usize)
        ensures
            n == count_classified(self.tests@, self.reliability_threshold_bp, Classification::Flaky),
    {
        self.count_of(Classification::Flaky)
    }

    /// Number of tests classified as broken.
    pub fn broken_count(&self) -> (n: usize)
        ensures
            n == count_classified(
                self.tests@,
                self.reliability_threshold_bp,
                Classification::Broken,
            ),
    {
        self.count_of(Classification::Broken)
    }

    /// Total tests observed.
    pub fn total_count(&self) -> (n: usize)
        ensures
            n == self.tests@.len(),
    {
        self.tests.len()
    }
}

/// Errors that can arise during a flaky-test run.
#[derive(Debug)]
pub enum FlakyError {
    /// `cargo` is not on PATH.
    ToolNotInstalled,
    /// `cargo test` failed for a reason other than test failures
    /// (compile error, failure to spawn the subprocess).
    SubprocessFailed(String),
    /// Output parsing failure.
    ParseError(String),
}

/// The message that describes an error.
pub open spec fn error_message(e: FlakyError) -> Seq<char> {
    match e {
        FlakyError::ToolNotInstalled => "cargo is not on PATH"@,
        FlakyError::SubprocessFailed(s) => "cargo test subprocess failed: "@ + s@,
        FlakyError::ParseError(s) => "could not parse cargo test output: "@ + s@,
    }
}

impl FlakyError {
    /// The human-readable message of this error.
    pub fn message(&self) -> (m: String)
        ensures
            m@ == error_message(*self),
    {
        match self {
            FlakyError::ToolNotInstalled => "cargo is not on PATH".to_owned(),
            FlakyError::SubprocessFailed(s) => {
                let mut m = "cargo test subprocess failed: ".to_owned();
                m.append(s.as_str());
                m
            },
            FlakyError::ParseError(s) => {
                let mut m = "could not parse cargo test output: ".to_owned();
                m.append(s.as_str());
                m
            },
        }
    }
}

} // verus!
