//! Per-test reliability record and the classification policy.

use vstd::prelude::*;

use crate::classification::Classification;

verus! {

/// One whole percent, in basis points (hundredths of a percent).
pub const FULL_PERCENT_BP: u32 = 10000;

/// Per-test reliability record.
#[derive(Debug, Clone)]
pub struct TestReliability {
    /// Full test path (e.g. `crate::module::test_name`).
    pub name: String,
    /// Number of iterations in which this test passed.
    pub passes: u32,
    /// Number of iterations in which this test failed.
    pub failures: u32,
}

/// Every iteration passed (and there was at least one).
pub open spec fn stable_counts(passes: nat, failures: nat) -> bool {
    failures == 0 && passes > 0
}

/// Every iteration failed (and there was at least one).
pub open spec fn broken_counts(passes: nat, failures: nat) -> bool {
    passes == 0 && failures > 0
}

/// Both passing and failing iterations were seen.
pub open spec fn flaky_counts(passes: nat, failures: nat) -> bool {
    passes > 0 && failures > 0
}

/// The reliability percentage `100 * passes / (passes + failures)`
/// (taken as 0 when nothing ran) lies strictly below the threshold of
/// `bp` basis points, computed exactly over the rationals.
pub open spec fn below_threshold(passes: nat, failures: nat, bp: nat) -> bool {
    if passes + failures == 0 {
        0 < bp
    } else {
        10000 * passes < bp * (passes + failures)
    }
}

/// The classification policy: any failure makes a test `Broken` (no
/// pass at all) or `Flaky` (some passes); a test without failures is
/// `Stable` unless its reliability lies below the optional threshold,
/// which demotes it to `Flaky`.
pub open spec fn classify(passes: nat, failures: nat, threshold_bp: Option<u32>) -> Classification {
    if broken_counts(passes, failures) {
        Classification::Broken
    } else if flaky_counts(passes, failures) {
        Classification::Flaky
    } else if threshold_bp is Some && below_threshold(passes, failures, threshold_bp->0 as nat) {
        Classification::Flaky
    } else {
        Classification::Stable
    }
}

impl TestReliability {
    /// The record's classification under an optional threshold.
    pub open spec fn classified(&self, threshold_bp: Option<u32>) -> Classification {
        classify(self.passes as nat, self.failures as nat, threshold_bp)
    }

    /// `true` if every iteration passed.
    pub fn is_stable(&self) -> (b: bool)
        ensures
            b == stable_counts(self.passes as nat, self.failures as nat),
    {
        self.failures == 0 && self.passes > 0
    }

    /// `true` if every iteration failed (or the test never passed).
    pub fn is_broken(&self) -> (b: bool)
        ensures
            b == broken_counts(self.passes as nat, self.failures as nat),
    {
        self.passes == 0 && self.failures > 0
    }

    /// `true` if this test had mixed pass / fail iterations.
    pub fn is_flaky(&self) -> (b: bool)
        ensures
            b == flaky_counts(self.passes as nat, self.failures as nat),
    {
        self.passes > 0 && self.failures > 0
    }

    /// The fraction of runs that passed, as `(passes, passes + failures)`.
    /// A record with no runs has reliability 0.
    pub fn reliability_fraction(&self) -> (r: (u32, u64))
        ensures
            r.0 == self.passes,
            r.1 == self.passes + self.failures,
    {
        (self.passes, self.passes as u64 + self.failures as u64)
    }

    /// Classification under the policy, with an optional reliability
    /// threshold given in basis points (`9900` is 99%).
    pub fn classification(&self, threshold_bp: Option<u32>) -> (c: Classification)
        ensures
            c == self.classified(threshold_bp),
    {
        if self.is_broken() {
            return Classification::Broken;
        }
        if self.is_flaky() {
            return Classification::Flaky;
        }
        // No failures recorded: the reliability is 100% when the test
        // ran at all, 0% otherwise.
        if let Some(t) = threshold_bp {
            let below = if self.passes == 0 {
                0 < t
            } else {
                FULL_PERCENT_BP < t
            };
            proof {
                let p = self.passes as nat;
                if p > 0 {
                    assert(10000 * p < t * p <==> 10000 < t) by (nonlinear_arith)
                        requires
                            p > 0,
                    ;
                }
            }
            if below {
                return Classification::Flaky;
            }
        }
        Classification::Stable
    }
}

} // verus!
