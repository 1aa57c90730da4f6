//! How a test is classified after a repeated run, and what that means
//! for the emitted check.

use vstd::prelude::*;

verus! {

/// How a test was classified after the repeated run.
#[derive(Debug, Clone, Copy, PartialEq, Eq, Structural)]
pub enum Classification {
    /// Every iteration passed.
    Stable,
    /// Mixed pass/fail history.
    Flaky,
    /// Every iteration failed (or never passed).
    Broken,
}

/// Severity attached to a check that warns or fails.
#[derive(Debug, Clone, Copy, PartialEq, Eq, Structural)]
pub enum Severity {
    /// Informational. Does not block acceptance.
    Info,
    /// Acceptance allowed with explicit acknowledgement.
    Warning,
    /// Blocks acceptance.
    Error,
    /// Blocks acceptance and signals a regression.
    Critical,
}

/// The severity each classification carries: none for `Stable`.
pub open spec fn severity_of(c: Classification) -> Option<Severity> {
    match c {
        Classification::Stable => None,
        Classification::Flaky => Some(Severity::Warning),
        Classification::Broken => Some(Severity::Error),
    }
}

/// The lowercase label of each classification.
pub open spec fn label_of(c: Classification) -> Seq<char> {
    match c {
        Classification::Stable => "stable"@,
        Classification::Flaky => "flaky"@,
        Classification::Broken => "broken"@,
    }
}

impl Classification {
    /// Severity mapped from this classification, where applicable.
    /// `Stable` has no severity.
    pub fn severity(self) -> (s: Option<Severity>)
        ensures
            s == severity_of(self),
    {
        match self {
            Classification::Stable => None,
            Classification::Flaky => Some(Severity::Warning),
            Classification::Broken => Some(Severity::Error),
        }
    }

    /// Stable lowercase label used in check tags and names.
    pub fn label(self) -> (l: &'static str)
        ensures
            l@ == label_of(self),
    {
        match self {
            Classification::Stable => "stable",
            Classification::Flaky => "flaky",
            Classification::Broken => "broken",
        }
    }
}

} // verus!
