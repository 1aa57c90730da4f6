//! The outline of the report that a run produces.
//!
//! Each observed test becomes one check named `flaky::<test>`: `Stable`
//! passes, `Flaky` warns with severity `Warning`, `Broken` fails with
//! severity `Error`. Each carries the tags `flaky` and the
//! classification's label, and the test's pass and failure counts (from
//! which the reliability percentage and the detail line are rendered).
//! A result without tests becomes one passing `flaky::scan` check.

use vstd::prelude::*;

use crate::classification::{label_of, severity_of, Classification, Severity};
use crate::reliability::TestReliability;
use crate::result::{error_message, FlakyError, FlakyResult};
use crate::run::{strings_view, FlakyRun};
use crate::text::{decimal, decimal_string};

verus! {

/// The outcome of a check.
#[derive(Debug, Clone, Copy, PartialEq, Eq, Structural)]
pub enum Verdict {
    /// The check passed.
    Pass,
    /// The check produced a warning.
    Warn,
    /// The check failed.
    Fail,
}

/// What a check carries besides its name, verdict and tags.
#[derive(Debug)]
pub enum CheckBody {
    /// A detail line.
    Note(String),
    /// A test's pass and failure counts: the detail line
    /// `<passes>/<runs> passed (<pct>%)` (its counts part is
    /// [`CheckBody::counts_detail`]) and the evidence `reliability_pct`,
    /// `passes` and `failures` are rendered from them.
    Counts { passes: u32, failures: u32 },
}

/// One check of the report.
#[derive(Debug)]
pub struct CheckPlan {
    /// Stable identifier of the check.
    pub name: String,
    /// Outcome of the check.
    pub verdict: Verdict,
    /// Severity when the verdict is `Warn` or `Fail`.
    pub severity: Option<Severity>,
    /// Tags, in order.
    pub tags: Vec<String>,
    /// Detail and evidence.
    pub body: CheckBody,
}

/// The report: its subject, producer and checks.
#[derive(Debug)]
pub struct ReportPlan {
    /// Crate or project reported on.
    pub subject: String,
    /// Version of the subject.
    pub version: String,
    /// Producer of the report.
    pub producer: String,
    /// The checks, in order.
    pub checks: Vec<CheckPlan>,
}

/// The verdict each classification maps to.
pub open spec fn verdict_of(c: Classification) -> Verdict {
    match c {
        Classification::Stable => Verdict::Pass,
        Classification::Flaky => Verdict::Warn,
        Classification::Broken => Verdict::Fail,
    }
}

/// The name of the report's producer.
pub open spec fn producer_name() -> Seq<char> {
    "dev-flaky"@
}

/// `c` is the check of the test `t` under the threshold `threshold_bp`.
pub open spec fn is_test_check(c: CheckPlan, t: TestReliability, threshold_bp: Option<u32>) -> bool {
    let class = t.classified(threshold_bp);
    &&& c.name@ == "flaky::"@ + t.name@
    &&& c.verdict == verdict_of(class)
    &&& c.severity == severity_of(class)
    &&& strings_view(c.tags@) == seq!["flaky"@, label_of(class)]
    &&& c.body matches CheckBody::Counts { passes, failures } && passes == t.passes && failures
        == t.failures
}

/// `c` is the passing scan check of a run of `iterations` iterations
/// that observed no test.
pub open spec fn is_empty_scan_check(c: CheckPlan, iterations: u32) -> bool {
    &&& c.name@ == "flaky::scan"@
    &&& c.verdict == Verdict::Pass
    &&& c.severity is None
    &&& strings_view(c.tags@) == seq!["flaky"@]
    &&& c.body matches CheckBody::Note(d) && d@ == decimal(iterations as nat)
        + " iterations completed; no tests observed"@
}

/// `c` is the failing scan check that reports the error `e`.
pub open spec fn is_error_check(c: CheckPlan, e: FlakyError) -> bool {
    &&& c.name@ == "flaky::scan"@
    &&& c.verdict == Verdict::Fail
    &&& c.severity == Some(Severity::Critical)
    &&& strings_view(c.tags@) == seq!["flaky"@, "subprocess"@]
    &&& c.body matches CheckBody::Note(d) && d@ == error_message(e)
}

/// The verdicts of the checks that a result's report holds, in order.
pub open spec fn result_verdicts(r: FlakyResult) -> Seq<Verdict> {
    if r.tests@.len() == 0 {
        seq![Verdict::Pass]
    } else {
        r.tests@.map_values(|t: TestReliability| verdict_of(t.classified(r.reliability_threshold_bp)))
    }
}

/// The counts part of a test check's detail line: `<passes>/<runs> passed`.
pub open spec fn counts_text(passes: u32, failures: u32) -> Seq<char> {
    decimal(passes as nat) + "/"@ + decimal((passes + failures) as nat) + " passed"@
}

/// The verdicts of a list of checks.
pub open spec fn check_verdicts(checks: Seq<CheckPlan>) -> Seq<Verdict> {
    checks.map_values(|c: CheckPlan| c.verdict)
}

fn owned_tags(first: &str, second: Option<&str>) -> (tags: Vec<String>)
    ensures
        strings_view(tags@) == match second {
            Some(s) => seq![first@, s@],
            None => seq![first@],
        },
{
    let mut tags: Vec<String> = Vec::new();
    tags.push(first.to_owned());
    match second {
        Some(s) => {
            tags.push(s.to_owned());
            assert(strings_view(tags@) =~= seq![first@, s@]);
        },
        None => {
            assert(strings_view(tags@) =~= seq![first@]);
        },
    }
    tags
}

impl CheckBody {
    /// The counts part of a test check's detail line, `<passes>/<runs>
    /// passed`; the reliability percentage follows it.
    pub fn counts_detail(passes: u32, failures: u32) -> (s: String)
        ensures
            s@ == counts_text(passes, failures),
    {
        let mut s = decimal_string(passes as u64);
        s.append("/");
        let runs = decimal_string(passes as u64 + failures as u64);
        s.append(runs.as_str());
        s.append(" passed");
        s
    }
}

impl CheckPlan {
    /// The check of the test `t` under the threshold `threshold_bp`.
    pub fn for_test(t: &TestReliability, threshold_bp: Option<u32>) -> (c: CheckPlan)
        ensures
            is_test_check(c, *t, threshold_bp),
    {
        let class = t.classification(threshold_bp);
        let mut name = "flaky::".to_owned();
        name.append(t.name.as_str());
        let verdict = match class {
            Classification::Stable => Verdict::Pass,
            Classification::Flaky => Verdict::Warn,
            Classification::Broken => Verdict::Fail,
        };
        CheckPlan {
            name,
            verdict,
            severity: class.severity(),
            tags: owned_tags("flaky", Some(class.label())),
            body: CheckBody::Counts { passes: t.passes, failures: t.failures },
        }
    }
}

impl FlakyResult {
    /// The verdicts of the report's checks.
    pub open spec fn verdicts(self) -> Seq<Verdict> {
        result_verdicts(self)
    }

    /// The report of this result: one check per test in order, or a
    /// single passing `flaky::scan` check when no test was observed.
    pub fn report_plan(&self) -> (p: ReportPlan)
        ensures
            p.subject@ == self.name@,
            p.version@ == self.version@,
            p.producer@ == producer_name(),
            check_verdicts(p.checks@) == self.verdicts(),
            self.tests@.len() == 0 ==> p.checks@.len() == 1 && is_empty_scan_check(
                p.checks@[0],
                self.iterations,
            ),
            self.tests@.len() > 0 ==> p.checks@.len() == self.tests@.len() && forall|i: int|
                0 <= i < self.tests@.len() ==> is_test_check(
                    #[trigger] p.checks@[i],
                    self.tests@[i],
                    self.reliability_threshold_bp,
                ),
    {
        let mut checks: Vec<CheckPlan> = Vec::new();
        if self.tests.len() == 0 {
            let mut detail = decimal_string(self.iterations as u64);
            detail.append(" iterations completed; no tests observed");
            checks.push(
                CheckPlan {
                    name: "flaky::scan".to_owned(),
                    verdict: Verdict::Pass,
                    severity: None,
                    tags: owned_tags("flaky", None),
                    body: CheckBody::Note(detail),
                },
            );
            assert(check_verdicts(checks@) =~= seq![Verdict::Pass]);
        } else {
            let mut i: usize = 0;
            while i < self.tests.len()
                invariant
                    i <= self.tests@.len(),
                    checks@.len() == i,
                    forall|k: int|
                        0 <= k < i ==> is_test_check(
                            #[trigger] checks@[k],
                            self.tests@[k],
                            self.reliability_threshold_bp,
                        ),
                decreases self.tests@.len() - i,
            {
                checks.push(CheckPlan::for_test(&self.tests[i], self.reliability_threshold_bp));
                i += 1;
            }
            assert(check_verdicts(checks@) =~= self.verdicts());
        }
        ReportPlan {
            subject: self.name.clone(),
            version: self.version.clone(),
            producer: "dev-flaky".to_owned(),
            checks,
        }
    }
}

impl ReportPlan {
    /// The report of a run that ended in the error `err`: a single
    /// failing `flaky::scan` check of severity `Critical` that carries
    /// the error's message and the tags `flaky` and `subprocess`.
    pub fn for_failure(run: &FlakyRun, err: &FlakyError) -> (p: ReportPlan)
        ensures
            p.subject@ == run@.name,
            p.version@ == run@.version,
            p.producer@ == producer_name(),
            p.checks@.len() == 1,
            is_error_check(p.checks@[0], *err),
    {
        let mut checks: Vec<CheckPlan> = Vec::new();
        checks.push(
            CheckPlan {
                name: "flaky::scan".to_owned(),
                verdict: Verdict::Fail,
                severity: Some(Severity::Critical),
                tags: owned_tags("flaky", Some("subprocess")),
                body: CheckBody::Note(err.message()),
            },
        );
        ReportPlan {
            subject: run.subject().to_owned(),
            version: run.subject_version().to_owned(),
            producer: "dev-flaky".to_owned(),
            checks,
        }
    }
}

} // verus!
