//! Public-API smoke tests.

use dev_flaky::{Classification, FlakyResult, FlakyRun, ReportPlan, TestReliability, Verdict};

fn t(name: &str, passes: u32, failures: u32) -> TestReliability {
    TestReliability {
        name: name.into(),
        passes,
        failures,
    }
}

fn make_result(tests: Vec<TestReliability>) -> FlakyResult {
    FlakyResult {
        name: "x".into(),
        version: "0.1.0".into(),
        iterations: 10,
        tests,
        reliability_threshold_bp: None,
    }
}

fn reliability(t: &TestReliability) -> f64 {
    let (passes, total) = t.reliability_fraction();
    if total == 0 {
        return 0.0;
    }
    passes as f64 / total as f64
}

fn passed(report: &ReportPlan) -> bool {
    !report.checks.is_empty() && report.checks.iter().all(|c| c.verdict == Verdict::Pass)
}

fn failed(report: &ReportPlan) -> bool {
    report.checks.iter().any(|c| c.verdict == Verdict::Fail)
}

#[test]
fn default_iterations_is_ten() {
    let r = FlakyRun::new("x", "0.1.0");
    assert_eq!(r.iteration_count(), 10);
}

#[test]
fn smoke_iterations_clamped_to_min_two() {
    let r = FlakyRun::new("x", "0.1.0").iterations(0);
    assert_eq!(r.iteration_count(), 2);
    let r = FlakyRun::new("x", "0.1.0").iterations(1);
    assert_eq!(r.iteration_count(), 2);
}

#[test]
fn run_builder_chains() {
    let _r = FlakyRun::new("x", "0.1.0")
        .iterations(20)
        .workspace()
        .features("foo")
        .test_filter("integration::")
        .allow("known_flaky")
        .allow_all(&["a", "b"])
        .reliability_threshold(9900);
}

#[test]
fn stable_test_classified_correctly() {
    let r = t("ok", 10, 0);
    assert!(r.is_stable());
    assert_eq!(reliability(&r), 1.0);
    assert_eq!(r.classification(None), Classification::Stable);
}

#[test]
fn broken_test_classified_correctly() {
    let r = t("bad", 0, 10);
    assert!(r.is_broken());
    assert_eq!(reliability(&r), 0.0);
    assert_eq!(r.classification(None), Classification::Broken);
}

#[test]
fn flaky_test_classified_correctly() {
    let r = t("flaky", 6, 4);
    assert!(r.is_flaky());
    assert!((reliability(&r) - 0.6).abs() < 0.0001);
    assert_eq!(r.classification(None), Classification::Flaky);
}

#[test]
fn empty_result_passes() {
    let r = make_result(Vec::new());
    assert!(passed(&r.report_plan()));
}

#[test]
fn broken_test_produces_failing_report() {
    let r = make_result(vec![t("broken", 0, 10)]);
    assert!(failed(&r.report_plan()));
}

#[test]
fn flaky_count_works() {
    let r = make_result(vec![t("stable", 10, 0), t("flaky", 5, 5)]);
    assert_eq!(r.flaky_count(), 1);
    assert_eq!(r.stable_count(), 1);
    assert_eq!(r.broken_count(), 0);
    assert_eq!(r.total_count(), 2);
}
