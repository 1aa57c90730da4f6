//! Classification, counts, builder and report outline.

use dev_flaky::{
    CheckBody, Classification, FlakyResult, FlakyRun, ReportPlan, Severity, TestReliability,
    Verdict,
};

fn t(name: &str, passes: u32, failures: u32) -> TestReliability {
    TestReliability {
        name: name.into(),
        passes,
        failures,
    }
}

/// The reliability of a record as a fraction in `[0.0, 1.0]`.
fn reliability(t: &TestReliability) -> f64 {
    let (passes, total) = t.reliability_fraction();
    if total == 0 {
        return 0.0;
    }
    passes as f64 / total as f64
}

fn passed(report: &ReportPlan) -> bool {
    !report.checks.is_empty() && report.checks.iter().all(|c| c.verdict == Verdict::Pass)
}

fn failed(report: &ReportPlan) -> bool {
    report.checks.iter().any(|c| c.verdict == Verdict::Fail)
}

#[test]
fn lib_iterations_clamped_to_min_two() {
    assert_eq!(FlakyRun::new("x", "0").iterations(0).iteration_count(), 2);
    assert_eq!(FlakyRun::new("x", "0").iterations(1).iteration_count(), 2);
    assert_eq!(FlakyRun::new("x", "0").iterations(50).iteration_count(), 50);
}

#[test]
fn classification_picks_stable_flaky_broken() {
    assert_eq!(t("a", 10, 0).classification(None), Classification::Stable);
    assert_eq!(t("a", 7, 3).classification(None), Classification::Flaky);
    assert_eq!(t("a", 0, 10).classification(None), Classification::Broken);
}

#[test]
fn classification_threshold_demotes_stable_to_flaky() {
    // 100% passes, threshold 99% — still stable.
    let stable = t("a", 100, 0);
    assert_eq!(stable.classification(Some(9900)), Classification::Stable);
    let near = TestReliability {
        name: "near".into(),
        passes: 99,
        failures: 0,
    };
    // Reliability == 100%, threshold 99% → still Stable.
    assert_eq!(near.classification(Some(9900)), Classification::Stable);
    // Threshold 100% → still Stable since 100 >= 100.
    assert_eq!(near.classification(Some(10000)), Classification::Stable);
}

#[test]
fn classification_threshold_does_not_apply_to_broken() {
    let broken = t("a", 0, 10);
    assert_eq!(broken.classification(Some(5000)), Classification::Broken);
}

#[test]
fn reliability_and_pct_match() {
    let t = t("x", 7, 3);
    assert!((reliability(&t) - 0.7).abs() < 1e-9);
    assert!((reliability(&t) * 100.0 - 70.0).abs() < 1e-9);
}

#[test]
fn empty_record_reliability_is_zero() {
    let t = t("x", 0, 0);
    assert_eq!(reliability(&t), 0.0);
    assert!(!t.is_stable());
    assert!(!t.is_broken());
    assert!(!t.is_flaky());
}

#[test]
fn classification_severity_and_label() {
    assert_eq!(Classification::Stable.severity(), None);
    assert_eq!(Classification::Flaky.severity(), Some(Severity::Warning));
    assert_eq!(Classification::Broken.severity(), Some(Severity::Error));
    assert_eq!(Classification::Stable.label(), "stable");
    assert_eq!(Classification::Flaky.label(), "flaky");
    assert_eq!(Classification::Broken.label(), "broken");
}

#[test]
fn result_count_helpers() {
    let r = FlakyResult {
        name: "x".into(),
        version: "0.1.0".into(),
        iterations: 10,
        tests: vec![
            t("stable_a", 10, 0),
            t("stable_b", 10, 0),
            t("flaky_a", 7, 3),
            t("broken", 0, 10),
        ],
        reliability_threshold_bp: None,
    };
    assert_eq!(r.stable_count(), 2);
    assert_eq!(r.flaky_count(), 1);
    assert_eq!(r.broken_count(), 1);
    assert_eq!(r.total_count(), 4);
}

#[test]
fn into_report_no_tests_passes() {
    let r = FlakyResult {
        name: "x".into(),
        version: "0.1.0".into(),
        iterations: 10,
        tests: Vec::new(),
        reliability_threshold_bp: None,
    };
    let report = r.report_plan();
    assert!(passed(&report));
    assert_eq!(report.checks.len(), 1);
    assert_eq!(report.checks[0].name, "flaky::scan");
}

#[test]
fn into_report_emits_one_check_per_test() {
    let r = FlakyResult {
        name: "x".into(),
        version: "0.1.0".into(),
        iterations: 10,
        tests: vec![t("stable", 10, 0), t("flaky", 7, 3), t("broken", 0, 10)],
        reliability_threshold_bp: None,
    };
    let report = r.report_plan();
    assert_eq!(report.checks.len(), 3);
    assert!(failed(&report)); // broken pushes overall to Fail
}

#[test]
fn report_tags_carry_classification() {
    let r = FlakyResult {
        name: "x".into(),
        version: "0.1.0".into(),
        iterations: 10,
        tests: vec![t("flaky", 7, 3)],
        reliability_threshold_bp: None,
    };
    let report = r.report_plan();
    let c = &report.checks[0];
    assert!(c.tags.iter().any(|tag| tag == "flaky"));
    // The reliability percentage is rendered from the counts.
    assert!(matches!(c.body, CheckBody::Counts { passes: 7, failures: 3 }));
}

#[test]
fn builder_chain_compiles_and_returns_set_values() {
    let r = FlakyRun::new("x", "0.1.0")
        .iterations(50)
        .workspace()
        .features("foo")
        .test_filter("integration::")
        .allow("known_flaky")
        .allow_all(&["a", "b"])
        .reliability_threshold(9900);
    assert_eq!(r.iteration_count(), 50);
    assert_eq!(r.subject(), "x");
    assert_eq!(r.subject_version(), "0.1.0");
    assert!(r.workspace_flag());
    assert_eq!(r.features_flag(), Some("foo"));
    assert_eq!(r.test_filter_str(), Some("integration::"));
    assert_eq!(r.allow_list_view().len(), 3);
    assert_eq!(r.reliability_threshold_value(), Some(9900));
}
