//! Report outline, run arguments and error messages.

use dev_flaky::{
    CheckBody, Classification, FlakyError, FlakyResult, FlakyRun, ReportPlan, Severity,
    TestReliability, Verdict,
};

fn t(name: &str, passes: u32, failures: u32) -> TestReliability {
    TestReliability {
        name: name.into(),
        passes,
        failures,
    }
}

#[test]
fn each_test_check_follows_the_policy() {
    let r = FlakyResult {
        name: "x".into(),
        version: "0.1.0".into(),
        iterations: 10,
        tests: vec![t("s", 10, 0), t("f", 7, 3), t("b", 0, 10)],
        reliability_threshold_bp: None,
    };
    let p = r.report_plan();
    assert_eq!(p.subject, "x");
    assert_eq!(p.version, "0.1.0");
    assert_eq!(p.producer, "dev-flaky");
    let expected = [
        ("flaky::s", Verdict::Pass, None, "stable"),
        ("flaky::f", Verdict::Warn, Some(Severity::Warning), "flaky"),
        ("flaky::b", Verdict::Fail, Some(Severity::Error), "broken"),
    ];
    for (c, (name, verdict, severity, label)) in p.checks.iter().zip(expected) {
        assert_eq!(c.name, name);
        assert_eq!(c.verdict, verdict);
        assert_eq!(c.severity, severity);
        assert_eq!(c.tags, vec!["flaky".to_string(), label.to_string()]);
    }
    assert!(matches!(p.checks[2].body, CheckBody::Counts { passes: 0, failures: 10 }));
}

#[test]
fn empty_scan_note_names_iterations() {
    let r = FlakyResult {
        name: "x".into(),
        version: "0.1.0".into(),
        iterations: 120,
        tests: Vec::new(),
        reliability_threshold_bp: None,
    };
    let p = r.report_plan();
    assert_eq!(p.checks[0].severity, None);
    assert_eq!(p.checks[0].tags, vec!["flaky".to_string()]);
    match &p.checks[0].body {
        CheckBody::Note(d) => assert_eq!(d, "120 iterations completed; no tests observed"),
        other => panic!("unexpected body {:?}", other),
    }
}

#[test]
fn threshold_demotes_in_report() {
    let r = FlakyResult {
        name: "x".into(),
        version: "0.1.0".into(),
        iterations: 10,
        tests: vec![t("never_ran", 0, 0)],
        reliability_threshold_bp: Some(1),
    };
    assert_eq!(r.flaky_count(), 1);
    assert_eq!(r.report_plan().checks[0].verdict, Verdict::Warn);
}

#[test]
fn threshold_above_full_demotes_a_passing_test() {
    // Only a threshold above 100% demotes a test that always passed.
    assert_eq!(t("a", 5, 0).classification(Some(10001)), Classification::Flaky);
    assert_eq!(t("a", 5, 0).classification(Some(10000)), Classification::Stable);
    assert_eq!(t("a", 0, 0).classification(Some(0)), Classification::Stable);
    assert_eq!(t("a", 0, 0).classification(None), Classification::Stable);
}

#[test]
fn threshold_is_clamped_to_full_percent() {
    let r = FlakyRun::new("x", "0").reliability_threshold(25000);
    assert_eq!(r.reliability_threshold_value(), Some(10000));
}

#[test]
fn failure_report_is_critical_scan() {
    let run = FlakyRun::new("self", "0.0.0");
    let p = ReportPlan::for_failure(&run, &FlakyError::SubprocessFailed("boom".into()));
    assert_eq!(p.subject, "self");
    assert_eq!(p.version, "0.0.0");
    assert_eq!(p.checks.len(), 1);
    let c = &p.checks[0];
    assert_eq!(c.name, "flaky::scan");
    assert_eq!(c.verdict, Verdict::Fail);
    assert_eq!(c.severity, Some(Severity::Critical));
    assert_eq!(c.tags, vec!["flaky".to_string(), "subprocess".to_string()]);
    match &c.body {
        CheckBody::Note(d) => assert_eq!(d, "cargo test subprocess failed: boom"),
        other => panic!("unexpected body {:?}", other),
    }
}

#[test]
fn error_messages() {
    assert_eq!(FlakyError::ToolNotInstalled.message(), "cargo is not on PATH");
    assert_eq!(
        FlakyError::ParseError("bad".into()).message(),
        "could not parse cargo test output: bad"
    );
}

#[test]
fn cargo_arguments_follow_settings() {
    let plain = FlakyRun::new("x", "0");
    assert_eq!(plain.cargo_test_args(), vec!["test", "--no-fail-fast", "--"]);
    let full = FlakyRun::new("x", "0")
        .workspace()
        .features("a b")
        .test_filter("integration::")
        .in_dir("/tmp/proj");
    assert_eq!(
        full.cargo_test_args(),
        vec!["test", "--no-fail-fast", "--workspace", "--features", "a b", "--", "integration::"]
    );
    assert_eq!(full.workdir_path(), Some("/tmp/proj"));
}

#[test]
fn reliability_fraction_is_exact() {
    assert_eq!(t("a", 7, 3).reliability_fraction(), (7, 10));
    assert_eq!(t("a", u32::MAX, u32::MAX).reliability_fraction(), (u32::MAX, 2 * u32::MAX as u64));
}

#[test]
fn class_counts_add_up() {
    let r = FlakyResult {
        name: "x".into(),
        version: "0".into(),
        iterations: 4,
        tests: vec![t("a", 4, 0), t("b", 2, 2), t("c", 0, 4), t("d", 0, 0), t("e", 1, 3)],
        reliability_threshold_bp: Some(5000),
    };
    assert_eq!(r.stable_count(), 1);
    assert_eq!(r.flaky_count(), 3);
    assert_eq!(r.broken_count(), 1);
    assert_eq!(r.stable_count() + r.flaky_count() + r.broken_count(), r.total_count());
}

#[test]
fn classification_ignores_the_name() {
    for th in [None, Some(0), Some(9900), Some(20000)] {
        for (p, f) in [(0, 0), (3, 0), (3, 1), (0, 2)] {
            assert_eq!(t("one", p, f).classification(th), t("other", p, f).classification(th));
        }
    }
}

#[test]
fn report_warns_iff_flaky_test() {
    let stable_only = FlakyResult {
        name: "x".into(),
        version: "0".into(),
        iterations: 2,
        tests: vec![t("a", 2, 0)],
        reliability_threshold_bp: None,
    };
    assert!(stable_only.report_plan().checks.iter().all(|c| c.verdict == Verdict::Pass));
    let with_flaky = FlakyResult { tests: vec![t("a", 2, 0), t("b", 1, 1)], ..stable_only };
    let verdicts: Vec<Verdict> = with_flaky.report_plan().checks.iter().map(|c| c.verdict).collect();
    assert_eq!(verdicts, vec![Verdict::Pass, Verdict::Warn]);
}

#[test]
fn counts_detail_names_passes_and_runs() {
    assert_eq!(CheckBody::counts_detail(7, 3), "7/10 passed");
    assert_eq!(CheckBody::counts_detail(0, 0), "0/0 passed");
    assert_eq!(
        CheckBody::counts_detail(u32::MAX, u32::MAX),
        "4294967295/8589934590 passed"
    );
}
