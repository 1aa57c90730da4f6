//! Aggregation of outcomes across iterations.

use dev_flaky::{parse_test_outcomes, FlakyError, FlakyRun, Tally};

fn record(tally: &mut Tally, stdout: &str, stderr: &str, success: bool) {
    tally.record_iteration(parse_test_outcomes(stdout), stderr.to_string(), success);
}

#[test]
fn counts_passes_and_failures_per_test() {
    let mut tally = Tally::new();
    record(&mut tally, "test b ... ok\ntest a ... FAILED\n", "", false);
    record(&mut tally, "test a ... ok\ntest b ... ok\n", "", true);
    record(&mut tally, "test a ... FAILED\ntest c ... ok\n", "", false);
    let result = tally.finish(&FlakyRun::new("crate", "1.2.3").iterations(3)).unwrap();
    assert_eq!(result.name, "crate");
    assert_eq!(result.version, "1.2.3");
    assert_eq!(result.iterations, 3);
    let got: Vec<(String, u32, u32)> =
        result.tests.iter().map(|t| (t.name.clone(), t.passes, t.failures)).collect();
    assert_eq!(
        got,
        vec![
            ("a".to_string(), 1, 2),
            ("b".to_string(), 2, 0),
            ("c".to_string(), 1, 0),
        ]
    );
}

#[test]
fn tests_are_sorted_by_name() {
    let mut tally = Tally::new();
    record(&mut tally, "test z ... ok\ntest m::b ... ok\ntest m::a ... ok\ntest B ... ok\n", "", true);
    record(&mut tally, "test z ... ok\ntest m::b ... ok\ntest m::a ... ok\ntest B ... ok\n", "", true);
    let result = tally.finish(&FlakyRun::new("x", "0").iterations(2)).unwrap();
    let names: Vec<&str> = result.tests.iter().map(|t| t.name.as_str()).collect();
    assert_eq!(names, vec!["B", "m::a", "m::b", "z"]);
}

#[test]
fn ignored_tests_are_skipped() {
    let mut tally = Tally::new();
    record(&mut tally, "test a ... ignored\ntest b ... ok\n", "", true);
    record(&mut tally, "test a ... ignored\ntest b ... ok\n", "", true);
    let result = tally.finish(&FlakyRun::new("x", "0").iterations(2)).unwrap();
    assert_eq!(result.tests.len(), 1);
    assert_eq!(result.tests[0].name, "b");
}

#[test]
fn allow_listed_tests_are_dropped() {
    let mut tally = Tally::new();
    record(&mut tally, "test a ... FAILED\ntest b ... ok\ntest c ... ok\n", "", false);
    record(&mut tally, "test a ... FAILED\ntest b ... ok\ntest c ... ok\n", "", false);
    let run = FlakyRun::new("x", "0").iterations(2).allow("a").allow_all(&["c"]);
    let result = tally.finish(&run).unwrap();
    assert_eq!(result.tests.len(), 1);
    assert_eq!(result.tests[0].name, "b");
}

#[test]
fn failing_iteration_without_tests_is_noise() {
    let mut tally = Tally::new();
    record(&mut tally, "", "error[E0425]: cannot find value", false);
    record(&mut tally, "test a ... ok\n", "", true);
    assert_eq!(tally.iterations_completed(), 2);
    let result = tally.finish(&FlakyRun::new("x", "0").iterations(2)).unwrap();
    assert_eq!(result.iterations, 2);
    assert_eq!(result.tests.len(), 1);
}

#[test]
fn only_noise_surfaces_last_subprocess_error() {
    let mut tally = Tally::new();
    record(&mut tally, "", "first", false);
    record(&mut tally, "Compiling\n", "second", false);
    match tally.finish(&FlakyRun::new("x", "0").iterations(2)) {
        Err(FlakyError::SubprocessFailed(s)) => assert_eq!(s, "second"),
        other => panic!("unexpected: {:?}", other),
    }
}

#[test]
fn successful_empty_runs_give_empty_result() {
    let mut tally = Tally::new();
    record(&mut tally, "running 0 tests\n", "", true);
    record(&mut tally, "", "", true);
    let result = tally.finish(&FlakyRun::new("x", "0").iterations(2)).unwrap();
    assert!(result.tests.is_empty());
    assert_eq!(result.iterations, 2);
}

#[test]
fn threshold_is_carried_into_the_result() {
    let mut tally = Tally::new();
    record(&mut tally, "test a ... ok\n", "", true);
    record(&mut tally, "test a ... ok\n", "", true);
    let result = tally
        .finish(&FlakyRun::new("x", "0").iterations(2).reliability_threshold(9550))
        .unwrap();
    assert_eq!(result.reliability_threshold_bp, Some(9550));
}

#[test]
fn ignored_lines_alone_are_not_an_error() {
    let mut tally = Tally::new();
    record(&mut tally, "test a ... ignored\n", "", true);
    record(&mut tally, "", "boom", false);
    let result = tally.finish(&FlakyRun::new("x", "0").iterations(2)).unwrap();
    assert!(result.tests.is_empty());
    assert_eq!(result.iterations, 2);
}

#[test]
fn two_runs_give_exact_records() {
    let mut tally = Tally::new();
    record(&mut tally, "test b ... FAILED\ntest a ... ok\n", "", false);
    record(&mut tally, "test a ... ok\ntest b ... ok\n", "", true);
    let result = tally.finish(&FlakyRun::new("x", "0.1.0").iterations(2)).unwrap();
    assert_eq!(result.name, "x");
    assert_eq!(result.version, "0.1.0");
    assert_eq!(result.iterations, 2);
    assert_eq!(result.reliability_threshold_bp, None);
    let got: Vec<(String, u32, u32)> =
        result.tests.iter().map(|t| (t.name.clone(), t.passes, t.failures)).collect();
    assert_eq!(got, vec![("a".to_string(), 2, 0), ("b".to_string(), 1, 1)]);
}

#[test]
fn small_counts_fit() {
    let mut tally = Tally::new();
    let observed = parse_test_outcomes("test a ... ok\ntest a ... FAILED\ntest b ... ignored\n");
    assert!(tally.counts_fit(&observed));
    tally.record_iteration(observed, String::new(), false);
    assert!(tally.counts_fit(&parse_test_outcomes("test a ... ok\n")));
}

#[test]
fn done_after_configured_iterations() {
    let run = FlakyRun::new("x", "0").iterations(2);
    let mut tally = Tally::new();
    assert!(!tally.done(&run));
    record(&mut tally, "test a ... ok\n", "", true);
    assert!(!tally.done(&run));
    record(&mut tally, "test a ... ok\n", "", true);
    assert!(tally.done(&run));
    assert_eq!(tally.finish(&run).unwrap().iterations, 2);
}
