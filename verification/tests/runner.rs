//! libtest output parser.

use dev_flaky::{parse_test_outcomes, Outcome};

#[test]
fn parses_ok_failed_ignored() {
    let stdout = "\
running 4 tests
test foo::bar ... ok
test foo::baz ... FAILED
test foo::qux ... ignored
test foo::quux ... ok (0.01s)

failures:
foo::baz
";
    let outcomes = parse_test_outcomes(stdout);
    assert_eq!(outcomes.len(), 4);
    assert_eq!(outcomes[0], ("foo::bar".into(), Outcome::Pass));
    assert_eq!(outcomes[1], ("foo::baz".into(), Outcome::Fail));
    assert_eq!(outcomes[2], ("foo::qux".into(), Outcome::Ignored));
    assert_eq!(outcomes[3], ("foo::quux".into(), Outcome::Pass));
}

#[test]
fn skips_summary_lines() {
    let stdout = "\
test foo::a ... ok

test result: ok. 1 passed; 0 failed; 0 ignored; 0 measured; 0 filtered out
";
    let outcomes = parse_test_outcomes(stdout);
    assert_eq!(outcomes.len(), 1);
    assert_eq!(outcomes[0].0, "foo::a");
}

#[test]
fn ignores_unrelated_lines() {
    let stdout = "\
   Compiling foo v0.1.0
running 1 test
test test_a ... ok
hello world
";
    let outcomes = parse_test_outcomes(stdout);
    assert_eq!(outcomes.len(), 1);
    assert_eq!(outcomes[0].0, "test_a");
}

#[test]
fn ignores_unknown_outcomes() {
    let stdout = "test foo ... maybe\ntest bar ... ok\n";
    let outcomes = parse_test_outcomes(stdout);
    assert_eq!(outcomes.len(), 1);
    assert_eq!(outcomes[0].0, "bar");
}

#[test]
fn empty_input_yields_empty_output() {
    assert!(parse_test_outcomes("").is_empty());
}

#[test]
fn name_keeps_earlier_separators() {
    // The name ends at the last " ... ".
    let outcomes = parse_test_outcomes("test a ... b ... FAILED\n");
    assert_eq!(outcomes, vec![("a ... b".to_string(), Outcome::Fail)]);
}

#[test]
fn crlf_line_endings_are_stripped() {
    let outcomes = parse_test_outcomes("test x ... ok\r\ntest y ... ignored\r\n");
    assert_eq!(
        outcomes,
        vec![("x".to_string(), Outcome::Pass), ("y".to_string(), Outcome::Ignored)]
    );
}

#[test]
fn last_line_without_newline_is_read() {
    let outcomes = parse_test_outcomes("test only ... FAILED");
    assert_eq!(outcomes, vec![("only".to_string(), Outcome::Fail)]);
}

#[test]
fn outcome_word_is_first_after_separator() {
    // Leading white space before the word is skipped; a word that merely
    // starts with an outcome does not count.
    let outcomes = parse_test_outcomes("test a ...  \tok\ntest b ... okay\ntest c ...ok\n");
    assert_eq!(outcomes, vec![("a".to_string(), Outcome::Pass)]);
}

#[test]
fn line_must_start_with_test() {
    let outcomes = parse_test_outcomes(" test a ... ok\ntests b ... ok\ntest  c ... ok\n");
    assert_eq!(outcomes, vec![(" c".to_string(), Outcome::Pass)]);
}

#[test]
fn non_ascii_names_are_kept() {
    let outcomes = parse_test_outcomes("test m\u{f6}dul::\u{3b1} ... ok\n");
    assert_eq!(outcomes, vec![("m\u{f6}dul::\u{3b1}".to_string(), Outcome::Pass)]);
}

#[test]
fn parsing_is_line_local() {
    let a = "running 2 tests\ntest a ... ok\n";
    let b = "test b ... FAILED\ntest result: FAILED. 1 passed\n";
    let joined = format!("{a}{b}");
    let mut expected = parse_test_outcomes(a);
    expected.extend(parse_test_outcomes(b));
    assert_eq!(parse_test_outcomes(&joined), expected);
    assert_eq!(expected.len(), 2);
}
