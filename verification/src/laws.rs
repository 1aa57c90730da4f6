//! Properties of the library as a whole, proved over the specifications
//! that the functions' contracts use.

use vstd::prelude::*;

use crate::classification::Classification;
use crate::parse::{
    first_word,
    last_occurrence,
    last_occurrence_from,
    lemma_line_break,
    lemma_skip_space,
    lemma_word_prefix,
    line_break,
    outcomes_in_lines,
    parse_line,
    parse_outcomes,
    strip_cr,
    text_lines,
    word_outcome,
    Outcome,
};
use crate::reliability::{broken_counts, classify, flaky_counts, stable_counts, TestReliability};
use crate::order::precedes;
use crate::tally::{lemma_occurrences_append, occurrences};
use crate::report::{counts_text, result_verdicts, verdict_of, Verdict};
use crate::result::{count_classified, FlakyResult};
use crate::run::{at_least, cargo_test_arguments, RunSettings, MIN_ITERATIONS};
use crate::text::{all_digits, decimal, decimal_value, is_space, lemma_decimal_reads_back, occurs_at};

verus! {

/// A record that ran at least once is exactly one of stable, flaky and
/// broken; a record that never ran is none of them.
pub proof fn law_one_class_per_record(passes: nat, failures: nat)
    ensures
        passes + failures > 0 <==> (stable_counts(passes, failures) || flaky_counts(
            passes,
            failures,
        ) || broken_counts(passes, failures)),
        !(stable_counts(passes, failures) && flaky_counts(passes, failures)),
        !(stable_counts(passes, failures) && broken_counts(passes, failures)),
        !(flaky_counts(passes, failures) && broken_counts(passes, failures)),
{
}

/// Without a threshold the classification follows the policy table:
/// no failure is `Stable`, failures with passes are `Flaky`, failures
/// without passes are `Broken`.
pub proof fn law_policy_table(passes: nat, failures: nat)
    ensures
        (classify(passes, failures, None) == Classification::Stable) <==> failures == 0,
        (classify(passes, failures, None) == Classification::Flaky) <==> flaky_counts(
            passes,
            failures,
        ),
        (classify(passes, failures, None) == Classification::Broken) <==> broken_counts(
            passes,
            failures,
        ),
{
}

/// A threshold never changes whether a test is `Broken`.
pub proof fn law_threshold_keeps_broken(passes: nat, failures: nat, threshold_bp: u32)
    ensures
        (classify(passes, failures, Some(threshold_bp)) == Classification::Broken) <==> (classify(
            passes,
            failures,
            None,
        ) == Classification::Broken),
{
}

/// A threshold can only demote `Stable` to `Flaky`, and only for a test
/// without failures.
pub proof fn law_threshold_only_demotes(passes: nat, failures: nat, threshold_bp: u32)
    ensures
        classify(passes, failures, Some(threshold_bp)) != classify(passes, failures, None)
            ==> classify(passes, failures, None) == Classification::Stable && classify(
            passes,
            failures,
            Some(threshold_bp),
        ) == Classification::Flaky && failures == 0,
{
}

/// A threshold of at most 100% leaves a test that always passed stable.
pub proof fn law_full_reliability_stays_stable(passes: nat, failures: nat, threshold_bp: u32)
    requires
        stable_counts(passes, failures),
        threshold_bp <= 10000,
    ensures
        classify(passes, failures, Some(threshold_bp)) == Classification::Stable,
{
    assert(10000 * passes >= threshold_bp * passes) by (nonlinear_arith)
        requires
            threshold_bp <= 10000,
    ;
}

/// The stable, flaky and broken counts of a result add up to its number
/// of tests.
pub proof fn law_counts_partition(tests: Seq<TestReliability>, threshold_bp: Option<u32>)
    ensures
        count_classified(tests, threshold_bp, Classification::Stable) + count_classified(
            tests,
            threshold_bp,
            Classification::Flaky,
        ) + count_classified(tests, threshold_bp, Classification::Broken) == tests.len(),
    decreases tests.len(),
{
    if tests.len() > 0 {
        law_counts_partition(tests.drop_last(), threshold_bp);
    }
}

proof fn lemma_count_positive(tests: Seq<TestReliability>, threshold_bp: Option<u32>, c: Classification)
    ensures
        count_classified(tests, threshold_bp, c) > 0 <==> exists|i: int|
            0 <= i < tests.len() && (#[trigger] tests[i]).classified(threshold_bp) == c,
    decreases tests.len(),
{
    if tests.len() > 0 {
        let init = tests.drop_last();
        lemma_count_positive(init, threshold_bp, c);
        if count_classified(init, threshold_bp, c) > 0 {
            let i = choose|i: int| 0 <= i < init.len() && (#[trigger] init[i]).classified(threshold_bp) == c;
            assert(tests[i] == init[i]);
        }
        if exists|i: int| 0 <= i < tests.len() && (#[trigger] tests[i]).classified(threshold_bp) == c {
            let i = choose|i: int| 0 <= i < tests.len() && (#[trigger] tests[i]).classified(threshold_bp) == c;
            if i < tests.len() - 1 {
                assert(init[i] == tests[i]);
            }
        }
    }
}

proof fn lemma_verdict_present(r: FlakyResult, v: Verdict, c: Classification)
    requires
        r.tests@.len() > 0,
        v != Verdict::Pass,
        verdict_of(c) == v,
    ensures
        result_verdicts(r).contains(v) <==> count_classified(
            r.tests@,
            r.reliability_threshold_bp,
            c,
        ) > 0,
{
    let th = r.reliability_threshold_bp;
    lemma_count_positive(r.tests@, th, c);
    let vs = result_verdicts(r);
    if vs.contains(v) {
        let i = choose|i: int| 0 <= i < vs.len() && vs[i] == v;
        assert(r.tests@[i].classified(th) == c);
    }
    if count_classified(r.tests@, th, c) > 0 {
        let i = choose|i: int| 0 <= i < r.tests@.len() && (#[trigger] r.tests@[i]).classified(th) == c;
        assert(vs[i] == v);
    }
}

/// A result's report holds a failing check exactly when some test is
/// broken, and a warning exactly when some test is flaky.
pub proof fn law_report_verdicts(r: FlakyResult)
    ensures
        result_verdicts(r).contains(Verdict::Fail) <==> count_classified(
            r.tests@,
            r.reliability_threshold_bp,
            Classification::Broken,
        ) > 0,
        result_verdicts(r).contains(Verdict::Warn) <==> count_classified(
            r.tests@,
            r.reliability_threshold_bp,
            Classification::Flaky,
        ) > 0,
{
    if r.tests@.len() > 0 {
        lemma_verdict_present(r, Verdict::Fail, Classification::Broken);
        lemma_verdict_present(r, Verdict::Warn, Classification::Flaky);
    } else {
        assert(result_verdicts(r)[0] == Verdict::Pass);
        assert(!result_verdicts(r).contains(Verdict::Fail));
        assert(!result_verdicts(r).contains(Verdict::Warn));
    }
}

/// The classification depends on the pass and failure counts and the
/// threshold alone, never on the test's name.
pub proof fn law_classification_ignores_name(
    a: TestReliability,
    b: TestReliability,
    threshold_bp: Option<u32>,
)
    requires
        a.passes == b.passes,
        a.failures == b.failures,
    ensures
        a.classified(threshold_bp) == b.classified(threshold_bp),
{
}

/// A libtest summary line (`test result: ...`) reports no outcome.
pub proof fn law_summary_lines_report_nothing(line: Seq<char>)
    requires
        occurs_at(line, 0, "test "@ + "result: "@),
    ensures
        parse_line(line) is None,
{
    let p = "test "@;
    let q = "result: "@;
    let n = (p.len() + q.len()) as int;
    assert(line.subrange(0, n) == p + q);
    assert(line.subrange(0, p.len() as int) =~= (p + q).subrange(0, p.len() as int));
    assert((p + q).subrange(0, p.len() as int) =~= p);
    let rest = line.skip(p.len() as int);
    assert(rest.subrange(0, q.len() as int) =~= line.subrange(p.len() as int, n));
    assert(line.subrange(p.len() as int, n) =~= (p + q).subrange(p.len() as int, n));
    assert((p + q).subrange(p.len() as int, n) =~= q);
}

proof fn lemma_line_break_found(s: Seq<char>, k: int)
    requires
        0 <= k < s.len(),
        s[k] == '\n',
    ensures
        line_break(s) <= k,
    decreases k,
{
    if k > 0 && s[0] != '\n' {
        lemma_line_break_found(s.drop_first(), k - 1);
    }
}

proof fn lemma_line_break_append(a: Seq<char>, b: Seq<char>)
    requires
        line_break(a) < a.len(),
    ensures
        line_break(a + b) == line_break(a),
    decreases a.len(),
{
    if a[0] != '\n' {
        assert((a + b).drop_first() =~= a.drop_first() + b);
        lemma_line_break_append(a.drop_first(), b);
    }
}

proof fn lemma_text_lines_append(a: Seq<char>, b: Seq<char>)
    requires
        a.len() == 0 || a.last() == '\n',
    ensures
        text_lines(a + b) == text_lines(a) + text_lines(b),
    decreases a.len(),
{
    if a.len() == 0 {
        assert(a + b =~= b);
        assert(text_lines(a) + text_lines(b) =~= text_lines(b));
    } else {
        lemma_line_break_found(a, a.len() - 1);
        lemma_line_break_append(a, b);
        let i = line_break(a) as int;
        let rest = a.skip(i + 1);
        assert((a + b).take(i) =~= a.take(i));
        assert((a + b).skip(i + 1) =~= rest + b);
        if rest.len() > 0 {
            assert(rest.last() == a.last());
        }
        lemma_text_lines_append(rest, b);
        assert(text_lines(a + b) =~= text_lines(a) + text_lines(b));
    }
}

proof fn lemma_outcomes_in_lines_append(x: Seq<Seq<char>>, y: Seq<Seq<char>>)
    ensures
        outcomes_in_lines(x + y) == outcomes_in_lines(x) + outcomes_in_lines(y),
    decreases x.len(),
{
    if x.len() == 0 {
        assert(x + y =~= y);
        assert(outcomes_in_lines(x) + outcomes_in_lines(y) =~= outcomes_in_lines(y));
    } else {
        assert((x + y)[0] == x[0]);
        assert((x + y).drop_first() =~= x.drop_first() + y);
        lemma_outcomes_in_lines_append(x.drop_first(), y);
        assert(outcomes_in_lines(x + y) =~= outcomes_in_lines(x) + outcomes_in_lines(y));
    }
}

/// Parsing is line-local: the outcomes of two outputs joined after a
/// complete line are the outcomes of the first followed by those of the
/// second.
pub proof fn law_parse_is_line_local(a: Seq<char>, b: Seq<char>)
    requires
        a.len() == 0 || a.last() == '\n',
    ensures
        parse_outcomes(a + b) == parse_outcomes(a) + parse_outcomes(b),
{
    lemma_text_lines_append(a, b);
    lemma_outcomes_in_lines_append(text_lines(a), text_lines(b));
}

/// Each class count is the number of tests whose own classification is
/// that class.
pub proof fn law_count_is_filter_length(
    tests: Seq<TestReliability>,
    threshold_bp: Option<u32>,
    c: Classification,
)
    ensures
        count_classified(tests, threshold_bp, c) == tests.filter(
            |t: TestReliability| t.classified(threshold_bp) == c,
        ).len(),
    decreases tests.len(),
{
    reveal_with_fuel(Seq::filter, 1);
    if tests.len() > 0 {
        law_count_is_filter_length(tests.drop_last(), threshold_bp, c);
    }
}

/// Adding one test to a result adds one to the count of that test's own
/// class and leaves the other counts as they were.
pub proof fn law_count_after_push(
    tests: Seq<TestReliability>,
    t: TestReliability,
    threshold_bp: Option<u32>,
    c: Classification,
)
    ensures
        count_classified(tests.push(t), threshold_bp, c) == count_classified(
            tests,
            threshold_bp,
            c,
        ) + if t.classified(threshold_bp) == c {
            1nat
        } else {
            0nat
        },
{
    assert(tests.push(t).drop_last() =~= tests);
}

/// The configured iteration count is the larger of the requested count
/// and the minimum: never below either, and one of the two.
pub proof fn law_iterations_is_max(n: u32)
    ensures
        at_least(n, MIN_ITERATIONS) >= n,
        at_least(n, MIN_ITERATIONS) >= MIN_ITERATIONS,
        at_least(n, MIN_ITERATIONS) == n || at_least(n, MIN_ITERATIONS) == MIN_ITERATIONS,
{
}

/// The `cargo` arguments start with `test --no-fail-fast`; a set libtest
/// filter is the last argument, right after `--`; without one `--` is
/// last. Each setting adds exactly its own arguments.
pub proof fn law_cargo_arguments_shape(s: RunSettings)
    ensures
        cargo_test_arguments(s)[0] == "test"@,
        cargo_test_arguments(s)[1] == "--no-fail-fast"@,
        cargo_test_arguments(s).len() == 3 + (if s.workspace {
            1int
        } else {
            0int
        }) + (if s.features is Some {
            2int
        } else {
            0int
        }) + (if s.test_filter is Some {
            1int
        } else {
            0int
        }),
        match s.test_filter {
            Some(f) => {
                let a = cargo_test_arguments(s);
                &&& a.last() == f
                &&& a[a.len() - 2] == "--"@
            },
            None => cargo_test_arguments(s).last() == "--"@,
        },
        match s.features {
            Some(f) => {
                let a = cargo_test_arguments(s);
                let at = if s.workspace {
                    3int
                } else {
                    2int
                };
                &&& a[at] == "--features"@
                &&& a[at + 1] == f
            },
            None => true,
        },
        s.workspace ==> cargo_test_arguments(s)[2] == "--workspace"@,
{
}

/// A test check's counts text reads `<a>/<b> passed`, where `a` and `b`
/// are written in decimal digits, `a` is the number of passes and `b` the
/// number of runs, passes plus failures.
pub proof fn law_counts_text_figures(passes: u32, failures: u32)
    ensures
        exists|a: Seq<char>, b: Seq<char>|
            {
                &&& counts_text(passes, failures) == a + "/"@ + b + " passed"@
                &&& a.len() > 0 && all_digits(a) && decimal_value(a) == passes
                &&& b.len() > 0 && all_digits(b) && decimal_value(b) == passes + failures
            },
{
    let a = decimal(passes as nat);
    let b = decimal((passes + failures) as nat);
    lemma_decimal_reads_back(passes as nat);
    lemma_decimal_reads_back((passes + failures) as nat);
    assert(counts_text(passes, failures) == a + "/"@ + b + " passed"@);
}

proof fn lemma_last_from(s: Seq<char>, pat: Seq<char>, from: int, k: int)
    requires
        0 <= k <= from,
        occurs_at(s, k, pat),
        forall|j: int| k < j <= from ==> !occurs_at(s, j, pat),
    ensures
        last_occurrence_from(s, pat, from) == Some(k),
    decreases from - k,
{
    if from > k {
        lemma_last_from(s, pat, from - 1, k);
    }
}

proof fn lemma_not_summary(name: Seq<char>, w: Seq<char>)
    requires
        !occurs_at(name + " ... "@, 0, "result: "@),
    ensures
        !occurs_at(name + " ... "@ + w, 0, "result: "@),
{
    reveal_strlit(" ... ");
    reveal_strlit("result: ");
    let rest = name + " ... "@ + w;
    let k = name.len() as int;
    if occurs_at(rest, 0, "result: "@) {
        if name.len() >= 3 {
            assert(rest.subrange(0, 8) =~= (name + " ... "@).subrange(0, 8));
        } else {
            assert(rest.subrange(0, 8)[k] == rest[k]);
        }
    }
}

proof fn lemma_separator_is_last(name: Seq<char>, w: Seq<char>)
    requires
        w.len() > 0,
        w[0] != '.',
        forall|i: int| 0 <= i < w.len() ==> !is_space(#[trigger] w[i]),
    ensures
        last_occurrence(name + " ... "@ + w, " ... "@) == Some(name.len() as int),
{
    reveal_strlit(" ... ");
    let sep = " ... "@;
    let rest = name + sep + w;
    let k = name.len() as int;
    assert(rest.subrange(k, k + 5) =~= sep);
    assert forall|j: int| k < j <= k + w.len() implies !occurs_at(rest, j, sep) by {
        if occurs_at(rest, j, sep) {
            assert(rest.subrange(j, j + 5)[0] == rest[j]);
            assert(rest.subrange(j, j + 5)[1] == rest[j + 1]);
            if j >= k + 5 {
                assert(rest[j] == w[j - k - 5]);
            } else if j == k + 4 {
                assert(rest[j + 1] == w[0]);
            }
        }
    }
    lemma_last_from(rest, sep, k + w.len(), k);
}

proof fn lemma_first_word_whole(w: Seq<char>)
    requires
        forall|i: int| 0 <= i < w.len() ==> !is_space(#[trigger] w[i]),
    ensures
        first_word(w) == w,
{
    lemma_skip_space(w, 0);
    assert(w.skip(0) =~= w);
    lemma_word_prefix(w, w.len() as int);
    assert(w.take(w.len() as int) =~= w);
}

/// The line `test <name> ... <w>` reports `name` with the outcome that `w`
/// names, for a word `w` without white space that does not start with a dot.
proof fn lemma_line_with_word(name: Seq<char>, w: Seq<char>, o: Outcome)
    requires
        !occurs_at(name + " ... "@, 0, "result: "@),
        w.len() > 0,
        w[0] != '.',
        forall|i: int| 0 <= i < w.len() ==> !is_space(#[trigger] w[i]),
        word_outcome(w) == Some(o),
    ensures
        parse_line("test "@ + name + " ... "@ + w) == Some((name, o)),
{
    let p = "test "@;
    let sep = " ... "@;
    let line = p + name + sep + w;
    let rest = name + sep + w;
    let k = name.len() as int;
    assert(line.subrange(0, p.len() as int) =~= p);
    assert(line.skip(p.len() as int) =~= rest);
    lemma_not_summary(name, w);
    lemma_separator_is_last(name, w);
    assert(rest.skip(k + sep.len()) =~= w);
    assert(rest.take(k) =~= name);
    lemma_first_word_whole(w);
}

/// A libtest line `test <name> ... ok` reports `(name, Pass)`, `FAILED`
/// reports `(name, Fail)` and `ignored` reports `(name, Ignored)`, whatever
/// the name, unless the line is the `test result: ` summary line.
pub proof fn law_test_line_reports_its_test(name: Seq<char>)
    requires
        !occurs_at(name + " ... "@, 0, "result: "@),
    ensures
        parse_line("test "@ + name + " ... "@ + "ok"@) == Some((name, Outcome::Pass)),
        parse_line("test "@ + name + " ... "@ + "FAILED"@) == Some((name, Outcome::Fail)),
        parse_line("test "@ + name + " ... "@ + "ignored"@) == Some((name, Outcome::Ignored)),
{
    reveal_strlit("ok");
    reveal_strlit("FAILED");
    reveal_strlit("ignored");
    assert("ok"@ != "FAILED"@);
    assert("ok"@ != "ignored"@);
    assert("FAILED"@ != "ignored"@);
    lemma_line_with_word(name, "ok"@, Outcome::Pass);
    lemma_line_with_word(name, "FAILED"@, Outcome::Fail);
    lemma_line_with_word(name, "ignored"@, Outcome::Ignored);
}

/// A single line, with or without a line ending (`\n` or `\r\n`),
/// reports what `parse_line` reads from it, and nothing else.
pub proof fn law_single_line(l: Seq<char>)
    requires
        forall|i: int| 0 <= i < l.len() ==> #[trigger] l[i] != '\n',
        l.len() > 0 ==> l.last() != '\r',
    ensures
        parse_outcomes(l + seq!['\n']) == parse_outcomes(l + seq!['\r', '\n']),
        parse_outcomes(l + seq!['\n']) == match parse_line(l) {
            Some(p) => seq![p],
            None => Seq::empty(),
        },
        l.len() > 0 ==> parse_outcomes(l) == parse_outcomes(l + seq!['\n']),
{
    let one = match parse_line(l) {
        Some(p) => seq![p],
        None => Seq::<(Seq<char>, Outcome)>::empty(),
    };
    let empty_text = Seq::<char>::empty();
    assert(text_lines(empty_text) =~= Seq::<Seq<char>>::empty());
    assert(outcomes_in_lines(Seq::<Seq<char>>::empty()) =~= Seq::<(Seq<char>, Outcome)>::empty());
    assert(seq![l][0] == l);
    assert(seq![l].drop_first() =~= Seq::<Seq<char>>::empty());
    assert(outcomes_in_lines(seq![l]) =~= one);
    assert(strip_cr(l) == l);
    let lf = l + seq!['\n'];
    assert forall|j: int| 0 <= j < l.len() implies lf[j] != '\n' by {
        assert(lf[j] == l[j]);
    }
    lemma_line_break(lf, l.len() as int);
    assert(lf.take(l.len() as int) =~= l);
    assert(lf.skip(l.len() as int + 1) =~= empty_text);
    assert(text_lines(lf) =~= seq![l]);
    let crlf = l + seq!['\r', '\n'];
    assert forall|j: int| 0 <= j < l.len() + 1 implies crlf[j] != '\n' by {
        if j < l.len() {
            assert(crlf[j] == l[j]);
        }
    }
    lemma_line_break(crlf, l.len() as int + 1);
    assert(crlf.take(l.len() as int + 1) =~= l.push('\r'));
    assert(strip_cr(l.push('\r')) =~= l);
    assert(crlf.skip(l.len() as int + 2) =~= empty_text);
    assert(text_lines(crlf) =~= seq![l]);
    if l.len() > 0 {
        lemma_line_break(l, l.len() as int);
        assert(text_lines(l) =~= seq![l]);
    }
}

/// Occurrences count: one entry counts once when it is `(name, o)` and
/// not otherwise, and the count of joined histories is the sum.
pub proof fn law_occurrences_count(
    a: Seq<(Seq<char>, Outcome)>,
    b: Seq<(Seq<char>, Outcome)>,
    e: (Seq<char>, Outcome),
    name: Seq<char>,
    o: Outcome,
)
    ensures
        occurrences(a + b, name, o) == occurrences(a, name, o) + occurrences(b, name, o),
        occurrences(seq![e], name, o) == if e == (name, o) {
            1nat
        } else {
            0nat
        },
{
    lemma_occurrences_append(a, b, name, o);
    let empty = Seq::<(Seq<char>, Outcome)>::empty();
    assert(occurrences(empty, name, o) == 0);
    assert(seq![e].drop_last() =~= empty);
    assert(seq![e].last() == e);
}

/// Names are ordered lexicographically by character: a name comes before
/// every longer name it starts, and the first differing character decides.
pub proof fn law_name_order(a: Seq<char>, b: Seq<char>, x: Seq<char>, y: Seq<char>)
    ensures
        x.len() > 0 ==> precedes(a, a + x),
        x.len() > 0 && y.len() > 0 && x[0] < y[0] ==> precedes(a + x, a + y),
    decreases a.len(),
{
    if a.len() > 0 {
        law_name_order(a.drop_first(), b, x, y);
        assert((a + x).drop_first() =~= a.drop_first() + x);
        assert((a + y).drop_first() =~= a.drop_first() + y);
    } else {
        assert(a + x =~= x);
        assert(a + y =~= y);
    }
}

/// A threshold demotes: above 100% it makes a test that always passed
/// `Flaky`, and any positive threshold makes a test that never ran `Flaky`.
pub proof fn law_threshold_demotes(passes: nat, threshold_bp: u32)
    ensures
        passes > 0 && threshold_bp > 10000 ==> classify(passes, 0, Some(threshold_bp))
            == Classification::Flaky,
        threshold_bp > 0 ==> classify(0, 0, Some(threshold_bp)) == Classification::Flaky,
{
    if passes > 0 && threshold_bp > 10000 {
        assert(10000 * passes < threshold_bp * passes) by (nonlinear_arith)
            requires
                passes > 0,
                threshold_bp > 10000,
        ;
    }
}

} // verus!
