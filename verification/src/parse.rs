//! The libtest output parser.
//!
//! libtest emits one line per test in the form
//!
//! ```text
//! test path::to::test ... ok
//! test path::to::test ... FAILED
//! test path::to::test ... ignored
//! ```
//!
//! The parser picks those lines out of a run's standard output and
//! yields each test's name with its outcome, in the order of the text.

use vstd::prelude::*;

use crate::text::{chars_of, is_space, matches_at, occurs_at, space_char, string_of_range};

verus! {

/// The outcome of one test in one run.
#[derive(Debug, Clone, Copy, PartialEq, Eq, Structural)]
pub enum Outcome {
    /// The test passed (`ok`).
    Pass,
    /// The test failed (`FAILED`).
    Fail,
    /// The test was ignored (`ignored`).
    Ignored,
}

// ---------------------------------------------------------------------------
// Lines
// ---------------------------------------------------------------------------

/// Index of the first `'\n'` in `s`, or `s.len()` when there is none.
pub open spec fn line_break(s: Seq<char>) -> nat
    decreases s.len(),
{
    if s.len() == 0 {
        0
    } else if s[0] == '\n' {
        0
    } else {
        1 + line_break(s.drop_first())
    }
}

/// A line without its terminating carriage return, when it has one.
pub open spec fn strip_cr(line: Seq<char>) -> Seq<char> {
    if line.len() > 0 && line.last() == '\r' {
        line.drop_last()
    } else {
        line
    }
}

/// The lines of a text, as `str::lines` yields them: split at `'\n'`,
/// each line that a `'\n'` ends loses a `'\r'` before it, and a final
/// line ending adds no empty line.
pub open spec fn text_lines(s: Seq<char>) -> Seq<Seq<char>>
    decreases s.len(),
{
    if s.len() == 0 {
        seq![]
    } else {
        let i = line_break(s) as int;
        if i < s.len() {
            seq![strip_cr(s.take(i))] + text_lines(s.skip(i + 1))
        } else {
            seq![s]
        }
    }
}

// ---------------------------------------------------------------------------
// One line
// ---------------------------------------------------------------------------

/// The greatest index `k <= from` at which `pat` occurs in `s`.
pub open spec fn last_occurrence_from(s: Seq<char>, pat: Seq<char>, from: int) -> Option<int>
    decreases from + 1,
{
    if from < 0 {
        None
    } else if occurs_at(s, from, pat) {
        Some(from)
    } else {
        last_occurrence_from(s, pat, from - 1)
    }
}

/// The start of the last occurrence of `pat` in `s` (`str::rsplit_once`).
pub open spec fn last_occurrence(s: Seq<char>, pat: Seq<char>) -> Option<int> {
    last_occurrence_from(s, pat, s.len() - pat.len())
}

/// `s` without its leading white space.
pub open spec fn skip_space(s: Seq<char>) -> Seq<char>
    decreases s.len(),
{
    if s.len() > 0 && is_space(s[0]) {
        skip_space(s.drop_first())
    } else {
        s
    }
}

/// The longest prefix of `s` without white space.
pub open spec fn word_prefix(s: Seq<char>) -> Seq<char>
    decreases s.len(),
{
    if s.len() == 0 || is_space(s[0]) {
        seq![]
    } else {
        seq![s[0]] + word_prefix(s.drop_first())
    }
}

/// The first white-space separated word of `s`, empty when there is
/// none (`s.split_whitespace().next().unwrap_or("")`).
pub open spec fn first_word(s: Seq<char>) -> Seq<char> {
    word_prefix(skip_space(s))
}

/// The outcome that a word names.
pub open spec fn word_outcome(w: Seq<char>) -> Option<Outcome> {
    if w == "ok"@ {
        Some(Outcome::Pass)
    } else if w == "FAILED"@ {
        Some(Outcome::Fail)
    } else if w == "ignored"@ {
        Some(Outcome::Ignored)
    } else {
        None
    }
}

/// What one line of libtest output reports: a line
/// `test <name> ... <word> ...`, not a `test result: ` summary, whose
/// first word after the last ` ... ` names an outcome.
pub open spec fn parse_line(line: Seq<char>) -> Option<(Seq<char>, Outcome)> {
    if !occurs_at(line, 0, "test "@) {
        None
    } else {
        let rest = line.skip("test "@.len() as int);
        if occurs_at(rest, 0, "result: "@) {
            None
        } else {
            match last_occurrence(rest, " ... "@) {
                None => None,
                Some(k) => match word_outcome(first_word(rest.skip(k + " ... "@.len()))) {
                    None => None,
                    Some(o) => Some((rest.take(k), o)),
                },
            }
        }
    }
}

/// The outcomes reported by a sequence of lines, in order.
pub open spec fn outcomes_in_lines(lines: Seq<Seq<char>>) -> Seq<(Seq<char>, Outcome)>
    decreases lines.len(),
{
    if lines.len() == 0 {
        seq![]
    } else {
        let head = match parse_line(lines[0]) {
            Some(p) => seq![p],
            None => seq![],
        };
        head + outcomes_in_lines(lines.drop_first())
    }
}

/// The outcomes that a run's standard output reports, in order.
pub open spec fn parse_outcomes(stdout: Seq<char>) -> Seq<(Seq<char>, Outcome)> {
    outcomes_in_lines(text_lines(stdout))
}

/// The names (as character sequences) and outcomes of parsed pairs.
pub open spec fn outcomes_view(v: Seq<(String, Outcome)>) -> Seq<(Seq<char>, Outcome)> {
    v.map_values(|p: (String, Outcome)| (p.0@, p.1))
}

// ---------------------------------------------------------------------------
// Lemmas
// ---------------------------------------------------------------------------

pub proof fn lemma_line_break(s: Seq<char>, k: int)
    requires
        0 <= k <= s.len(),
        forall|j: int| 0 <= j < k ==> s[j] != '\n',
        k == s.len() || s[k] == '\n',
    ensures
        line_break(s) == k,
    decreases k,
{
    if k > 0 {
        lemma_line_break(s.drop_first(), k - 1);
    }
}

pub proof fn lemma_skip_space(s: Seq<char>, k: int)
    requires
        0 <= k <= s.len(),
        forall|j: int| 0 <= j < k ==> is_space(#[trigger] s[j]),
        k == s.len() || !is_space(s[k]),
    ensures
        skip_space(s) == s.skip(k),
    decreases k,
{
    if k > 0 {
        lemma_skip_space(s.drop_first(), k - 1);
        assert(s.drop_first().skip(k - 1) =~= s.skip(k));
    } else {
        assert(s.skip(0) =~= s);
    }
}

pub proof fn lemma_word_prefix(s: Seq<char>, k: int)
    requires
        0 <= k <= s.len(),
        forall|j: int| 0 <= j < k ==> !is_space(#[trigger] s[j]),
        k == s.len() || is_space(s[k]),
    ensures
        word_prefix(s) == s.take(k),
    decreases k,
{
    if k > 0 {
        lemma_word_prefix(s.drop_first(), k - 1);
        assert(seq![s[0]] + s.drop_first().take(k - 1) =~= s.take(k));
    } else {
        assert(s.take(0) =~= Seq::<char>::empty());
    }
}

proof fn lemma_occurs_in_range(cs: Seq<char>, lo: int, hi: int, k: int, pat: Seq<char>)
    requires
        0 <= lo <= hi <= cs.len(),
        0 <= k,
    ensures
        occurs_at(cs.subrange(lo, hi), k, pat) <==> (occurs_at(cs, lo + k, pat) && lo + k
            + pat.len() <= hi),
{
    if k + pat.len() <= hi - lo {
        assert(cs.subrange(lo, hi).subrange(k, k + pat.len()) =~= cs.subrange(
            lo + k,
            lo + k + pat.len(),
        ));
    }
}

// ---------------------------------------------------------------------------
// Parsing
// ---------------------------------------------------------------------------

/// The start of the last ` ... ` in `cs[lo..hi]`, relative to `lo`.
fn last_separator(cs: &Vec<char>, lo: usize, hi: usize) -> (r: Option<usize>)
    requires
        lo <= hi <= cs@.len(),
    ensures
        match r {
            None => last_occurrence(cs@.subrange(lo as int, hi as int), " ... "@) is None,
            Some(k) => last_occurrence(cs@.subrange(lo as int, hi as int), " ... "@) == Some(
                k as int,
            ) && lo + k + " ... "@.len() <= hi,
        },
{
    let ghost rest = cs@.subrange(lo as int, hi as int);
    let sep_len = " ... ".unicode_len();
    if hi - lo < sep_len {
        assert(last_occurrence_from(rest, " ... "@, rest.len() - " ... "@.len()) is None);
        return None;
    }
    let mut k = hi - lo - sep_len;
    loop
        invariant
            lo <= hi <= cs@.len(),
            rest == cs@.subrange(lo as int, hi as int),
            sep_len == " ... "@.len(),
            k + sep_len <= hi - lo,
            last_occurrence(rest, " ... "@) == last_occurrence_from(rest, " ... "@, k as int),
        decreases k,
    {
        proof {
            lemma_occurs_in_range(cs@, lo as int, hi as int, k as int, " ... "@);
        }
        if matches_at(cs, lo + k, " ... ") {
            return Some(k);
        }
        if k == 0 {
            assert(last_occurrence_from(rest, " ... "@, -1) is None);
            return None;
        }
        k -= 1;
    }
}

/// The outcome named by the first word of `cs[lo..hi]`.
fn outcome_of_tail(cs: &Vec<char>, lo: usize, hi: usize) -> (r: Option<Outcome>)
    requires
        lo <= hi <= cs@.len(),
    ensures
        r == word_outcome(first_word(cs@.subrange(lo as int, hi as int))),
{
    let ghost tail = cs@.subrange(lo as int, hi as int);
    let mut a = lo;
    while a < hi && space_char(cs[a])
        invariant
            lo <= a <= hi <= cs@.len(),
            forall|j: int| lo <= j < a ==> is_space(#[trigger] cs@[j]),
        decreases hi - a,
    {
        a += 1;
    }
    proof {
        lemma_skip_space(tail, a - lo);
        assert(tail.skip(a - lo) =~= cs@.subrange(a as int, hi as int));
    }
    let mut b = a;
    while b < hi && !space_char(cs[b])
        invariant
            lo <= a <= b <= hi <= cs@.len(),
            forall|j: int| a <= j < b ==> !is_space(#[trigger] cs@[j]),
        decreases hi - b,
    {
        b += 1;
    }
    let ghost word = cs@.subrange(a as int, b as int);
    proof {
        let t2 = cs@.subrange(a as int, hi as int);
        lemma_word_prefix(t2, b - a);
        assert(t2.take(b - a) =~= word);
    }
    let len = b - a;
    if len == "ok".unicode_len() && matches_at(cs, a, "ok") {
        assert(word =~= "ok"@);
        Some(Outcome::Pass)
    } else if len == "FAILED".unicode_len() && matches_at(cs, a, "FAILED") {
        assert(word =~= "FAILED"@);
        Some(Outcome::Fail)
    } else if len == "ignored".unicode_len() && matches_at(cs, a, "ignored") {
        assert(word =~= "ignored"@);
        Some(Outcome::Ignored)
    } else {
        proof {
            if word == "ok"@ {
                assert(cs@.subrange(a as int, a + "ok"@.len()) =~= word);
            }
            if word == "FAILED"@ {
                assert(cs@.subrange(a as int, a + "FAILED"@.len()) =~= word);
            }
            if word == "ignored"@ {
                assert(cs@.subrange(a as int, a + "ignored"@.len()) =~= word);
            }
        }
        None
    }
}

/// What the line `cs[lo..hi]` reports: the bounds of the test's name
/// within `cs`, and its outcome.
fn parse_line_at(cs: &Vec<char>, lo: usize, hi: usize) -> (r: Option<(usize, usize, Outcome)>)
    requires
        lo <= hi <= cs@.len(),
    ensures
        match r {
            None => parse_line(cs@.subrange(lo as int, hi as int)) is None,
            Some((a, b, o)) => lo <= a <= b <= hi && parse_line(
                cs@.subrange(lo as int, hi as int),
            ) == Some((cs@.subrange(a as int, b as int), o)),
        },
{
    let ghost line = cs@.subrange(lo as int, hi as int);
    proof {
        lemma_occurs_in_range(cs@, lo as int, hi as int, 0, "test "@);
    }
    let prefix_len = "test ".unicode_len();
    if !(matches_at(cs, lo, "test ") && prefix_len <= hi - lo) {
        return None;
    }
    let start = lo + prefix_len;
    let ghost rest = line.skip(prefix_len as int);
    assert(rest =~= cs@.subrange(start as int, hi as int));
    proof {
        lemma_occurs_in_range(cs@, start as int, hi as int, 0, "result: "@);
    }
    if matches_at(cs, start, "result: ") && "result: ".unicode_len() <= hi - start {
        return None;
    }
    match last_separator(cs, start, hi) {
        None => None,
        Some(k) => {
            let after = start + k + " ... ".unicode_len();
            assert(rest.skip(k + " ... "@.len()) =~= cs@.subrange(after as int, hi as int));
            assert(rest.take(k as int) =~= cs@.subrange(start as int, start + k));
            match outcome_of_tail(cs, after, hi) {
                None => None,
                Some(o) => Some((start, start + k, o)),
            }
        },
    }
}

proof fn lemma_outcomes_cons(line: Seq<char>, rest: Seq<Seq<char>>)
    ensures
        outcomes_in_lines(seq![line] + rest) == match parse_line(line) {
            Some(p) => seq![p],
            None => Seq::<(Seq<char>, Outcome)>::empty(),
        } + outcomes_in_lines(rest),
{
    let ls = seq![line] + rest;
    assert(ls[0] == line);
    assert(ls.drop_first() =~= rest);
}

/// Every test outcome that a run's standard output reports, as
/// `(name, outcome)` pairs in the order of the text.
pub fn parse_test_outcomes(stdout: &str) -> (out: Vec<(String, Outcome)>)
    ensures
        outcomes_view(out@) == parse_outcomes(stdout@),
{
    let cs = chars_of(stdout);
    let n = cs.len();
    let mut out: Vec<(String, Outcome)> = Vec::new();
    let mut pos: usize = 0;
    assert(cs@.skip(0) =~= cs@);
    assert(outcomes_view(out@) =~= Seq::<(Seq<char>, Outcome)>::empty());
    while pos < n
        invariant
            pos <= n == cs@.len(),
            cs@ == stdout@,
            parse_outcomes(cs@) == outcomes_view(out@) + outcomes_in_lines(
                text_lines(cs@.skip(pos as int)),
            ),
        decreases n - pos,
    {
        let ghost t = cs@.skip(pos as int);
        let mut e = pos;
        while e < n && cs[e] != '\n'
            invariant
                pos <= e <= n == cs@.len(),
                forall|j: int| pos <= j < e ==> cs@[j] != '\n',
            decreases n - e,
        {
            e += 1;
        }
        proof {
            lemma_line_break(t, e - pos);
        }
        let hi: usize;
        let next: usize;
        if e < n {
            hi = if e > pos && cs[e - 1] == '\r' {
                e - 1
            } else {
                e
            };
            next = e + 1;
            proof {
                assert(strip_cr(t.take(e - pos)) =~= cs@.subrange(pos as int, hi as int));
                assert(t.skip(e - pos + 1) =~= cs@.skip(next as int));
                lemma_outcomes_cons(cs@.subrange(pos as int, hi as int), text_lines(cs@.skip(next as int)));
            }
        } else {
            hi = n;
            next = n;
            proof {
                assert(t =~= cs@.subrange(pos as int, hi as int));
                assert(cs@.skip(n as int) =~= Seq::<char>::empty());
                assert(text_lines(t) =~= seq![t] + text_lines(cs@.skip(n as int)));
                lemma_outcomes_cons(t, text_lines(cs@.skip(n as int)));
            }
        }
        let ghost before = out@;
        match parse_line_at(&cs, pos, hi) {
            Some((a, b, o)) => {
                let name = string_of_range(&cs, a, b);
                out.push((name, o));
                assert(outcomes_view(out@) =~= outcomes_view(before).push(
                    (cs@.subrange(a as int, b as int), o),
                ));
            },
            None => {},
        }
        pos = next;
    }
    assert(cs@.skip(n as int) =~= Seq::<char>::empty());
    out
}

} // verus!
