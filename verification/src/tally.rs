//! The tally of test outcomes across the iterations of a run.
//!
//! Each iteration hands over the outcomes parsed from its output. An
//! iteration that reports no test at all and whose `cargo test` exited
//! unsuccessfully is recorded as iteration noise (its standard error
//! is kept) and does not end the run. Once every iteration is recorded
//! the tally yields the run's result: one record per test that passed
//! or failed at least once and is not allow-listed, sorted by name; or,
//! when no iteration reported any test line and some iteration was
//! noise, the error that carries the last noise's standard error.

use vstd::prelude::*;

use crate::order::{
    lemma_precedes_irreflexive,
    lemma_precedes_total,
    lemma_precedes_transitive,
    place,
    precedes,
    strictly_sorted,
    Placement,
};
use crate::parse::{outcomes_view, Outcome};
use crate::reliability::TestReliability;
use crate::result::{FlakyError, FlakyResult};
use crate::run::{opt_chars, strings_view, FlakyRun};
use crate::text::chars_of;

verus! {

/// How often `(name, o)` occurs in a history of outcomes.
pub open spec fn occurrences(h: Seq<(Seq<char>, Outcome)>, name: Seq<char>, o: Outcome) -> nat
    decreases h.len(),
{
    if h.len() == 0 {
        0
    } else {
        occurrences(h.drop_last(), name, o) + if h.last() == (name, o) {
            1nat
        } else {
            0nat
        }
    }
}

/// The test `name` passed or failed at least once in the history.
pub open spec fn counted(h: Seq<(Seq<char>, Outcome)>, name: Seq<char>) -> bool {
    occurrences(h, name, Outcome::Pass) + occurrences(h, name, Outcome::Fail) > 0
}

/// The names of a list of records.
pub open spec fn record_names(tests: Seq<TestReliability>) -> Seq<Seq<char>> {
    tests.map_values(|t: TestReliability| t.name@)
}

/// `tests` holds exactly the tests of the history that passed or failed
/// at least once and are not in `allow`, each with its number of passes
/// and failures, sorted strictly by name: no record is `0/0`.
pub open spec fn tallied(
    tests: Seq<TestReliability>,
    h: Seq<(Seq<char>, Outcome)>,
    allow: Seq<Seq<char>>,
) -> bool {
    &&& strictly_sorted(record_names(tests))
    &&& forall|i: int|
        0 <= i < tests.len() ==> {
            let t = #[trigger] tests[i];
            &&& !allow.contains(t.name@)
            &&& counted(h, t.name@)
            &&& t.passes == occurrences(h, t.name@, Outcome::Pass)
            &&& t.failures == occurrences(h, t.name@, Outcome::Fail)
        }
    &&& forall|n: Seq<char>|
        #[trigger] counted(h, n) && !allow.contains(n) ==> exists|i: int|
            0 <= i < tests.len() && (#[trigger] tests[i]).name@ == n
}

/// One counted test.
struct Entry {
    name: String,
    key: Vec<char>,
    passes: u32,
    failures: u32,
}

/// The tally of a run in progress.
pub struct Tally {
    entries: Vec<Entry>,
    iterations: u32,
    last_error: Option<String>,
    reported: bool,
    history: Ghost<Seq<(Seq<char>, Outcome)>>,
}

spec fn entry_keys(e: Seq<Entry>) -> Seq<Seq<char>> {
    e.map_values(|x: Entry| x.key@)
}

spec fn entries_match(e: Seq<Entry>, h: Seq<(Seq<char>, Outcome)>) -> bool {
    &&& strictly_sorted(entry_keys(e))
    &&& forall|i: int|
        0 <= i < e.len() ==> {
            let x = #[trigger] e[i];
            &&& x.key@ == x.name@
            &&& x.passes == occurrences(h, x.key@, Outcome::Pass)
            &&& x.failures == occurrences(h, x.key@, Outcome::Fail)
            &&& counted(h, x.key@)
        }
    &&& forall|n: Seq<char>|
        #[trigger] counted(h, n) ==> exists|i: int| 0 <= i < e.len() && (#[trigger] e[i]).key@ == n
}

proof fn lemma_occurrences_push(
    h: Seq<(Seq<char>, Outcome)>,
    e: (Seq<char>, Outcome),
    name: Seq<char>,
    o: Outcome,
)
    ensures
        occurrences(h.push(e), name, o) == occurrences(h, name, o) + if e == (name, o) {
            1nat
        } else {
            0nat
        },
{
    assert(h.push(e).drop_last() =~= h);
}

pub proof fn lemma_occurrences_append(
    a: Seq<(Seq<char>, Outcome)>,
    b: Seq<(Seq<char>, Outcome)>,
    name: Seq<char>,
    o: Outcome,
)
    ensures
        occurrences(a + b, name, o) == occurrences(a, name, o) + occurrences(b, name, o),
    decreases b.len(),
{
    if b.len() == 0 {
        assert(a + b =~= a);
    } else {
        lemma_occurrences_append(a, b.drop_last(), name, o);
        assert((a + b).drop_last() =~= a + b.drop_last());
    }
}

proof fn lemma_occurrence_witness(h: Seq<(Seq<char>, Outcome)>, name: Seq<char>, o: Outcome)
    requires
        occurrences(h, name, o) > 0,
    ensures
        exists|j: int| 0 <= j < h.len() && #[trigger] h[j] == (name, o),
    decreases h.len(),
{
    if h.last() != (name, o) {
        lemma_occurrence_witness(h.drop_last(), name, o);
        let j = choose|j: int| 0 <= j < h.len() - 1 && #[trigger] h.drop_last()[j] == (name, o);
        assert(h[j] == (name, o));
    } else {
        assert(h[h.len() - 1] == (name, o));
    }
}

/// Every pass and failure counter of `h` fits in a `u32`.
pub open spec fn counters_fit(h: Seq<(Seq<char>, Outcome)>) -> bool {
    forall|n: Seq<char>, o: Outcome|
        o != Outcome::Ignored ==> #[trigger] occurrences(h, n, o) <= u32::MAX
}

proof fn lemma_insert_sorted(s: Seq<Seq<char>>, j: int, x: Seq<char>)
    requires
        strictly_sorted(s),
        0 <= j <= s.len(),
        forall|t: int| 0 <= t < j ==> precedes(#[trigger] s[t], x),
        j < s.len() ==> precedes(x, s[j]),
    ensures
        strictly_sorted(s.insert(j, x)),
{
    assert forall|t: int| j <= t < s.len() implies precedes(x, #[trigger] s[t]) by {
        if t > j {
            lemma_precedes_transitive(x, s[j], s[t]);
        }
    }
    let r = s.insert(j, x);
    assert forall|a: int, b: int| 0 <= a < b < r.len() implies precedes(
        #[trigger] r[a],
        #[trigger] r[b],
    ) by {
        if b < j {
            assert(r[a] == s[a] && r[b] == s[b]);
        } else if b == j {
            assert(r[a] == s[a]);
        } else if a < j {
            assert(r[a] == s[a] && r[b] == s[b - 1]);
            lemma_precedes_transitive(s[a], x, s[b - 1]);
        } else if a == j {
            assert(r[b] == s[b - 1]);
        } else {
            assert(r[a] == s[a - 1] && r[b] == s[b - 1]);
        }
    }
}

impl Tally {
    /// The outcomes counted so far, in order.
    pub closed spec fn history(&self) -> Seq<(Seq<char>, Outcome)> {
        self.history@
    }

    /// The iterations recorded so far.
    pub closed spec fn completed(&self) -> u32 {
        self.iterations
    }

    /// The standard error of the last iteration that reported no test
    /// and exited unsuccessfully.
    pub closed spec fn noise(&self) -> Option<Seq<char>> {
        opt_chars(self.last_error)
    }

    /// The tally is consistent with its history.
    pub closed spec fn wf(&self) -> bool {
        &&& self.reported == (self.history@.len() > 0)
        &&& entries_match(self.entries@, self.history@)
    }

    /// An empty tally.
    pub fn new() -> (t: Self)
        ensures
            t.wf(),
            t.history() == Seq::<(Seq<char>, Outcome)>::empty(),
            t.completed() == 0,
            t.noise() is None,
    {
        let t = Tally {
            entries: Vec::new(),
            iterations: 0,
            last_error: None,
            reported: false,
            history: Ghost(Seq::empty()),
        };
        assert(entry_keys(t.entries@) =~= Seq::empty());
        t
    }

    /// How many iterations were recorded so far.
    pub fn iterations_completed(&self) -> (n: u32)
        ensures
            n == self.completed(),
    {
        self.iterations
    }

    /// Whether every iteration that `run` configures has been recorded.
    pub fn done(&self, run: &FlakyRun) -> (b: bool)
        ensures
            b == (self.completed() >= run@.iterations),
    {
        self.iterations >= run.iteration_count()
    }

    /// How often the test `name` had the outcome `o` so far.
    fn recorded(&self, name: &String, o: Outcome) -> (c: u32)
        requires
            self.wf(),
            o != Outcome::Ignored,
        ensures
            c == occurrences(self.history(), name@, o),
    {
        let key = chars_of(name.as_str());
        let mut i: usize = 0;
        while i < self.entries.len()
            invariant
                self.wf(),
                o != Outcome::Ignored,
                i <= self.entries@.len(),
                key@ == name@,
                forall|t: int| 0 <= t < i ==> (#[trigger] self.entries@[t]).key@ != name@,
            decreases self.entries@.len() - i,
        {
            if place(&self.entries[i].key, &key) == Placement::Same {
                assert(entries_match(self.entries@, self.history@));
                let ghost x = self.entries@[i as int];
                assert(x.key@ == name@);
                return if o == Outcome::Pass {
                    self.entries[i].passes
                } else {
                    self.entries[i].failures
                };
            }
            i += 1;
        }
        assert(!counted(self.history@, name@)) by {
            if counted(self.history@, name@) {
                let t = choose|t: int| 0 <= t < self.entries@.len() && (#[trigger] self.entries@[t]).key@ == name@;
            }
        }
        0
    }

    /// Whether recording `observed` keeps every pass and failure counter
    /// within `u32`.
    pub fn counts_fit(&self, observed: &Vec<(String, Outcome)>) -> (b: bool)
        requires
            self.wf(),
        ensures
            b == counters_fit(self.history() + outcomes_view(observed@)),
    {
        let ghost h = self.history@;
        let ghost ov = outcomes_view(observed@);
        let mut k: usize = 0;
        while k < observed.len()
            invariant
                self.wf(),
                h == self.history@,
                ov == outcomes_view(observed@),
                k <= observed@.len(),
                forall|j: int|
                    0 <= j < k ==> (#[trigger] ov[j]).1 == Outcome::Ignored || occurrences(
                        h + ov,
                        ov[j].0,
                        ov[j].1,
                    ) <= u32::MAX,
            decreases observed@.len() - k,
        {
            let o = observed[k].1;
            if o != Outcome::Ignored {
                let base = self.recorded(&observed[k].0, o);
                let mut c: u64 = 0;
                let mut j: usize = 0;
                while j < observed.len()
                    invariant
                        ov == outcomes_view(observed@),
                        k < observed@.len(),
                        o == observed@[k as int].1,
                        j <= observed@.len(),
                        c <= j,
                        c == occurrences(ov.take(j as int), observed@[k as int].0@, o),
                    decreases observed@.len() - j,
                {
                    proof {
                        assert(ov.take(j + 1).drop_last() =~= ov.take(j as int));
                        assert(ov.take(j + 1).last() == ov[j as int]);
                    }
                    if observed[j].1 == o && observed[j].0 == observed[k].0 {
                        c = c + 1;
                    }
                    j += 1;
                }
                proof {
                    assert(ov.take(j as int) =~= ov);
                    lemma_occurrences_append(h, ov, observed@[k as int].0@, o);
                }
                if c > 0xFFFF_FFFF - base as u64 {
                    assert(!counters_fit(h + ov)) by {
                        assert(occurrences(h + ov, observed@[k as int].0@, o) > u32::MAX);
                    }
                    return false;
                }
            }
            k += 1;
        }
        assert forall|n: Seq<char>, o: Outcome| o != Outcome::Ignored implies #[trigger] occurrences(
            h + ov,
            n,
            o,
        ) <= u32::MAX by {
            lemma_occurrences_append(h, ov, n, o);
            if occurrences(ov, n, o) > 0 {
                lemma_occurrence_witness(ov, n, o);
                let j = choose|j: int| 0 <= j < ov.len() && #[trigger] ov[j] == (n, o);
            } else if counted(h, n) {
                let t = choose|t: int| 0 <= t < self.entries@.len() && (#[trigger] self.entries@[t]).key@ == n;
            }
        }
        true
    }

    /// Adds one outcome of the test `name` to the tally.
    fn count_outcome(&mut self, name: &String, o: Outcome)
        requires
            old(self).wf(),
            o != Outcome::Ignored ==> occurrences(old(self).history(), name@, o) < u32::MAX,
        ensures
            final(self).wf(),
            final(self).history() == old(self).history().push((name@, o)),
            final(self).completed() == old(self).completed(),
            final(self).noise() == old(self).noise(),
    {
        let ghost h = self.history@;
        let ghost h2 = h.push((name@, o));
        let ghost old_entries = self.entries@;
        proof {
            assert forall|n: Seq<char>, q: Outcome| #[trigger]
                occurrences(h2, n, q) == occurrences(h, n, q) + if (name@, o) == (n, q) {
                    1nat
                } else {
                    0nat
                } by {
                lemma_occurrences_push(h, (name@, o), n, q);
            }
        }
        if o == Outcome::Ignored {
            self.history = Ghost(h2);
            self.reported = true;
            assert forall|n: Seq<char>| #[trigger] counted(h2, n) implies exists|i: int|
                0 <= i < self.entries@.len() && (#[trigger] self.entries@[i]).key@ == n by {
                assert(counted(h, n));
                let i = choose|i: int| 0 <= i < old_entries.len() && (#[trigger] old_entries[i]).key@ == n;
                assert(self.entries@[i].key@ == n);
            }
            assert forall|i: int| 0 <= i < self.entries@.len() implies counted(
                h2,
                (#[trigger] self.entries@[i]).key@,
            ) by {
                assert(counted(h, self.entries@[i].key@));
            }
            return ;
        }
        let key = chars_of(name.as_str());
        let len = self.entries.len();
        let mut j: usize = 0;
        while j < len && place(&self.entries[j].key, &key) == Placement::Before
            invariant
                j <= len == self.entries@.len(),
                self.entries@ == old_entries,
                key@ == name@,
                forall|t: int| 0 <= t < j ==> precedes(#[trigger] entry_keys(old_entries)[t], key@),
            decreases len - j,
        {
            j += 1;
        }
        let ghost keys = entry_keys(old_entries);
        if j < len && place(&self.entries[j].key, &key) == Placement::Same {
            // A test already counted: add to its record.
            let ghost before = self.entries@[j as int];
            assert(keys[j as int] == before.key@);
            let mut e = Entry {
                name: self.entries[j].name.clone(),
                key: self.entries[j].key.clone(),
                passes: self.entries[j].passes,
                failures: self.entries[j].failures,
            };
            if o == Outcome::Pass {
                e.passes = e.passes + 1;
            } else {
                e.failures = e.failures + 1;
            }
            self.entries.set(j, e);
            self.history = Ghost(h2);
            self.reported = true;
            let ghost now = self.entries@;
            assert(entry_keys(now) =~= keys);
            assert forall|i: int| 0 <= i < now.len() && i != j implies (#[trigger] now[i]).key@
                != name@ by {
                lemma_precedes_irreflexive(keys[j as int]);
                if i < j {
                    assert(precedes(keys[i], keys[j as int]));
                } else {
                    assert(precedes(keys[j as int], keys[i]));
                }
            }
            assert forall|n: Seq<char>| #[trigger] counted(h2, n) implies exists|i: int|
                0 <= i < now.len() && (#[trigger] now[i]).key@ == n by {
                if n != name@ {
                    assert(counted(h, n));
                    let i = choose|i: int| 0 <= i < old_entries.len() && (#[trigger] old_entries[i]).key@ == n;
                    assert(now[i].key@ == n);
                } else {
                    assert(now[j as int].key@ == n);
                }
            }
            assert forall|i: int| 0 <= i < now.len() implies {
                let x = #[trigger] now[i];
                &&& x.key@ == x.name@
                &&& x.passes == occurrences(h2, x.key@, Outcome::Pass)
                &&& x.failures == occurrences(h2, x.key@, Outcome::Fail)
                &&& counted(h2, x.key@)
            } by {
                if i != j {
                    assert(now[i] == old_entries[i]);
                }
            }
        } else {
            // A test seen for the first time: insert its record in order.
            proof {
                if j < len {
                    lemma_precedes_total(keys[j as int], key@);
                }
                assert forall|t: int| 0 <= t < keys.len() implies keys[t] != name@ by {
                    lemma_precedes_irreflexive(name@);
                    if t < j {
                        assert(precedes(keys[t], key@));
                    } else {
                        assert(precedes(key@, keys[j as int]));
                        if t > j {
                            assert(precedes(keys[j as int], keys[t]));
                            lemma_precedes_transitive(key@, keys[j as int], keys[t]);
                        }
                    }
                }
                assert(!counted(h, name@)) by {
                    if counted(h, name@) {
                        let i = choose|i: int| 0 <= i < old_entries.len() && (#[trigger] old_entries[i]).key@ == name@;
                        assert(keys[i] == name@);
                    }
                }
                lemma_insert_sorted(keys, j as int, key@);
            }
            let e = Entry {
                name: name.clone(),
                key,
                passes: if o == Outcome::Pass {
                    1
                } else {
                    0
                },
                failures: if o == Outcome::Fail {
                    1
                } else {
                    0
                },
            };
            self.entries.insert(j, e);
            self.history = Ghost(h2);
            self.reported = true;
            let ghost now = self.entries@;
            assert(entry_keys(now) =~= keys.insert(j as int, name@));
            assert forall|n: Seq<char>| #[trigger] counted(h2, n) implies exists|i: int|
                0 <= i < now.len() && (#[trigger] now[i]).key@ == n by {
                if n != name@ {
                    assert(counted(h, n));
                    let i = choose|i: int| 0 <= i < old_entries.len() && (#[trigger] old_entries[i]).key@ == n;
                    if i < j {
                        assert(now[i].key@ == n);
                    } else {
                        assert(now[i + 1].key@ == n);
                    }
                } else {
                    assert(now[j as int].key@ == n);
                }
            }
            assert forall|i: int| 0 <= i < now.len() implies {
                let x = #[trigger] now[i];
                &&& x.key@ == x.name@
                &&& x.passes == occurrences(h2, x.key@, Outcome::Pass)
                &&& x.failures == occurrences(h2, x.key@, Outcome::Fail)
                &&& counted(h2, x.key@)
            } by {
                if i < j {
                    assert(now[i] == old_entries[i]);
                    assert(keys[i] != name@);
                } else if i > j {
                    assert(now[i] == old_entries[i - 1]);
                    assert(keys[i - 1] != name@);
                }
            }
        }
    }

    /// Records one iteration: the outcomes parsed from its output, its
    /// standard error, and whether `cargo test` exited successfully. An
    /// iteration that reports no test and failed is iteration noise: its
    /// standard error is kept and its (absent) outcomes add nothing.
    pub fn record_iteration(&mut self, observed: Vec<(String, Outcome)>, stderr: String, success: bool)
        requires
            old(self).wf(),
            old(self).completed() < u32::MAX,
            counters_fit(old(self).history() + outcomes_view(observed@)),
        ensures
            final(self).wf(),
            final(self).completed() == old(self).completed() + 1,
            if observed@.len() == 0 && !success {
                &&& final(self).history() == old(self).history()
                &&& final(self).noise() == Some(stderr@)
            } else {
                &&& final(self).history() == old(self).history() + outcomes_view(observed@)
                &&& final(self).noise() == old(self).noise()
            },
    {
        if observed.len() == 0 && !success {
            self.last_error = Some(stderr);
            self.iterations = self.iterations + 1;
            return ;
        }
        let ghost h0 = self.history@;
        let ghost seen = outcomes_view(observed@);
        let mut k: usize = 0;
        assert(seen.take(0) =~= Seq::<(Seq<char>, Outcome)>::empty());
        assert(h0 + seen.take(0) =~= h0);
        while k < observed.len()
            invariant
                self.wf(),
                k <= observed@.len(),
                seen == outcomes_view(observed@),
                counters_fit(h0 + seen),
                self.history() == h0 + seen.take(k as int),
                self.completed() == old(self).completed(),
                self.noise() == old(self).noise(),
            decreases observed@.len() - k,
        {
            let o = observed[k].1;
            proof {
                let item = (observed@[k as int].0@, o);
                assert(seen[k as int] == item);
                assert(h0 + seen =~= (h0 + seen.take(k as int)).push(item) + seen.skip(k + 1));
                lemma_occurrences_append((h0 + seen.take(k as int)).push(item), seen.skip(k + 1), item.0, o);
                lemma_occurrences_push(h0 + seen.take(k as int), item, item.0, o);
                assert(o != Outcome::Ignored ==> occurrences(h0 + seen, item.0, o) <= u32::MAX);
            }
            self.count_outcome(&observed[k].0, o);
            assert(seen.take(k + 1) =~= seen.take(k as int).push((observed@[k as int].0@, o)));
            assert(h0 + seen.take(k + 1) =~= (h0 + seen.take(k as int)).push(
                (observed@[k as int].0@, o),
            ));
            k += 1;
        }
        assert(seen.take(k as int) =~= seen);
        self.iterations = self.iterations + 1;
    }

    /// The result of the run, once all its configured iterations are
    /// recorded: an error when no iteration reported any
    /// test line and some iteration was noise; otherwise every test that
    /// passed or failed at least once and is not allow-listed, in name
    /// order, with its counts.
    pub fn finish(self, run: &FlakyRun) -> (r: Result<FlakyResult, FlakyError>)
        requires
            self.wf(),
            self.completed() == run@.iterations,
        ensures
            match r {
                Err(e) => {
                    &&& self.history().len() == 0
                    &&& e matches FlakyError::SubprocessFailed(s) && self.noise() == Some(s@)
                },
                Ok(res) => {
                    &&& !(self.history().len() == 0 && self.noise() is Some)
                    &&& res.name@ == run@.name
                    &&& res.version@ == run@.version
                    &&& res.iterations == run@.iterations
                    &&& res.reliability_threshold_bp == run@.threshold_bp
                    &&& tallied(res.tests@, self.history(), run@.allow_list)
                },
            },
    {
        let ghost h = self.history@;
        let ghost keys = entry_keys(self.entries@);
        let Tally { entries, iterations, last_error, reported, .. } = self;
        if !reported {
            if let Some(e) = last_error {
                return Err(FlakyError::SubprocessFailed(e));
            }
        }
        let allow = run.allow_list_view();
        let ghost allowed = run@.allow_list;
        let mut tests: Vec<TestReliability> = Vec::new();
        let ghost mut src: Seq<int> = Seq::empty();
        let mut i: usize = 0;
        while i < entries.len()
            invariant
                i <= entries@.len(),
                entries_match(entries@, h),
                keys == entry_keys(entries@),
                strings_view(allow@) == allowed,
                src.len() == tests@.len(),
                forall|k: int| 0 <= k < src.len() ==> 0 <= #[trigger] src[k] < i,
                forall|a: int, b: int| 0 <= a < b < src.len() ==> #[trigger] src[a] < #[trigger] src[b],
                forall|k: int|
                    0 <= k < tests@.len() ==> {
                        let t = #[trigger] tests@[k];
                        let e = entries@[src[k]];
                        &&& t.name@ == e.key@
                        &&& t.passes == e.passes
                        &&& t.failures == e.failures
                        &&& !allowed.contains(t.name@)
                    },
                forall|t: int|
                    0 <= t < i && !allowed.contains(#[trigger] keys[t]) ==> exists|k: int|
                        0 <= k < src.len() && src[k] == t,
            decreases entries@.len() - i,
        {
            let listed = is_listed(allow, &entries[i].name);
            assert(keys[i as int] == entries@[i as int].name@);
            let ghost old_src = src;
            if !listed {
                let t = TestReliability {
                    name: entries[i].name.clone(),
                    passes: entries[i].passes,
                    failures: entries[i].failures,
                };
                tests.push(t);
                proof {
                    src = src.push(i as int);
                    assert(src[src.len() - 1] == i);
                }
            }
            assert forall|t: int|
                0 <= t < i + 1 && !allowed.contains(#[trigger] keys[t]) implies exists|k: int|
                    0 <= k < src.len() && src[k] == t by {
                if t < i {
                    let k = choose|k: int| 0 <= k < old_src.len() && old_src[k] == t;
                    assert(src[k] == t);
                } else {
                    assert(src[src.len() - 1] == t);
                }
            }
            i += 1;
        }
        proof {
            let names = record_names(tests@);
            assert forall|a: int, b: int| 0 <= a < b < names.len() implies precedes(
                #[trigger] names[a],
                #[trigger] names[b],
            ) by {
                assert(names[a] == keys[src[a]]);
                assert(names[b] == keys[src[b]]);
                assert(src[a] < src[b]);
            }
            assert forall|k: int| 0 <= k < tests@.len() implies {
                let t = #[trigger] tests@[k];
                &&& !allowed.contains(t.name@)
                &&& counted(h, t.name@)
                &&& t.passes == occurrences(h, t.name@, Outcome::Pass)
                &&& t.failures == occurrences(h, t.name@, Outcome::Fail)
            } by {
                let e = entries@[src[k]];
                assert(e.key@ == keys[src[k]]);
            }
            assert forall|n: Seq<char>| #[trigger] counted(h, n) && !allowed.contains(n) implies exists|k: int|
                0 <= k < tests@.len() && (#[trigger] tests@[k]).name@ == n by {
                let t = choose|t: int| 0 <= t < entries@.len() && (#[trigger] entries@[t]).key@ == n;
                assert(keys[t] == n);
                let k = choose|k: int| 0 <= k < src.len() && src[k] == t;
                assert(tests@[k].name@ == n);
            }
        }
        Ok(FlakyResult {
            name: run.subject().to_owned(),
            version: run.subject_version().to_owned(),
            iterations,
            tests,
            reliability_threshold_bp: run.reliability_threshold_value(),
        })
    }
}

/// Whether `name` is in the list `allow`.
fn is_listed(allow: &[String], name: &String) -> (b: bool)
    ensures
        b == strings_view(allow@).contains(name@),
{
    let mut k: usize = 0;
    while k < allow.len()
        invariant
            k <= allow@.len(),
            forall|j: int| 0 <= j < k ==> (#[trigger] allow@[j])@ != name@,
        decreases allow@.len() - k,
    {
        if allow[k] == *name {
            assert(strings_view(allow@)[k as int] == name@);
            return true;
        }
        k += 1;
    }
    assert forall|j: int| 0 <= j < allow@.len() implies strings_view(allow@)[j] != name@ by {
        assert(strings_view(allow@)[j] == allow@[j]@);
    }
    false
}

} // verus!
