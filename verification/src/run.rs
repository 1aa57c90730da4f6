//! Configuration of a flaky-test detection run.

use vstd::prelude::*;

use crate::reliability::FULL_PERCENT_BP;

verus! {

/// Iterations of a run unless configured otherwise.
pub const DEFAULT_ITERATIONS: u32 = 10;

/// The fewest iterations that tell stable from flaky.
pub const MIN_ITERATIONS: u32 = 2;

/// Configuration for a flaky-test detection run.
#[derive(Debug, Clone)]
pub struct FlakyRun {
    name: String,
    version: String,
    iterations: u32,
    workdir: Option<String>,
    workspace: bool,
    features: Option<String>,
    test_filter: Option<String>,
    allow_list: Vec<String>,
    reliability_threshold_bp: Option<u32>,
}

/// The settings of a run, as plain values.
pub ghost struct RunSettings {
    pub name: Seq<char>,
    pub version: Seq<char>,
    pub iterations: u32,
    pub workdir: Option<Seq<char>>,
    pub workspace: bool,
    pub features: Option<Seq<char>>,
    pub test_filter: Option<Seq<char>>,
    pub allow_list: Seq<Seq<char>>,
    pub threshold_bp: Option<u32>,
}

/// The characters of an optional string.
pub open spec fn opt_chars(o: Option<String>) -> Option<Seq<char>> {
    match o {
        Some(s) => Some(s@),
        None => None,
    }
}

/// The characters of each string in a list.
pub open spec fn strings_view(v: Seq<String>) -> Seq<Seq<char>> {
    v.map_values(|s: String| s@)
}

/// The characters of each string slice in a list.
pub open spec fn strs_view(v: Seq<&str>) -> Seq<Seq<char>> {
    v.map_values(|s: &str| s@)
}

/// The larger of two counts.
pub open spec fn at_least(n: u32, lower: u32) -> u32 {
    if n < lower {
        lower
    } else {
        n
    }
}

/// The arguments of each `cargo test` invocation of a run: no fail
/// fast, the workspace and features flags when set, then after `--` the
/// libtest name filter when set.
pub open spec fn cargo_test_arguments(s: RunSettings) -> Seq<Seq<char>> {
    seq!["test"@, "--no-fail-fast"@] + (if s.workspace {
        seq!["--workspace"@]
    } else {
        Seq::empty()
    }) + match s.features {
        Some(f) => seq!["--features"@, f],
        None => Seq::empty(),
    } + seq!["--"@] + match s.test_filter {
        Some(f) => seq![f],
        None => Seq::empty(),
    }
}

impl View for FlakyRun {
    type V = RunSettings;

    closed spec fn view(&self) -> RunSettings {
        RunSettings {
            name: self.name@,
            version: self.version@,
            iterations: self.iterations,
            workdir: opt_chars(self.workdir),
            workspace: self.workspace,
            features: opt_chars(self.features),
            test_filter: opt_chars(self.test_filter),
            allow_list: strings_view(self.allow_list@),
            threshold_bp: self.reliability_threshold_bp,
        }
    }
}

impl FlakyRun {
    /// Begin a new run for the subject `name` at `version`, with 10
    /// iterations, the current directory and nothing else set.
    pub fn new(name: &str, version: &str) -> (r: Self)
        ensures
            r@ == (RunSettings {
                name: name@,
                version: version@,
                iterations: DEFAULT_ITERATIONS,
                workdir: None,
                workspace: false,
                features: None,
                test_filter: None,
                allow_list: Seq::empty(),
                threshold_bp: None,
            }),
    {
        let r = FlakyRun {
            name: name.to_owned(),
            version: version.to_owned(),
            iterations: DEFAULT_ITERATIONS,
            workdir: None,
            workspace: false,
            features: None,
            test_filter: None,
            allow_list: Vec::new(),
            reliability_threshold_bp: None,
        };
        assert(strings_view(r.allow_list@) =~= Seq::empty());
        r
    }

    /// Set how many iterations to run, at least 2: below 2 the stable /
    /// flaky distinction is meaningless.
    pub fn iterations(self, n: u32) -> (r: Self)
        ensures
            r@ == (RunSettings { iterations: at_least(n, MIN_ITERATIONS), ..self@ }),
    {
        let n = if n < MIN_ITERATIONS {
            MIN_ITERATIONS
        } else {
            n
        };
        FlakyRun { iterations: n, ..self }
    }

    /// Configured iteration count.
    pub fn iteration_count(&self) -> (n: u32)
        ensures
            n == self@.iterations,
    {
        self.iterations
    }

    /// Run `cargo test` from `dir` instead of the current directory.
    pub fn in_dir(self, dir: &str) -> (r: Self)
        ensures
            r@ == (RunSettings { workdir: Some(dir@), ..self@ }),
    {
        FlakyRun { workdir: Some(dir.to_owned()), ..self }
    }

    /// Pass `--workspace` to every `cargo test` invocation.
    pub fn workspace(self) -> (r: Self)
        ensures
            r@ == (RunSettings { workspace: true, ..self@ }),
    {
        FlakyRun { workspace: true, ..self }
    }

    /// Pass `--features <list>` to every `cargo test` invocation.
    pub fn features(self, list: &str) -> (r: Self)
        ensures
            r@ == (RunSettings { features: Some(list@), ..self@ }),
    {
        FlakyRun { features: Some(list.to_owned()), ..self }
    }

    /// Restrict every iteration to tests whose name contains the given
    /// substring (the libtest positional filter argument).
    pub fn test_filter(self, substring: &str) -> (r: Self)
        ensures
            r@ == (RunSettings { test_filter: Some(substring@), ..self@ }),
    {
        FlakyRun { test_filter: Some(substring.to_owned()), ..self }
    }

    /// Suppress a known-flaky test by its full test path.
    pub fn allow(self, name: &str) -> (r: Self)
        ensures
            r@ == (RunSettings { allow_list: self@.allow_list.push(name@), ..self@ }),
    {
        let mut r = self;
        let ghost before = r.allow_list@;
        r.allow_list.push(name.to_owned());
        assert(strings_view(r.allow_list@) =~= strings_view(before).push(name@));
        r
    }

    /// Bulk version of [`allow`](Self::allow).
    pub fn allow_all(self, names: &[&str]) -> (r: Self)
        ensures
            r@ == (RunSettings { allow_list: self@.allow_list + strs_view(names@), ..self@ }),
    {
        let mut r = self;
        let ghost start = r@;
        let mut i: usize = 0;
        while i < names.len()
            invariant
                i <= names@.len(),
                r@ == (RunSettings {
                    allow_list: start.allow_list + strs_view(names@.take(i as int)),
                    ..start
                }),
            decreases names@.len() - i,
        {
            let ghost before = r.allow_list@;
            r.allow_list.push(names[i].to_owned());
            assert(strings_view(r.allow_list@) =~= strings_view(before).push(names@[i as int]@));
            assert(strs_view(names@.take(i + 1)) =~= strs_view(names@.take(i as int)).push(
                names@[i as int]@,
            ));
            i += 1;
        }
        assert(names@.take(names@.len() as int) =~= names@);
        r
    }

    /// Classify tests whose reliability lies below `bp` basis points
    /// (`9900` is 99%) as flaky. The threshold is clamped to 100%.
    pub fn reliability_threshold(self, bp: u32) -> (r: Self)
        ensures
            r@ == (RunSettings {
                threshold_bp: Some(if bp > FULL_PERCENT_BP {
                    FULL_PERCENT_BP
                } else {
                    bp
                }),
                ..self@
            }),
    {
        let t = if bp > FULL_PERCENT_BP {
            FULL_PERCENT_BP
        } else {
            bp
        };
        FlakyRun { reliability_threshold_bp: Some(t), ..self }
    }

    /// Subject name passed in via [`new`](Self::new).
    pub fn subject(&self) -> (s: &str)
        ensures
            s@ == self@.name,
    {
        self.name.as_str()
    }

    /// Subject version passed in via [`new`](Self::new).
    pub fn subject_version(&self) -> (s: &str)
        ensures
            s@ == self@.version,
    {
        self.version.as_str()
    }

    /// Directory `cargo test` runs in, when one is set.
    pub fn workdir_path(&self) -> (p: Option<&str>)
        ensures
            match p {
                Some(s) => self@.workdir == Some(s@),
                None => self@.workdir is None,
            },
    {
        match &self.workdir {
            Some(d) => Some(d.as_str()),
            None => None,
        }
    }

    /// Whether `--workspace` is passed.
    pub fn workspace_flag(&self) -> (b: bool)
        ensures
            b == self@.workspace,
    {
        self.workspace
    }

    /// The `--features` list, when one is set.
    pub fn features_flag(&self) -> (f: Option<&str>)
        ensures
            match f {
                Some(s) => self@.features == Some(s@),
                None => self@.features is None,
            },
    {
        match &self.features {
            Some(f) => Some(f.as_str()),
            None => None,
        }
    }

    /// The libtest name filter, when one is set.
    pub fn test_filter_str(&self) -> (f: Option<&str>)
        ensures
            match f {
                Some(s) => self@.test_filter == Some(s@),
                None => self@.test_filter is None,
            },
    {
        match &self.test_filter {
            Some(f) => Some(f.as_str()),
            None => None,
        }
    }

    /// The suppressed test names.
    pub fn allow_list_view(&self) -> (l: &[String])
        ensures
            strings_view(l@) == self@.allow_list,
    {
        self.allow_list.as_slice()
    }

    /// The arguments to pass to `cargo` for each iteration.
    pub fn cargo_test_args(&self) -> (args: Vec<String>)
        ensures
            strings_view(args@) == cargo_test_arguments(self@),
    {
        let mut args: Vec<String> = Vec::new();
        args.push("test".to_owned());
        args.push("--no-fail-fast".to_owned());
        let ghost base = strings_view(args@);
        assert(base =~= seq!["test"@, "--no-fail-fast"@]);
        if self.workspace {
            args.push("--workspace".to_owned());
        }
        let ghost with_ws = strings_view(args@);
        assert(with_ws =~= base + (if self@.workspace {
            seq!["--workspace"@]
        } else {
            Seq::empty()
        }));
        if let Some(f) = &self.features {
            args.push("--features".to_owned());
            args.push(f.clone());
        }
        let ghost with_features = strings_view(args@);
        assert(with_features =~= with_ws + match self@.features {
            Some(f) => seq!["--features"@, f],
            None => Seq::empty(),
        });
        args.push("--".to_owned());
        let ghost with_sep = strings_view(args@);
        assert(with_sep =~= with_features + seq!["--"@]);
        if let Some(f) = &self.test_filter {
            args.push(f.clone());
        }
        assert(strings_view(args@) =~= with_sep + match self@.test_filter {
            Some(f) => seq![f],
            None => Seq::empty(),
        });
        args
    }

    /// The reliability threshold in basis points, when one is set.
    pub fn reliability_threshold_value(&self) -> (t: Option<u32>)
        ensures
            t == self@.threshold_bp,
    {
        self.reliability_threshold_bp
    }
}

} // verus!
