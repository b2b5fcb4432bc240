//! The command line: what can be asked for, and what a request comes to.
use crate::patterns::{compile, group_count, regex_error, regex_groups, regex_source};
use crate::text::{
    cat2, chars_of, copy_texts, same_text, strings_of, texts, words, words_of,
};
use vstd::prelude::*;

verus! {

/// A request.
pub struct Cli {
    /// A subcommand, in place of a comparison.
    pub command: Option<Sub>,
    /// The package to benchmark; inferred from the target where it is missing.
    pub package: Option<String>,
    /// The criterion benchmark to run.
    pub bench: Option<String>,
    /// The program to run.
    pub bin: Option<String>,
    /// Arguments of the program, to be split at white space.
    pub args: Option<String>,
    /// Further arguments of the program, as they are.
    pub trailing_args: Vec<String>,
    /// The candidate revision.
    pub rev: Option<String>,
    /// The base revision.
    pub rev_base: Option<String>,
    /// Runs for each revision.
    pub reps: Option<u32>,
    /// What finds the metric in the program's output.
    pub metric_regex: Option<String>,
    /// What finds in the program's output how far it is.
    pub progress_regex: Option<String>,
    /// No status line.
    pub no_progress: bool,
    /// Which way the metric gets better.
    pub metric_dir: MetricDir,
    /// The core that the runs are bound to.
    pub runs_on_core: u32,
    /// The runs are bound to no core.
    pub no_pin: bool,
    /// Set the core's governor for the runs.
    pub set_governor: bool,
    /// Clear the core of other work for the runs.
    pub isolate_core: bool,
    /// Both of the above.
    pub dedicate_core: bool,
    /// The profile that both revisions are built with.
    pub profile: String,
    /// Report in JSON.
    pub json: bool,
    /// Build in fresh worktrees.
    pub cold: bool,
    /// Keep fresh worktrees.
    pub keep_worktrees: bool,
    /// Where worktrees and caches lie.
    pub work_dir: Option<String>,
}

pub enum Sub {
    /// Print or install shell completions.
    Completions(CompletionsArgs),
    /// Look at or remove what is cached.
    Cache(CacheArgs),
    /// Print what can be completed.
    Candidates { kind: CandidateKind },
}

pub struct CacheArgs {
    pub command: CacheSub,
}

pub enum CacheSub {
    List,
    Clean(CleanArgs),
}

pub struct CleanArgs {
    /// The caches of all repositories, not of this one alone.
    pub all: bool,
}

pub struct CompletionsArgs {
    pub shell: CompletionShell,
    /// Write the script to its place in place of printing it.
    pub install: bool,
}

/// What can be completed.
#[derive(Clone, Copy, Debug, PartialEq, Eq, Structural)]
pub enum CandidateKind {
    Packages,
    Bins,
    Benches,
    Revs,
    Profiles,
}

#[derive(Clone, Copy, Debug, PartialEq, Eq, Structural)]
pub enum CompletionShell {
    Bash,
    Zsh,
    Fish,
    Elvish,
    Powershell,
    Nushell,
}

/// Which way a metric gets better.
#[derive(Clone, Copy, Debug, PartialEq, Eq, Structural)]
pub enum MetricDir {
    Higher,
    Lower,
}

/// What is compared.
pub enum Mode {
    Criterion { bench: String },
    Binary {
        bin: String,
        args: Vec<String>,
        metric: MetricSource,
        progress: Option<regex::Regex>,
    },
}

/// Where the number that is compared comes from.
pub enum MetricSource {
    WallClock,
    Regex { raw: String, pattern: regex::Regex, higher_is_better: bool },
}

impl Default for Cli {
    /// A request with every option left out.
    fn default() -> (r: Cli)
        ensures
            r.command is None,
            r.package is None,
            r.bench is None,
            r.bin is None,
            r.args is None,
            r.trailing_args@.len() == 0,
            r.rev is None,
            r.rev_base is None,
            r.reps is None,
            r.metric_regex is None,
            r.progress_regex is None,
            !r.no_progress,
            r.metric_dir is Higher,
            r.runs_on_core == 0,
            !r.no_pin,
            !r.set_governor,
            !r.isolate_core,
            !r.dedicate_core,
            r.profile@ == "release-tuned"@,
            !r.json,
            !r.cold,
            !r.keep_worktrees,
            r.work_dir is None,
    {
        Cli {
            command: None,
            package: None,
            bench: None,
            bin: None,
            args: None,
            trailing_args: Vec::new(),
            rev: None,
            rev_base: None,
            reps: None,
            metric_regex: None,
            progress_regex: None,
            no_progress: false,
            metric_dir: MetricDir::Higher,
            runs_on_core: 0,
            no_pin: false,
            set_governor: false,
            isolate_core: false,
            dedicate_core: false,
            profile: "release-tuned".to_owned(),
            json: false,
            cold: false,
            keep_worktrees: false,
            work_dir: None,
        }
    }
}

/// The arguments to parse: cargo hands a subcommand its own name as the first
/// argument, which is left out.
pub open spec fn own_args(args: Seq<Seq<char>>) -> Seq<Seq<char>> {
    if args.len() > 1 && args[1] == "bench-compare"@ {
        args.remove(1)
    } else {
        args
    }
}

/// The arguments to parse, out of those that the process got.
pub fn arguments_to_parse(args: Vec<String>) -> (r: Vec<String>)
    ensures
        texts(r@) == own_args(texts(args@)),
{
    let mut out: Vec<String> = args;
    if out.len() > 1 && same_text(&out[1], "bench-compare") {
        out.remove(1);
        assert(texts(out@) =~= texts(args@).remove(1));
    }
    out
}

/// The text of an optional string.
pub open spec fn text_of(s: Option<String>) -> Option<Seq<char>> {
    match s {
        Some(s) => Some(s@),
        None => None,
    }
}

/// Why a regex with at least one group is not what was given for an option.
pub open spec fn pattern_error(raw: Option<Seq<char>>, option: Seq<char>) -> Option<Seq<char>> {
    match raw {
        None => None,
        Some(source) => match regex_error(source) {
            Some(e) => Some(e),
            None => if regex_groups(source) < 2 {
                Some(option + " must contain a capture group"@)
            } else {
                None
            },
        },
    }
}

/// Whether a regex with so many groups, the whole match among them, has one to
/// read from.
pub fn require_group(groups: usize, option: &str) -> (r: Result<(), String>)
    ensures
        match r {
            Ok(_) => groups >= 2,
            Err(e) => groups < 2 && e@ == option@ + " must contain a capture group"@,
        },
{
    if groups < 2 {
        Err(cat2(option, " must contain a capture group"))
    } else {
        Ok(())
    }
}

fn checked_pattern(raw: &str, option: &str) -> (r: Result<regex::Regex, String>)
    ensures
        match r {
            Ok(pattern) => pattern_error(Some(raw@), option@) is None && regex_source(pattern)
                == raw@,
            Err(e) => pattern_error(Some(raw@), option@) == Some(e@),
        },
{
    match compile(raw) {
        Err(e) => Err(e),
        Ok(pattern) => match require_group(group_count(&pattern), option) {
            Ok(_) => Ok(pattern),
            Err(e) => Err(e),
        },
    }
}

impl Cli {
    /// The arguments of the program: those to be split, then the others.
    pub open spec fn program_args(self) -> Seq<Seq<char>> {
        (match self.args {
            Some(raw) => words_of(raw@, true),
            None => seq![],
        }) + texts(self.trailing_args@)
    }

    /// Why the request names nothing that can be compared, if it does not.
    pub open spec fn mode_error(self) -> Option<Seq<char>> {
        if self.bench is Some {
            None
        } else if self.bin is None {
            Some("exactly one of --bench/--bin is required"@)
        } else {
            match pattern_error(text_of(self.metric_regex), "--metric-regex"@) {
                Some(e) => Some(e),
                None => pattern_error(text_of(self.progress_regex), "--progress-regex"@),
            }
        }
    }

    /// A mode is what the request asks for.
    pub open spec fn asks_for(self, mode: Mode) -> bool {
        match mode {
            Mode::Criterion { bench } => text_of(self.bench) == Some(bench@),
            Mode::Binary { bin, args, metric, progress } => {
                &&& self.bench is None
                &&& text_of(self.bin) == Some(bin@)
                &&& texts(args@) == self.program_args()
                &&& match metric {
                    MetricSource::WallClock => self.metric_regex is None,
                    MetricSource::Regex { raw, pattern, higher_is_better } => {
                        &&& text_of(self.metric_regex) == Some(raw@)
                        &&& regex_source(pattern) == raw@
                        &&& higher_is_better == (self.metric_dir is Higher)
                    },
                }
                &&& match progress {
                    None => self.progress_regex is None,
                    Some(pattern) => text_of(self.progress_regex) == Some(regex_source(pattern)),
                }
            },
        }
    }

    fn split_args(&self) -> (r: Vec<String>)
        ensures
            texts(r@) == self.program_args(),
    {
        let mut out: Vec<String> = Vec::new();
        assert(texts(out@) =~= seq![]);
        if let Some(raw) = &self.args {
            let chars: Vec<char> = chars_of(raw);
            out = strings_of(&words(&chars, true));
        }
        crate::builder::extended(out, copy_texts(&self.trailing_args))
    }

    /// What is compared: a benchmark where one is named, else a program, with the
    /// regexes compiled.
    pub fn mode(&self) -> (r: Result<Mode, String>)
        ensures
            match r {
                Ok(mode) => self.mode_error() is None && self.asks_for(mode),
                Err(e) => self.mode_error() == Some(e@),
            },
    {
        if let Some(bench) = &self.bench {
            return Ok(Mode::Criterion { bench: bench.clone() });
        }
        let bin: String = match &self.bin {
            Some(bin) => bin.clone(),
            None => {
                return Err("exactly one of --bench/--bin is required".to_owned());
            },
        };
        let args: Vec<String> = self.split_args();
        let metric: MetricSource = match &self.metric_regex {
            Some(raw) => match checked_pattern(raw, "--metric-regex") {
                Ok(pattern) => MetricSource::Regex {
                    raw: raw.clone(),
                    pattern,
                    higher_is_better: matches!(self.metric_dir, MetricDir::Higher),
                },
                Err(e) => {
                    return Err(e);
                },
            },
            None => MetricSource::WallClock,
        };
        let progress: Option<regex::Regex> = match &self.progress_regex {
            Some(raw) => match checked_pattern(raw, "--progress-regex") {
                Ok(pattern) => Some(pattern),
                Err(e) => {
                    return Err(e);
                },
            },
            None => None,
        };
        Ok(Mode::Binary { bin, args, metric, progress })
    }

    /// Whether the core's governor is to be set.
    pub fn wants_governor(&self) -> (r: bool)
        ensures
            r == (self.set_governor || self.dedicate_core),
    {
        self.set_governor || self.dedicate_core
    }

    /// Whether the core is to be cleared of other work.
    pub fn wants_isolation(&self) -> (r: bool)
        ensures
            r == (self.isolate_core || self.dedicate_core),
    {
        self.isolate_core || self.dedicate_core
    }
}

/// The name that cargo hands on is left out of the arguments only where it stands
/// directly behind the program, and once; all others stay as they are.
pub proof fn law_own_name_is_left_out(program: Seq<char>, rest: Seq<Seq<char>>)
    ensures
        own_args(seq![program, "bench-compare"@] + rest) == seq![program] + rest,
        rest.len() > 0 && rest[0] != "bench-compare"@ ==> own_args(seq![program] + rest) == seq![
            program,
        ] + rest,
        own_args(seq![program]) == seq![program],
        own_args(seq![]) == Seq::<Seq<char>>::empty(),
{
    assert(own_args(seq![program, "bench-compare"@] + rest) =~= seq![program] + rest);
}

/// The program gets the words of one option, then the arguments that stand behind
/// the options, each as it was given.
pub proof fn law_program_gets_all_arguments(cli: Cli, i: int)
    ensures
        cli.args matches Some(raw) ==> ({
            let words = words_of(raw@, true);
            &&& cli.program_args().len() == words.len() + cli.trailing_args@.len()
            &&& 0 <= i < words.len() ==> cli.program_args()[i] == words[i]
            &&& 0 <= i < cli.trailing_args@.len() ==> cli.program_args()[words.len() + i]
                == cli.trailing_args@[i]@
        }),
        cli.args is None ==> {
            &&& cli.program_args().len() == cli.trailing_args@.len()
            &&& 0 <= i < cli.trailing_args@.len() ==> cli.program_args()[i]
                == cli.trailing_args@[i]@
        },
{
}

/// A request is refused exactly where it names neither a benchmark nor a program, or
/// a program with a regex that does not compile or has no group of its own. The regex
/// for the metric is looked at first.
pub proof fn law_what_is_refused(cli: Cli)
    ensures
        ({
            let bad = |raw: Option<String>|
                raw matches Some(s) && (regex_error(s@) is Some || regex_groups(s@) < 2);
            &&& cli.mode_error() is Some <==> cli.bench is None && (cli.bin is None || bad(
                cli.metric_regex,
            ) || bad(cli.progress_regex))
            &&& cli.bench is None && cli.bin is None ==> cli.mode_error() == Some(
                "exactly one of --bench/--bin is required"@,
            )
            &&& cli.bench is None && cli.bin is Some ==> {
                &&& cli.metric_regex matches Some(s) ==> (regex_error(s@) matches Some(e)
                    ==> cli.mode_error() == Some(e))
                &&& cli.metric_regex matches Some(s) ==> regex_error(s@) is None && regex_groups(
                    s@,
                ) < 2 ==> cli.mode_error() == Some("--metric-regex must contain a capture group"@)
                &&& !bad(cli.metric_regex) ==> (cli.progress_regex matches Some(s) ==> (regex_error(
                    s@,
                ) matches Some(e) ==> cli.mode_error() == Some(e)))
                &&& !bad(cli.metric_regex) ==> (cli.progress_regex matches Some(s) ==> regex_error(
                    s@,
                ) is None && regex_groups(s@) < 2 ==> cli.mode_error() == Some(
                    "--progress-regex must contain a capture group"@,
                ))
            }
        }),
{
    reveal_strlit("--metric-regex");
    reveal_strlit("--progress-regex");
    reveal_strlit(" must contain a capture group");
    reveal_strlit("--metric-regex must contain a capture group");
    reveal_strlit("--progress-regex must contain a capture group");
    assert("--metric-regex"@ + " must contain a capture group"@
        =~= "--metric-regex must contain a capture group"@);
    assert("--progress-regex"@ + " must contain a capture group"@
        =~= "--progress-regex must contain a capture group"@);
}

/// What is compared is what was asked for: a benchmark goes before a program, the
/// program is the one named, its output is read with the regexes given, and the
/// direction is the one chosen. Without a regex the time counts.
pub proof fn law_mode_is_as_asked(cli: Cli, mode: Mode)
    requires
        cli.asks_for(mode),
    ensures
        cli.bench matches Some(name) ==> (mode matches Mode::Criterion { bench } && bench@ == name@),
        cli.bench is None ==> (cli.bin matches Some(name) && (mode matches Mode::Binary {
            bin,
            metric,
            progress,
            ..
        } && {
            &&& bin@ == name@
            &&& cli.metric_regex is None ==> metric is WallClock
            &&& cli.metric_regex matches Some(s) ==> (metric matches MetricSource::Regex {
                raw,
                pattern,
                higher_is_better,
            } && raw@ == s@ && regex_source(pattern) == s@ && (higher_is_better <==> cli.metric_dir
                == MetricDir::Higher))
            &&& cli.progress_regex is None ==> progress is None
            &&& cli.progress_regex matches Some(s) ==> (progress matches Some(pattern)
                && regex_source(pattern) == s@)
        })),
{
}

} // verus!
