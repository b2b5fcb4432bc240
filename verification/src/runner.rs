//! Running what is measured: the commands, the order of the runs, and the number
//! that a run gives.
use crate::builder::extended;
use crate::bytes::{lossy, utf8_lossy};
use crate::cli::{Cli, MetricSource, Mode};
use crate::git::{
    arguments, captured, head_lines, head_text, result_text, run_capture, CommandReply, ReplyText,
};
use crate::numbers::{decimal, decimal_string};
use crate::patterns::{
    all_matches, group_at, group_named, group_names, group_text, group_texts,
    law_named_group_is_at_its_place, match_texts, named, numbered, regex_matches, regex_names,
    regex_source,
};
use crate::progress::{run_side, Side};
use crate::stats::verdict_of;
use crate::text::{cat2, cat4, copy_texts, lemma_texts_push, texts};
use vstd::prelude::*;
use vstd::slice::slice_subrange;

verus! {

// ---------------------------------------------------------------------------
// Binding to a core
// ---------------------------------------------------------------------------

/// Why runs are not bound to a core though that was not asked for.
pub open spec fn unpinned_reason(linux: bool, taskset: bool) -> Option<Seq<char>> {
    if !linux {
        Some("CPU pinning not supported on this platform"@)
    } else if !taskset {
        Some("taskset unavailable"@)
    } else {
        None
    }
}

/// What a command begins with so that it is bound to a core, and the warning
/// where it cannot be. `linux` says what the platform is, and `taskset` whether
/// that program answers.
pub fn pin_prefix(core: u32, no_pin: bool, linux: bool, taskset: bool) -> (r: (
    Vec<String>,
    Option<String>,
))
    ensures
        texts(r.0@) == (if no_pin || unpinned_reason(linux, taskset) is Some {
            seq![]
        } else {
            seq!["taskset"@, "-c"@, decimal(core as nat)]
        }),
        match r.1 {
            Some(line) => {
                &&& !no_pin
                &&& unpinned_reason(linux, taskset) matches Some(reason)
                &&& line@ == "warning: "@ + reason + "; running unpinned"@
            },
            None => no_pin || unpinned_reason(linux, taskset) is None,
        },
        !no_pin && linux && taskset <==> r.0@.len() > 0,
        r.0@.len() > 0 ==> r.0@.len() == 3 && r.0@[0]@ == "taskset"@ && r.0@[1]@ == "-c"@
            && r.0@[2]@ == decimal(core as nat),
        no_pin || (linux && taskset) <==> r.1 is None,
{
    let none: Vec<String> = Vec::new();
    assert(texts(none@) =~= seq![]);
    if no_pin {
        return (none, None);
    }
    if !linux {
        return (
            none,
            Some(
                crate::text::cat3(
                    "warning: ",
                    "CPU pinning not supported on this platform",
                    "; running unpinned",
                ),
            ),
        );
    }
    if !taskset {
        return (
            none,
            Some(crate::text::cat3("warning: ", "taskset unavailable", "; running unpinned")),
        );
    }
    let number: String = decimal_string(core as u64);
    let prefix: Vec<String> = arguments(&["taskset", "-c", &number]);
    assert(texts(prefix@) =~= seq!["taskset"@, "-c"@, decimal(core as nat)]);
    assert(texts(prefix@).len() == 3);
    assert(texts(prefix@)[0] == prefix@[0]@);
    assert(texts(prefix@)[1] == prefix@[1]@);
    assert(texts(prefix@)[2] == prefix@[2]@);
    (prefix, None)
}

/// A command with a prefix, program and arguments in one list.
pub open spec fn whole_command(
    prefix: Seq<Seq<char>>,
    program: Seq<char>,
    args: Seq<Seq<char>>,
) -> Seq<Seq<char>> {
    prefix + seq![program] + args
}

/// A program and its arguments, behind a prefix where there is one: the first of
/// the whole is then the program to start.
pub fn command_with_optional_prefix(prefix: &[String], program: &str, args: &[String]) -> (r: (
    String,
    Vec<String>,
))
    ensures
        seq![r.0@] + texts(r.1@) == whole_command(texts(prefix@), program@, texts(args@)),
{
    if prefix.len() == 0 {
        let own: Vec<String> = copy_texts(args);
        assert(seq![program@] + texts(own@) =~= whole_command(
            texts(prefix@),
            program@,
            texts(args@),
        ));
        (program.to_owned(), own)
    } else {
        broadcast use lemma_texts_push;

        let rest: &[String] = slice_subrange(prefix, 1, prefix.len());
        assert(texts(rest@) =~= texts(prefix@).skip(1));
        let mut front: Vec<String> = copy_texts(rest);
        front.push(program.to_owned());
        let all: Vec<String> = extended(front, copy_texts(args));
        let first: String = prefix[0].clone();
        assert(texts(prefix@)[0] == first@);
        assert(seq![first@] + texts(all@) =~= whole_command(
            texts(prefix@),
            program@,
            texts(args@),
        ));
        (first, all)
    }
}

// ---------------------------------------------------------------------------
// Criterion
// ---------------------------------------------------------------------------

pub open spec fn criterion_args_text(
    package: Seq<char>,
    bench: Seq<char>,
    profile: Seq<char>,
    short: Seq<char>,
) -> Seq<Seq<char>> {
    seq![
        "bench"@,
        "-p"@,
        package,
        "--bench"@,
        bench,
        "--profile"@,
        profile,
        "--"@,
        "--save-baseline"@,
        "bcmp-"@ + short,
    ]
}

/// The command that runs a criterion benchmark and saves its results as a
/// baseline named after the revision. `config` are the arguments for the
/// profile.
pub fn criterion_command(
    pin: &[String],
    config: Vec<String>,
    package: &str,
    bench: &str,
    profile: &str,
    short_sha: &str,
) -> (r: (String, Vec<String>))
    ensures
        seq![r.0@] + texts(r.1@) == whole_command(
            texts(pin@),
            "cargo"@,
            texts(config@) + criterion_args_text(package@, bench@, profile@, short_sha@),
        ),
{
    let baseline: String = cat2("bcmp-", short_sha);
    let back: Vec<String> = arguments(
        &[
            "bench",
            "-p",
            package,
            "--bench",
            bench,
            "--profile",
            profile,
            "--",
            "--save-baseline",
            &baseline,
        ],
    );
    assert(texts(back@) =~= criterion_args_text(package@, bench@, profile@, short_sha@));
    command_with_optional_prefix(pin, "cargo", &extended(config, back))
}

/// Whether a criterion benchmark ran, out of how its command went.
pub fn run_criterion(program: &str, args: &[String], reply: &CommandReply) -> (r: Result<
    (),
    String,
>)
    ensures
        match captured(program@, texts(args@), reply@) {
            Ok(_) => r is Ok,
            Err(e) => r matches Err(text) && text@ == e,
        },
{
    match run_capture(program, args, reply) {
        Ok(_) => Ok(()),
        Err(e) => Err(e),
    }
}

// ---------------------------------------------------------------------------
// The order of the runs
// ---------------------------------------------------------------------------

/// What follows on a number of runs.
#[derive(Clone, Copy, Debug, PartialEq, Eq, Structural)]
pub enum NextRun {
    /// The run with this number, counted from one, on this side.
    Run { run: u64, total: u64, side: Side },
    /// Nothing, for the user interrupts.
    Interrupted,
    /// Nothing, for all runs are done.
    Finished,
}

pub open spec fn next_run(reps: u32, done: u64, cancelled: bool) -> NextRun {
    if cancelled && (reps > 0 || done > 0) {
        NextRun::Interrupted
    } else if done >= 2 * reps {
        NextRun::Finished
    } else {
        NextRun::Run {
            run: (done + 1) as u64,
            total: (2 * reps) as u64,
            side: run_side(done + 1),
        }
    }
}

/// What follows on `done` runs, with `reps` runs for each side: the sides take
/// turns, the base first.
pub fn run_binary_interleaved(reps: u32, done: u64, cancelled: bool) -> (r: NextRun)
    ensures
        r == next_run(reps, done, cancelled),
        !cancelled && done < 2 * reps ==> r == (NextRun::Run {
            run: (done + 1) as u64,
            total: (2 * reps) as u64,
            side: if done % 2 == 0 {
                Side::Base
            } else {
                Side::Candidate
            },
        }),
        !cancelled && done >= 2 * reps ==> r is Finished,
        cancelled && (reps > 0 || done > 0) ==> r is Interrupted,
        cancelled && reps == 0 && done == 0 ==> r is Finished,
{
    let total: u64 = 2 * (reps as u64);
    if cancelled && (reps > 0 || done > 0) {
        NextRun::Interrupted
    } else if done >= total {
        NextRun::Finished
    } else {
        let run: u64 = done + 1;
        let side: Side = if run % 2 == 1 {
            Side::Base
        } else {
            Side::Candidate
        };
        NextRun::Run { run, total, side }
    }
}

/// How many of the first `n` runs are of a side.
pub open spec fn runs_of(side: Side, n: nat) -> nat
    decreases n,
{
    if n == 0 {
        0
    } else if run_side(n as int) == side {
        runs_of(side, (n - 1) as nat) + 1
    } else {
        runs_of(side, (n - 1) as nat)
    }
}

/// Uninterrupted, there are `reps` runs of each side; a run of the base is
/// followed by one of the candidate, so that after any number of runs the sides
/// are at most one run apart.
pub proof fn law_runs_are_interleaved(reps: nat)
    ensures
        runs_of(Side::Base, 2 * reps) == reps,
        runs_of(Side::Candidate, 2 * reps) == reps,
        runs_of(Side::Base, 2 * reps + 1) == reps + 1,
        runs_of(Side::Candidate, 2 * reps + 1) == reps,
    decreases reps,
{
    if reps > 0 {
        law_runs_are_interleaved((reps - 1) as nat);
        assert(2 * reps - 1 == 2 * ((reps - 1) as nat) + 1);
        assert((2 * reps) % 2 == 0);
    }
    assert((2 * reps + 1) % 2 == 1);
    assert((2 * reps + 1 - 1) as nat == 2 * reps);
    assert(run_side((2 * reps + 1) as int) is Base);
}

/// How many runs of a side come up, step by step and without an interruption,
/// while the first `n` runs are made.
pub open spec fn side_count(reps: u32, side: Side, n: nat) -> nat
    decreases n,
{
    if n == 0 {
        0
    } else {
        let before = side_count(reps, side, (n - 1) as nat);
        match next_run(reps, (n - 1) as u64, false) {
            NextRun::Run { side: other, .. } => if other == side {
                before + 1
            } else {
                before
            },
            _ => before,
        }
    }
}

/// However many runs are asked for, each run has the next number, and the base
/// has every other run, from the first on; the candidate has those between.
pub proof fn law_turns(reps: u32, done: u64)
    requires
        done < 2 * reps,
    ensures
        next_run(reps, done, false) == (NextRun::Run {
            run: (done + 1) as u64,
            total: (2 * reps) as u64,
            side: if done % 2 == 0 {
                Side::Base
            } else {
                Side::Candidate
            },
        }),
        reps > 0 ==> next_run(reps, done, true) is Interrupted,
{
}

/// Over all the runs that come up both sides have exactly `reps`, and at no time
/// is one side more than a run behind the other.
pub proof fn law_both_sides_have_their_runs(reps: u32, n: nat)
    requires
        n <= 2 * reps,
    ensures
        side_count(reps, Side::Base, n) == (n + 1) / 2,
        side_count(reps, Side::Candidate, n) == n / 2,
        side_count(reps, Side::Base, (2 * reps) as nat) == reps,
        side_count(reps, Side::Candidate, (2 * reps) as nat) == reps,
{
    lemma_side_count(reps, n);
    lemma_side_count(reps, (2 * reps) as nat);
}

proof fn lemma_side_count(reps: u32, n: nat)
    requires
        n <= 2 * reps,
    ensures
        side_count(reps, Side::Base, n) == (n + 1) / 2,
        side_count(reps, Side::Candidate, n) == n / 2,
    decreases n,
{
    if n > 0 {
        lemma_side_count(reps, (n - 1) as nat);
        law_turns(reps, (n - 1) as u64);
    }
}

/// Without an interruption, run follows on run until `2 * reps` are done.
pub proof fn law_runs_come_to_an_end(reps: u32, done: u64)
    ensures
        next_run(reps, done, false) is Run <==> done < 2 * reps,
        next_run(reps, done, false) is Finished <==> done >= 2 * reps,
{
}

/// One side of a comparison: the program, its arguments, where it runs and what
/// its command begins with.
pub struct BinaryRun<'a> {
    pub exe: &'a str,
    pub args: &'a [String],
    pub cwd: &'a str,
    pub pin: &'a [String],
}

impl<'a> BinaryRun<'a> {
    /// The command of a run.
    pub fn command(&self) -> (r: (String, Vec<String>))
        ensures
            seq![r.0@] + texts(r.1@) == whole_command(
                texts(self.pin@),
                self.exe@,
                texts(self.args@),
            ),
    {
        command_with_optional_prefix(self.pin, self.exe, self.args)
    }
}

// ---------------------------------------------------------------------------
// The number that a run gives
// ---------------------------------------------------------------------------

/// The unit of a metric.
pub open spec fn unit_of(metric: MetricSource) -> Seq<char> {
    match metric {
        MetricSource::WallClock => "s"@,
        MetricSource::Regex { .. } => "metric"@,
    }
}

/// Whether less of a metric is better.
pub open spec fn less_is_better(metric: MetricSource) -> bool {
    match metric {
        MetricSource::WallClock => true,
        MetricSource::Regex { higher_is_better, .. } => !higher_is_better,
    }
}

/// The unit of criterion's results, and that less is better.
pub fn criterion_unit() -> (r: (&'static str, bool))
    ensures
        r.0@ == "ns"@,
        r.1,
{
    ("ns", true)
}

/// Where the output of a child goes.
#[derive(Clone, Copy, Debug, PartialEq, Eq, Structural)]
pub enum Stream {
    Output,
    Errors,
}

/// Where the output of a benchmark that is built or run goes: to the errors where
/// the output is to hold a JSON report and nothing else.
pub fn child_output(json: bool) -> (r: Stream)
    ensures
        r == (if json {
            Stream::Errors
        } else {
            Stream::Output
        }),
{
    if json {
        Stream::Errors
    } else {
        Stream::Output
    }
}

/// The unit of a metric, and whether less is better.
pub fn metric_unit(metric: &MetricSource) -> (r: (&'static str, bool))
    ensures
        r.0@ == unit_of(*metric),
        r.1 == less_is_better(*metric),
        match *metric {
            MetricSource::WallClock => r.0@ == "s"@ && r.1,
            MetricSource::Regex { higher_is_better, .. } => r.0@ == "metric"@ && r.1
                == !higher_is_better,
        },
{
    match metric {
        MetricSource::WallClock => ("s", true),
        MetricSource::Regex { raw: _, pattern: _, higher_is_better } => (
            "metric",
            !*higher_is_better,
        ),
    }
}

/// Less time is better; of a metric that is read out of the output, less is better
/// exactly where more is not.
pub proof fn law_direction_of_a_metric(metric: MetricSource)
    ensures
        metric matches MetricSource::Regex { higher_is_better, .. } ==> less_is_better(metric)
            == !higher_is_better,
        metric is WallClock ==> less_is_better(metric),
{
}

/// With `--metric-dir lower` a significant fall of the metric is an improvement and
/// a significant rise a regression; with `--metric-dir higher` it is the other way
/// round. Without a regex the time is measured, and less of it is better.
pub proof fn law_metric_dir_decides(cli: Cli, mode: Mode)
    requires
        cli.asks_for(mode),
    ensures
        mode matches Mode::Binary { metric, .. } ==> {
            let lower = cli.metric_regex is None || cli.metric_dir is Lower;
            let fall = verdict_of(true, less_is_better(metric), true, false);
            let rise = verdict_of(true, less_is_better(metric), false, true);
            &&& lower ==> fall is Improved && rise is Regressed
            &&& !lower ==> fall is Regressed && rise is Improved
            &&& verdict_of(false, less_is_better(metric), true, false) is NoChange
            &&& verdict_of(false, less_is_better(metric), false, true) is NoChange
        },
{
}

/// What a match says: the group `value`, or the first group.
pub open spec fn value_of(
    names: Seq<Option<Seq<char>>>,
    groups: Seq<Option<Seq<char>>>,
) -> Option<Seq<char>> {
    match named(names, groups, "value"@) {
        Some(value) => Some(value),
        None => numbered(groups, 1),
    }
}

/// What the last match says; nothing where there is none.
pub open spec fn last_value(
    names: Seq<Option<Seq<char>>>,
    matches: Seq<Seq<Option<Seq<char>>>>,
) -> Option<Option<Seq<char>>> {
    if matches.len() == 0 {
        None
    } else {
        Some(value_of(names, matches.last()))
    }
}

fn value_in(names: &[Option<String>], groups: &[Option<String>]) -> (r: Option<String>)
    ensures
        group_text(r) == value_of(group_texts(names@), group_texts(groups@)),
{
    match group_named(names, groups, "value") {
        Some(value) => Some(value),
        None => group_at(groups, 1),
    }
}

/// What the last match says, out of the names of the groups and what they hold
/// in each match.
pub fn last_caps(names: &[Option<String>], matches: &[Vec<Option<String>>]) -> (r: Option<
    Option<String>,
>)
    ensures
        match r {
            Some(value) => last_value(group_texts(names@), match_texts(matches@)) == Some(
                group_text(value),
            ),
            None => last_value(group_texts(names@), match_texts(matches@)) is None,
        },
{
    if matches.len() == 0 {
        None
    } else {
        let last: &Vec<Option<String>> = &matches[matches.len() - 1];
        assert(match_texts(matches@).last() == group_texts(last@));
        Some(value_in(names, last))
    }
}

/// The metric of a run: what the last match in its output says, or, where there
/// is none, the last match in its errors.
pub open spec fn metric_of(
    names: Seq<Option<Seq<char>>>,
    in_stdout: Seq<Seq<Option<Seq<char>>>>,
    in_stderr: Seq<Seq<Option<Seq<char>>>>,
    stdout: Seq<char>,
) -> Result<Seq<char>, Seq<char>> {
    let found = match last_value(names, in_stdout) {
        Some(value) => Some(value),
        None => last_value(names, in_stderr),
    };
    match found {
        None => Err(
            "metric regex did not match run output; stdout (first 30 lines):\n"@ + head_text(
                stdout,
                30,
            ),
        ),
        Some(None) => Err("--metric-regex must contain a capture group"@),
        Some(Some(value)) => Ok(value),
    }
}

/// The metric of a run, out of the names of the groups and the matches in what
/// it printed.
pub fn choose_metric(
    names: &[Option<String>],
    in_stdout: &[Vec<Option<String>>],
    in_stderr: &[Vec<Option<String>>],
    stdout: &str,
) -> (r: Result<String, String>)
    ensures
        result_text(r) == metric_of(
            group_texts(names@),
            match_texts(in_stdout@),
            match_texts(in_stderr@),
            stdout@,
        ),
{
    let found: Option<Option<String>> = match last_caps(names, in_stdout) {
        Some(value) => Some(value),
        None => last_caps(names, in_stderr),
    };
    match found {
        None => Err(
            cat2(
                "metric regex did not match run output; stdout (first 30 lines):\n",
                &head_lines(stdout, 30),
            ),
        ),
        Some(None) => Err("--metric-regex must contain a capture group".to_owned()),
        Some(Some(value)) => Ok(value),
    }
}

/// The metric of a run, out of what it printed.
pub fn extract_regex_metric(pattern: &regex::Regex, stdout: &[u8], stderr: &[u8]) -> (r: Result<
    String,
    String,
>)
    ensures
        ({
            let source = regex_source(*pattern);
            result_text(r) == metric_of(
                regex_names(source),
                regex_matches(source, utf8_lossy(stdout@)),
                regex_matches(source, utf8_lossy(stderr@)),
                utf8_lossy(stdout@),
            )
        }),
{
    let out: String = lossy(stdout);
    let err: String = lossy(stderr);
    choose_metric(
        &group_names(pattern),
        &all_matches(pattern, &out),
        &all_matches(pattern, &err),
        &out,
    )
}

/// What is said of a metric that is no number.
pub fn metric_parse_error(value: &str, stdout: &[u8]) -> (r: String)
    ensures
        r@ == "failed to parse metric value '"@ + value@ + "'; stdout (first 30 lines):\n"@
            + head_text(utf8_lossy(stdout@), 30),
{
    cat4(
        "failed to parse metric value '",
        value,
        "'; stdout (first 30 lines):\n",
        &head_lines(&lossy(stdout), 30),
    )
}

/// What a run gives.
pub enum Measured {
    /// The time that it took.
    WallClock,
    /// A number in words.
    Metric(String),
}

/// What a `Measured` says: nothing for the time.
pub open spec fn measured_text(r: Result<Measured, String>) -> Result<Option<Seq<char>>, Seq<char>> {
    match r {
        Ok(Measured::WallClock) => Ok(None),
        Ok(Measured::Metric(text)) => Ok(Some(text@)),
        Err(e) => Err(e@),
    }
}

pub open spec fn measured(
    program: Seq<char>,
    args: Seq<Seq<char>>,
    metric: MetricSource,
    reply: ReplyText,
) -> Result<Option<Seq<char>>, Seq<char>> {
    match (captured(program, args, reply), metric, reply) {
        (Err(e), _, _) => Err(e),
        (Ok(_), MetricSource::Regex { pattern, .. }, ReplyText::Exited { stdout, stderr, .. }) => {
            let source = regex_source(pattern);
            match metric_of(
                regex_names(source),
                regex_matches(source, utf8_lossy(stdout)),
                regex_matches(source, utf8_lossy(stderr)),
                utf8_lossy(stdout),
            ) {
                Ok(value) => Ok(Some(value)),
                Err(e) => Err(e),
            }
        },
        _ => Ok(None),
    }
}

/// What a run gives, out of how its command went.
pub fn run_one(program: &str, args: &[String], metric: &MetricSource, reply: &CommandReply) -> (r:
    Result<Measured, String>)
    ensures
        measured_text(r) == measured(program@, texts(args@), *metric, reply@),
{
    if let Err(e) = run_capture(program, args, reply) {
        return Err(e);
    }
    match metric {
        MetricSource::WallClock => Ok(Measured::WallClock),
        MetricSource::Regex { raw: _, pattern, higher_is_better: _ } => match reply {
            CommandReply::NotStarted(_) => Ok(Measured::WallClock),
            CommandReply::Exited { ok: _, status: _, stdout, stderr } => {
                match extract_regex_metric(pattern, stdout, stderr) {
                    Ok(value) => Ok(Measured::Metric(value)),
                    Err(e) => Err(e),
                }
            },
        },
    }
}

/// The metric of a run is read out of the last match in its output or, where
/// nothing matches there, of the last match in its errors: the first group named
/// `value`, at place `i`, if it takes part, else the first group. It is an error
/// if nothing matches, or if the group does not take part.
pub proof fn law_last_match_gives_the_metric(
    names: Seq<Option<Seq<char>>>,
    in_stdout: Seq<Seq<Option<Seq<char>>>>,
    in_stderr: Seq<Seq<Option<Seq<char>>>>,
    stdout: Seq<char>,
    i: int,
)
    requires
        0 <= i <= names.len(),
        i < names.len() ==> names[i] == Some("value"@),
        forall|j: int| 0 <= j < i ==> #[trigger] names[j] != Some("value"@),
    ensures
        ({
            let metric = metric_of(names, in_stdout, in_stderr, stdout);
            let matches = if in_stdout.len() > 0 {
                in_stdout
            } else {
                in_stderr
            };
            if matches.len() == 0 {
                metric is Err
            } else {
                let groups = matches[matches.len() - 1];
                if i < names.len() && i < groups.len() && groups[i] is Some {
                    metric == Ok::<Seq<char>, Seq<char>>(groups[i]->0)
                } else if groups.len() > 1 && groups[1] is Some {
                    metric == Ok::<Seq<char>, Seq<char>>(groups[1]->0)
                } else {
                    metric is Err
                }
            }
        }),
{
    if in_stdout.len() > 0 {
        law_named_group_is_at_its_place(names, in_stdout.last(), "value"@, i);
    } else if in_stderr.len() > 0 {
        law_named_group_is_at_its_place(names, in_stderr.last(), "value"@, i);
    }
}

/// Only a run that succeeds is measured: by the clock, unless there is a regex,
/// else by what the regex finds in what it printed.
pub proof fn law_only_success_is_measured(
    program: Seq<char>,
    args: Seq<Seq<char>>,
    metric: MetricSource,
    reply: ReplyText,
)
    ensures
        !(reply matches ReplyText::Exited { ok, .. } && ok) ==> measured(
            program,
            args,
            metric,
            reply,
        ) is Err,
        match (metric, reply) {
            (MetricSource::WallClock, ReplyText::Exited { ok, .. }) => ok ==> measured(
                program,
                args,
                metric,
                reply,
            ) == Ok::<Option<Seq<char>>, Seq<char>>(None),
            (MetricSource::Regex { pattern, .. }, ReplyText::Exited { ok, stdout, stderr, .. }) => {
                ok ==> measured(program, args, metric, reply) == (match metric_of(
                    regex_names(regex_source(pattern)),
                    regex_matches(regex_source(pattern), utf8_lossy(stdout)),
                    regex_matches(regex_source(pattern), utf8_lossy(stderr)),
                    utf8_lossy(stdout),
                ) {
                    Ok(value) => Ok(Some(value)),
                    Err(e) => Err(e),
                })
            },
            _ => true,
        },
{
}

/// A command runs its program with its arguments, in their order, all of it behind
/// the prefix; a benchmark is run by cargo under its package, name and profile, and
/// its results are saved under the name of the revision.
pub proof fn law_commands_are_whole(
    prefix: Seq<Seq<char>>,
    program: Seq<char>,
    args: Seq<Seq<char>>,
    package: Seq<char>,
    bench: Seq<char>,
    profile: Seq<char>,
    short: Seq<char>,
)
    ensures
        whole_command(prefix, program, args).len() == prefix.len() + 1 + args.len(),
        whole_command(prefix, program, args).take(prefix.len() as int) == prefix,
        whole_command(prefix, program, args)[prefix.len() as int] == program,
        whole_command(prefix, program, args).skip(prefix.len() as int + 1) == args,
        ({
            let words = criterion_args_text(package, bench, profile, short);
            &&& words.len() == 10
            &&& words[0] == "bench"@
            &&& words[1] == "-p"@ && words[2] == package
            &&& words[3] == "--bench"@ && words[4] == bench
            &&& words[5] == "--profile"@ && words[6] == profile
            &&& words[7] == "--"@
            &&& words[8] == "--save-baseline"@ && words[9] == "bcmp-"@ + short
        }),
{
    let all = whole_command(prefix, program, args);
    assert(all.take(prefix.len() as int) =~= prefix);
    assert(all.skip(prefix.len() as int + 1) =~= args);
}

/// Runs cannot be bound to a core where the platform does not offer it or the program
/// for it does not answer, and the first of these is the reason that is told.
pub proof fn law_why_runs_are_not_bound(linux: bool, taskset: bool)
    ensures
        linux && taskset <==> unpinned_reason(linux, taskset) is None,
        !linux ==> unpinned_reason(linux, taskset) == Some(
            "CPU pinning not supported on this platform"@,
        ),
        linux && !taskset ==> unpinned_reason(linux, taskset) == Some("taskset unavailable"@),
{
}

/// Where nothing matches, the first thirty lines of the output are told; where the
/// last match has no group to read from, that a group is needed.
pub proof fn law_missing_metrics_are_told(
    names: Seq<Option<Seq<char>>>,
    in_stderr: Seq<Seq<Option<Seq<char>>>>,
    stdout: Seq<char>,
    groups: Seq<Option<Seq<char>>>,
)
    requires
        groups.len() > 1 ==> groups[1] is None,
        forall|i: int| 0 <= i < groups.len() ==> #[trigger] groups[i] is None,
    ensures
        metric_of(names, seq![], seq![], stdout) == Err::<Seq<char>, Seq<char>>(
            "metric regex did not match run output; stdout (first 30 lines):\n"@ + head_text(
                stdout,
                30,
            ),
        ),
        metric_of(names, seq![], in_stderr.push(groups), stdout) == Err::<Seq<char>, Seq<char>>(
            "--metric-regex must contain a capture group"@,
        ),
        metric_of(names, in_stderr.push(groups), in_stderr, stdout) == Err::<Seq<char>, Seq<char>>(
            "--metric-regex must contain a capture group"@,
        ),
{
    let i = lemma_place_of_value(names);
    law_named_group_is_at_its_place(names, groups, "value"@, i);
    assert(in_stderr.push(groups).last() == groups);
}

proof fn lemma_place_of_value(names: Seq<Option<Seq<char>>>) -> (i: int)
    ensures
        0 <= i <= names.len(),
        i < names.len() ==> names[i] == Some("value"@),
        forall|j: int| 0 <= j < i ==> #[trigger] names[j] != Some("value"@),
    decreases names.len(),
{
    if names.len() == 0 {
        0
    } else {
        let front = names.drop_last();
        let i = lemma_place_of_value(front);
        assert forall|j: int| 0 <= j < i implies #[trigger] names[j] != Some("value"@) by {
            assert(front[j] == names[j]);
        }
        if i < front.len() {
            assert(front[i] == names[i]);
            i
        } else if names.last() == Some("value"@) {
            names.len() - 1
        } else {
            names.len() as int
        }
    }
}

} // verus!
