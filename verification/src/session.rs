//! A comparison from end to end: what is asked for, what is refused, in which
//! order things are done, and how they are labelled.
use crate::builder::law_target_dirs_are_apart;
use crate::cli::{CacheSub, CandidateKind, Cli, CompletionShell, Mode, Sub};
use crate::git::{law_worktrees_are_apart, worktree_name, ResolvedRev};
use crate::governor::SetOutcome;
use crate::numbers::{decimal, decimal_string};
use crate::order::{
    ascending_texts, law_ascending_texts_unique, law_text_set, set_of, text_before, text_set,
};
use crate::paths::{
    is_name, joined, law_children_are_apart, law_same_part_keeps_apart, same_place,
};
use crate::progress::Side;
use crate::text::{
    begins_with, cat2, cat3, cat4, cat5, has_text, join, join_texts, lemma_texts_push, same_text,
    split_text, texts,
};
use vstd::prelude::*;

verus! {

// ---------------------------------------------------------------------------
// What is asked for
// ---------------------------------------------------------------------------

/// What a request comes to.
#[derive(Clone, Copy, Debug, PartialEq, Eq, Structural)]
pub enum Task {
    Completions { shell: CompletionShell, install: bool },
    CacheList,
    CacheClean { all: bool },
    Candidates(CandidateKind),
    Compare,
}

/// A subcommand, where one was given, else a comparison.
pub fn task_of(command: &Option<Sub>) -> (r: Task)
    ensures
        r == (match *command {
            Some(Sub::Completions(args)) => Task::Completions {
                shell: args.shell,
                install: args.install,
            },
            Some(Sub::Cache(args)) => match args.command {
                CacheSub::List => Task::CacheList,
                CacheSub::Clean(args) => Task::CacheClean { all: args.all },
            },
            Some(Sub::Candidates { kind }) => Task::Candidates(kind),
            None => Task::Compare,
        }),
{
    match command {
        Some(Sub::Completions(args)) => Task::Completions {
            shell: args.shell,
            install: args.install,
        },
        Some(Sub::Cache(args)) => match &args.command {
            CacheSub::List => Task::CacheList,
            CacheSub::Clean(args) => Task::CacheClean { all: args.all },
        },
        Some(Sub::Candidates { kind }) => Task::Candidates(*kind),
        None => Task::Compare,
    }
}

/// The worktrees of a comparison.
#[derive(Clone, Copy, Debug, PartialEq, Eq, Structural)]
pub enum Worktrees {
    /// Made for it, and kept or removed afterwards.
    Fresh { keep: bool },
    /// The persistent ones.
    Warm,
}

pub fn worktrees(cold: bool, keep_worktrees: bool) -> (r: Worktrees)
    ensures
        r == (if cold {
            Worktrees::Fresh { keep: keep_worktrees }
        } else {
            Worktrees::Warm
        }),
{
    if cold {
        Worktrees::Fresh { keep: keep_worktrees }
    } else {
        Worktrees::Warm
    }
}

pub open spec fn given_or(given: Option<String>, otherwise: Seq<char>) -> Seq<char> {
    match given {
        Some(s) => s@,
        None => otherwise,
    }
}

/// The two revisions of a comparison, as they are asked for.
pub struct Request {
    pub candidate: String,
    pub base: String,
}

/// The revisions to compare: the candidate is the working tree and the base the
/// merge base, where they are not given. It is an error if both are the working
/// tree.
pub fn requested(rev: &Option<String>, rev_base: &Option<String>) -> (r: Result<Request, String>)
    ensures
        ({
            let candidate = given_or(*rev, ":worktree"@);
            let base = given_or(*rev_base, ":merge-base"@);
            match r {
                Ok(request) => {
                    &&& !(candidate == ":worktree"@ && base == ":worktree"@)
                    &&& request.candidate@ == candidate
                    &&& request.base@ == base
                },
                Err(e) => {
                    &&& candidate == ":worktree"@ && base == ":worktree"@
                    &&& e@ == "candidate and base are both ':worktree'; nothing to compare"@
                },
            }
        }),
{
    let candidate: String = match rev {
        Some(s) => s.clone(),
        None => ":worktree".to_owned(),
    };
    let base: String = match rev_base {
        Some(s) => s.clone(),
        None => ":merge-base".to_owned(),
    };
    if same_text(&candidate, ":worktree") && same_text(&base, ":worktree") {
        return Err("candidate and base are both ':worktree'; nothing to compare".to_owned());
    }
    Ok(Request { candidate, base })
}

/// Whether governors can be set where that is asked for.
pub fn check_platform(set_governor: bool, linux: bool) -> (r: Result<(), String>)
    ensures
        match r {
            Ok(_) => !set_governor || linux,
            Err(e) => set_governor && !linux && e@
                == "--set-governor is only supported on Linux"@,
        },
{
    if set_governor && !linux {
        Err("--set-governor is only supported on Linux".to_owned())
    } else {
        Ok(())
    }
}

/// Whether two revisions differ. `defaults` says that neither was given.
pub fn check_revisions(base: &ResolvedRev, candidate: &ResolvedRev, defaults: bool) -> (r: Result<
    (),
    String,
>)
    ensures
        match r {
            Ok(_) => base.sha@ != candidate.sha@,
            Err(e) => base.sha@ == candidate.sha@ && e@ == "base and candidate both resolve to "@
                + base.sha@ + "; nothing to compare"@ + (if defaults {
                " (working tree is clean and HEAD is already the merge base; commit something or pass --rev/--rev-base)"@
            } else {
                ""@
            }),
        },
{
    if !same_text(&base.sha, &candidate.sha) {
        return Ok(());
    }
    let hint: &'static str = if defaults {
        " (working tree is clean and HEAD is already the merge base; commit something or pass --rev/--rev-base)"
    } else {
        ""
    };
    Err(cat4("base and candidate both resolve to ", &base.sha, "; nothing to compare", hint))
}

/// The warning about local changes that are in neither revision.
pub fn dirty_warning(dirty: bool, base: &ResolvedRev, candidate: &ResolvedRev) -> (r: Option<
    &'static str,
>)
    ensures
        match r {
            Some(line) => {
                &&& dirty && base.spec@ != "worktree"@ && candidate.spec@ != "worktree"@
                &&& line@
                    == "warning: working tree is dirty; uncommitted local changes are NOT included in either side"@
            },
            None => !dirty || base.spec@ == "worktree"@ || candidate.spec@ == "worktree"@,
        },
{
    if dirty && !same_text(&base.spec, "worktree") && !same_text(&candidate.spec, "worktree") {
        Some(
            "warning: working tree is dirty; uncommitted local changes are NOT included in either side",
        )
    } else {
        None
    }
}

/// Where worktrees and caches lie: where that is given, else below the user's
/// cache directory, else below the user's home.
pub fn resolve_work_dir(explicit: Option<&str>, xdg_cache: Option<&str>, home: Option<&str>) -> (r:
    Result<String, String>)
    ensures
        match (explicit, xdg_cache, home) {
            (Some(path), _, _) => r matches Ok(s) && s@ == path@,
            (None, Some(cache), _) => r matches Ok(s) && s@ == joined(
                cache@,
                "cargo-bench-compare"@,
            ),
            (None, None, Some(home)) => r matches Ok(s) && s@ == joined(
                joined(home@, ".cache"@),
                "cargo-bench-compare"@,
            ),
            (None, None, None) => r matches Err(e) && e@
                == "HOME is unset and --work-dir was not provided"@,
        },
{
    if let Some(path) = explicit {
        return Ok(path.to_owned());
    }
    if let Some(cache) = xdg_cache {
        return Ok(crate::paths::join(cache, "cargo-bench-compare"));
    }
    match home {
        Some(home) => Ok(
            crate::paths::join(&crate::paths::join(home, ".cache"), "cargo-bench-compare"),
        ),
        None => Err("HOME is unset and --work-dir was not provided".to_owned()),
    }
}

pub open spec fn warm_name(side: Side) -> Seq<char> {
    match side {
        Side::Base => "warm-base"@,
        Side::Candidate => "warm-candidate"@,
    }
}

/// The persistent worktree of a side.
pub fn warm_worktree(work_dir: &str, side: Side) -> (r: String)
    ensures
        r@ == joined(work_dir@, warm_name(side)),
{
    match side {
        Side::Base => crate::paths::join(work_dir, "warm-base"),
        Side::Candidate => crate::paths::join(work_dir, "warm-candidate"),
    }
}

/// The note in a cache directory that names its repository.
pub fn repo_note(work_dir: &str, repo: &str) -> (r: (String, String))
    ensures
        r.0@ == joined(work_dir@, "repo-path.txt"@),
        r.1@ == repo@ + "\n"@,
{
    (crate::paths::join(work_dir, "repo-path.txt"), cat2(repo, "\n"))
}

// ---------------------------------------------------------------------------
// Labels
// ---------------------------------------------------------------------------

/// The arguments of the program as a report shows them, if there are any.
pub fn args_label(mode: &Mode) -> (r: Option<String>)
    ensures
        match *mode {
            Mode::Binary { args, .. } => if args@.len() == 0 {
                r is None
            } else {
                r matches Some(s) && s@ == join_texts(texts(args@), " "@)
            },
            Mode::Criterion { .. } => r is None,
        },
{
    match mode {
        Mode::Binary { bin: _, args, metric: _, progress: _ } => {
            if args.len() == 0 {
                None
            } else {
                Some(join(args, " "))
            }
        },
        Mode::Criterion { .. } => None,
    }
}

/// Whether a build starts from nothing: it is asked for, or one side has nothing
/// built yet.
pub fn build_mode(cold: bool, base_target: bool, candidate_target: bool) -> (r: &'static str)
    ensures
        r@ == (if cold || !base_target || !candidate_target {
            "cold"@
        } else {
            "warm"@
        }),
{
    if cold || !base_target || !candidate_target {
        "cold"
    } else {
        "warm"
    }
}

/// The core that runs are bound to, if they are.
pub fn pinned_core(pin: &[String], core: u32) -> (r: Option<u32>)
    ensures
        r == (if pin@.len() == 0 {
            None
        } else {
            Some(core)
        }),
{
    if pin.len() == 0 {
        None
    } else {
        Some(core)
    }
}

pub fn pinned_label(core: Option<u32>) -> (r: String)
    ensures
        r@ == (match core {
            Some(n) => "core "@ + decimal(n as nat) + " (taskset)"@,
            None => "disabled"@,
        }),
{
    match core {
        Some(n) => cat3("core ", &decimal_string(n as u64), " (taskset)"),
        None => "disabled".to_owned(),
    }
}

/// What a report calls a mode.
pub fn mode_label(mode: &Mode) -> (r: String)
    ensures
        r@ == (match *mode {
            Mode::Binary { bin, .. } => "binary '"@ + bin@ + "'"@,
            Mode::Criterion { bench } => "criterion bench '"@ + bench@ + "'"@,
        }),
{
    match mode {
        Mode::Binary { bin, args: _, metric: _, progress: _ } => cat3("binary '", bin, "'"),
        Mode::Criterion { bench } => cat3("criterion bench '", bench, "'"),
    }
}

/// What a machine-readable report calls a mode.
pub fn mode_name(mode: &Mode) -> (r: &'static str)
    ensures
        r@ == (match *mode {
            Mode::Binary { .. } => "binary"@,
            Mode::Criterion { .. } => "criterion"@,
        }),
{
    match mode {
        Mode::Binary { .. } => "binary",
        Mode::Criterion { .. } => "criterion",
    }
}

/// Runs for each revision.
pub fn repetitions(reps: Option<u32>) -> (r: u32)
    ensures
        r == (match reps {
            Some(n) => n,
            None => 5,
        }),
{
    match reps {
        Some(n) => n,
        None => 5,
    }
}

/// How a report tells the runs for each revision: criterion decides on its own.
pub fn reps_label(mode: &Mode, reps: Option<u32>) -> (r: String)
    ensures
        r@ == (match *mode {
            Mode::Criterion { .. } => "criterion-internal"@,
            Mode::Binary { .. } => decimal(
                (match reps {
                    Some(n) => n,
                    None => 5,
                }) as nat,
            ),
        }),
{
    match mode {
        Mode::Criterion { .. } => "criterion-internal".to_owned(),
        Mode::Binary { .. } => decimal_string(repetitions(reps) as u64),
    }
}

/// The warning where runs were given and criterion decides on its own.
pub fn reps_warning(mode: &Mode, reps: Option<u32>) -> (r: Option<&'static str>)
    ensures
        match r {
            Some(line) => mode is Criterion && reps is Some && line@
                == "warning: --reps is ignored in criterion mode (criterion samples internally)"@,
            None => mode is Binary || reps is None,
        },
{
    match mode {
        Mode::Criterion { .. } => {
            if reps.is_some() {
                Some(
                    "warning: --reps is ignored in criterion mode (criterion samples internally)",
                )
            } else {
                None
            }
        },
        Mode::Binary { .. } => None,
    }
}

pub open spec fn hint_text(package: Seq<char>, option: Seq<char>, target: Seq<char>) -> Seq<char> {
    "package '"@ + package + "' was inferred from "@ + option + " '"@ + target
        + "' (working-tree metadata); if it is wrong for this revision, pass -p <package> explicitly"@
}

/// The hint that goes with a failed build where the package was inferred.
pub fn infer_hint(named: bool, mode: &Mode, package: &str) -> (r: Option<String>)
    ensures
        match r {
            Some(hint) => !named && hint@ == (match *mode {
                Mode::Binary { bin, .. } => hint_text(package@, "--bin"@, bin@),
                Mode::Criterion { bench } => hint_text(package@, "--bench"@, bench@),
            }),
            None => named,
        },
{
    if named {
        return None;
    }
    let (option, target): (&'static str, &String) = match mode {
        Mode::Binary { bin, args: _, metric: _, progress: _ } => ("--bin", bin),
        Mode::Criterion { bench } => ("--bench", bench),
    };
    let mut text: String = cat5("package '", package, "' was inferred from ", option, " '");
    text.append(target);
    text.append(
        "' (working-tree metadata); if it is wrong for this revision, pass -p <package> explicitly",
    );
    Some(text)
}

/// A result whose error, if it is one, comes with a hint.
pub fn apply_infer_hint<T>(result: Result<T, String>, hint: Option<&str>) -> (r: Result<T, String>)
    ensures
        match result {
            Ok(value) => r == Ok::<T, String>(value),
            Err(e) => r matches Err(text) && text@ == (match hint {
                Some(h) => h@ + ": "@ + e@,
                None => e@,
            }),
        },
{
    match result {
        Ok(value) => Ok(value),
        Err(e) => match hint {
            Some(h) => Err(cat3(h, ": ", &e)),
            None => Err(e),
        },
    }
}

/// The warning that an option comes to nothing, for the reason given.
pub fn skipped(option: &str, reason: &str) -> (r: String)
    ensures
        r@ == "warning: "@ + option@ + " skipped: "@ + reason@,
{
    cat4("warning: ", option, " skipped: ", reason)
}

/// The warning that an option is given and comes to nothing, for runs are not
/// bound to a core.
pub fn skip_notice(option: &str, wanted: bool, pinned: Option<u32>) -> (r: Option<String>)
    ensures
        match r {
            Some(line) => wanted && pinned is None && line@ == "warning: "@ + option@
                + " skipped: "@ + "run is not pinned (taskset unavailable)"@,
            None => !wanted || pinned is Some,
        },
{
    if wanted && pinned.is_none() {
        Some(skipped(option, "run is not pinned (taskset unavailable)"))
    } else {
        None
    }
}

/// The line that tells how setting the governor of a core ended, if it is worth
/// one.
pub fn governor_notice(core: u32, outcome: &SetOutcome) -> (r: Option<String>)
    ensures
        match *outcome {
            SetOutcome::Changed(guard) => r matches Some(line) && line@
                == "set CPU governor on core "@ + decimal(core as nat) + ": "@ + guard.previous@
                + " -> performance (restored on exit)"@,
            SetOutcome::AlreadyPerformance => r is None,
            SetOutcome::Skipped(reason) => r matches Some(line) && line@
                == "warning: --set-governor skipped: "@ + reason@,
        },
{
    match outcome {
        SetOutcome::Changed(guard) => Some(
            cat5(
                "set CPU governor on core ",
                &decimal_string(core as u64),
                ": ",
                &guard.previous,
                " -> performance (restored on exit)",
            ),
        ),
        SetOutcome::AlreadyPerformance => None,
        SetOutcome::Skipped(reason) => Some(cat2("warning: --set-governor skipped: ", reason)),
    }
}

// ---------------------------------------------------------------------------
// The order of things
// ---------------------------------------------------------------------------

/// It is an error to go on once the user interrupts.
pub fn check_cancelled(cancelled: bool) -> (r: Result<(), String>)
    ensures
        match r {
            Ok(_) => !cancelled,
            Err(e) => cancelled && e@ == "interrupted"@,
        },
{
    if cancelled {
        Err("interrupted".to_owned())
    } else {
        Ok(())
    }
}

/// What the steps of a comparison depend on.
#[derive(Clone, Copy, Debug, PartialEq, Eq, Structural)]
pub struct Plan {
    /// A program is measured, not a benchmark.
    pub binary: bool,
    /// The core is to be cleared of other work.
    pub isolate: bool,
    /// The core's governor is to be set.
    pub governor: bool,
}

/// What a command line asks for; `--dedicate-core` asks for both an isolated core
/// and its governor.
pub open spec fn asked_plan(cli: Cli, mode: Mode) -> Plan {
    Plan {
        binary: mode is Binary,
        isolate: cli.isolate_core || cli.dedicate_core,
        governor: cli.set_governor || cli.dedicate_core,
    }
}

pub fn plan_of(cli: &Cli, mode: &Mode) -> (r: Plan)
    ensures
        r == asked_plan(*cli, *mode),
{
    let binary: bool = match mode {
        Mode::Binary { .. } => true,
        Mode::Criterion { .. } => false,
    };
    Plan { binary, isolate: cli.wants_isolation(), governor: cli.wants_governor() }
}

/// Something that a comparison does.
#[derive(Clone, Copy, Debug, PartialEq, Eq, Structural)]
pub enum Step {
    /// Refuse two revisions that are asked for alike.
    CheckRequest,
    /// Refuse what the platform does not offer.
    CheckPlatform,
    /// From here on notice when the user interrupts.
    WatchInterrupts,
    FindRepository,
    LoadWorkspace,
    /// Find out about uncommitted changes.
    LookForChanges,
    /// Find the revision of a side.
    Resolve(Side),
    /// Refuse two revisions that are the same, and warn about changes that are in
    /// neither.
    CheckRevisions,
    /// Refuse the revision of a side that lacks the workspace.
    CheckManifest(Side),
    MakeCacheDir,
    SweepWorktrees,
    /// Find out whether runs can be bound to a core.
    BindToCore,
    /// Refuse a core that does not exist.
    CheckCore(u32),
    IsolateCore(u32),
    /// Say that no core is isolated, for runs are not bound to one.
    SkipIsolation,
    SetGovernor(u32),
    /// Say that no governor is set, for runs are not bound to a core.
    SkipGovernor,
    WarnAboutGovernors,
    MakeWorktrees,
    /// Build what a side measures.
    Build(Side),
    /// Run the program of both sides, in turns.
    Interleave,
    /// Remove an older baseline of a side, then run its benchmark.
    Criterion(Side),
    /// Compare what was measured, and report.
    Report,
}

/// The steps up to the one that tells whether runs are bound to a core.
pub open spec fn first_steps() -> Seq<Step> {
    seq![
        Step::CheckRequest,
        Step::CheckPlatform,
        Step::WatchInterrupts,
        Step::FindRepository,
        Step::LoadWorkspace,
        Step::LookForChanges,
        Step::Resolve(Side::Base),
        Step::Resolve(Side::Candidate),
        Step::CheckRevisions,
        Step::CheckManifest(Side::Base),
        Step::CheckManifest(Side::Candidate),
        Step::MakeCacheDir,
        Step::SweepWorktrees,
        Step::BindToCore,
    ]
}

/// The steps that make the core ready.
pub open spec fn core_steps(plan: Plan, pinned: Option<u32>) -> Seq<Step> {
    let check = match pinned {
        Some(core) => seq![Step::CheckCore(core)],
        None => seq![],
    };
    let isolate = if plan.isolate {
        match pinned {
            Some(core) => seq![Step::IsolateCore(core)],
            None => seq![Step::SkipIsolation],
        }
    } else {
        seq![]
    };
    let governor = if plan.governor {
        match pinned {
            Some(core) => seq![Step::SetGovernor(core)],
            None => seq![Step::SkipGovernor],
        }
    } else {
        seq![]
    };
    check + isolate + governor
}

/// The steps that build, measure and report.
pub open spec fn last_steps(binary: bool) -> Seq<Step> {
    if binary {
        seq![
            Step::WarnAboutGovernors,
            Step::MakeWorktrees,
            Step::Build(Side::Base),
            Step::Build(Side::Candidate),
            Step::Interleave,
            Step::Report,
        ]
    } else {
        seq![
            Step::WarnAboutGovernors,
            Step::MakeWorktrees,
            Step::Build(Side::Base),
            Step::Build(Side::Candidate),
            Step::Criterion(Side::Base),
            Step::Criterion(Side::Candidate),
            Step::Report,
        ]
    }
}

/// The steps of a comparison whose runs are bound to the core given, or to none.
pub open spec fn steps_of(plan: Plan, pinned: Option<u32>) -> Seq<Step> {
    first_steps() + core_steps(plan, pinned) + last_steps(plan.binary)
}

/// Whether the user may have interrupted a step. The turns of a program look for
/// that themselves, and what comes before the builds is not looked at.
pub open spec fn interruptible(step: Step) -> bool {
    step is Build || step is Criterion
}

fn all_steps(plan: Plan, pinned: Option<u32>) -> (r: Vec<Step>)
    ensures
        r@ == steps_of(plan, pinned),
{
    let mut steps: Vec<Step> = vec![
        Step::CheckRequest,
        Step::CheckPlatform,
        Step::WatchInterrupts,
        Step::FindRepository,
        Step::LoadWorkspace,
        Step::LookForChanges,
        Step::Resolve(Side::Base),
        Step::Resolve(Side::Candidate),
        Step::CheckRevisions,
        Step::CheckManifest(Side::Base),
        Step::CheckManifest(Side::Candidate),
        Step::MakeCacheDir,
        Step::SweepWorktrees,
        Step::BindToCore,
    ];
    assert(steps@ =~= first_steps());
    let mut core: Vec<Step> = Vec::new();
    if let Some(n) = pinned {
        core.push(Step::CheckCore(n));
    }
    if plan.isolate {
        match pinned {
            Some(n) => core.push(Step::IsolateCore(n)),
            None => core.push(Step::SkipIsolation),
        }
    }
    if plan.governor {
        match pinned {
            Some(n) => core.push(Step::SetGovernor(n)),
            None => core.push(Step::SkipGovernor),
        }
    }
    assert(core@ =~= core_steps(plan, pinned));
    let mut last: Vec<Step> = if plan.binary {
        vec![
            Step::WarnAboutGovernors,
            Step::MakeWorktrees,
            Step::Build(Side::Base),
            Step::Build(Side::Candidate),
            Step::Interleave,
            Step::Report,
        ]
    } else {
        vec![
            Step::WarnAboutGovernors,
            Step::MakeWorktrees,
            Step::Build(Side::Base),
            Step::Build(Side::Candidate),
            Step::Criterion(Side::Base),
            Step::Criterion(Side::Candidate),
            Step::Report,
        ]
    };
    assert(last@ =~= last_steps(plan.binary));
    steps.append(&mut core);
    steps.append(&mut last);
    steps
}

/// The step that follows on `done` steps, until all are done. `pinned` is the
/// core that runs are bound to; until that is known it does not matter. It is an
/// error if the user interrupted a build or a benchmark.
pub fn next_step(plan: Plan, pinned: Option<u32>, done: usize, cancelled: bool) -> (r: Result<
    Option<Step>,
    String,
>)
    ensures
        ({
            let steps = steps_of(plan, pinned);
            let looks = 0 < done < steps.len() && interruptible(steps[done - 1]);
            match r {
                Err(e) => cancelled && looks && e@ == "interrupted"@,
                Ok(Some(step)) => !(cancelled && looks) && done < steps.len() && step
                    == steps[done as int],
                Ok(None) => done >= steps.len(),
            }
        }),
{
    let steps: Vec<Step> = all_steps(plan, pinned);
    if done >= steps.len() {
        return Ok(None);
    }
    if done > 0 {
        let looks: bool = match steps[done - 1] {
            Step::Build(_) | Step::Criterion(_) => true,
            _ => false,
        };
        if looks {
            if let Err(e) = check_cancelled(cancelled) {
                return Err(e);
            }
        }
    }
    Ok(Some(steps[done]))
}

/// Whether a step refuses revisions or a platform.
pub open spec fn refuses(step: Step) -> bool {
    step is CheckRequest || step is CheckPlatform || step is CheckRevisions
        || step is CheckManifest
}

/// Whether a step makes a core ready.
pub open spec fn readies(step: Step) -> bool {
    step is IsolateCore || step is SetGovernor
}

/// Whether a step measures.
pub open spec fn measures(step: Step) -> bool {
    step is Interleave || step is Criterion
}

/// Whether a step changes anything outside of git's objects.
pub open spec fn changes(step: Step) -> bool {
    step is MakeCacheDir || step is SweepWorktrees || readies(step) || step is MakeWorktrees
        || step is Build || measures(step)
}

proof fn lemma_steps_at(plan: Plan, pinned: Option<u32>, i: int)
    requires
        0 <= i < steps_of(plan, pinned).len(),
    ensures
        first_steps().len() == 14,
        core_steps(plan, pinned).len() <= 3,
        ({
            let step = steps_of(plan, pinned)[i];
            let n = 14 + core_steps(plan, pinned).len();
            &&& i < 14 ==> step == first_steps()[i]
            &&& 14 <= i < n ==> step == core_steps(plan, pinned)[i - 14]
            &&& n <= i ==> step == last_steps(plan.binary)[i - n]
            &&& refuses(step) ==> i < 11
            &&& changes(step) ==> 11 <= i
            &&& readies(step) ==> 14 <= i < n
            &&& step is Build <==> i == n + 2 || i == n + 3
            &&& measures(step) ==> n + 4 <= i < steps_of(plan, pinned).len() - 1
            &&& step is Report <==> i == steps_of(plan, pinned).len() - 1
        }),
{
    let core = core_steps(plan, pinned);
    assert(core.len() > 0 ==> core[0] is CheckCore || readies(core[0]) || core[0] is SkipIsolation
        || core[0] is SkipGovernor);
    assert(core.len() > 1 ==> readies(core[1]) || core[1] is SkipGovernor);
    assert(core.len() > 2 ==> readies(core[2]));
}

/// The refusals come before anything is changed: no cache directory, worktree,
/// isolated core or governor is there when a comparison is refused.
pub proof fn law_refusals_come_first(plan: Plan, pinned: Option<u32>, i: int, j: int)
    requires
        0 <= i < steps_of(plan, pinned).len(),
        0 <= j < steps_of(plan, pinned).len(),
        refuses(steps_of(plan, pinned)[i]),
        changes(steps_of(plan, pinned)[j]),
    ensures
        i < j,
{
    lemma_steps_at(plan, pinned, i);
    lemma_steps_at(plan, pinned, j);
}

/// Both sides are built before either is measured, and the report comes last.
pub proof fn law_build_before_measure(plan: Plan, pinned: Option<u32>, i: int, j: int)
    requires
        0 <= i < steps_of(plan, pinned).len(),
        0 <= j < steps_of(plan, pinned).len(),
    ensures
        steps_of(plan, pinned)[i] is Build && measures(steps_of(plan, pinned)[j]) ==> i < j,
        steps_of(plan, pinned)[j] is Report ==> i <= j,
        steps_of(plan, pinned).contains(Step::Build(Side::Base)),
        steps_of(plan, pinned).contains(Step::Build(Side::Candidate)),
{
    lemma_steps_at(plan, pinned, i);
    lemma_steps_at(plan, pinned, j);
    let n = 14 + core_steps(plan, pinned).len() as int;
    assert(steps_of(plan, pinned)[n + 2] == Step::Build(Side::Base));
    assert(steps_of(plan, pinned)[n + 3] == Step::Build(Side::Candidate));
}

/// Whether runs are bound to a core changes no step up to the one that tells.
pub proof fn law_pinning_changes_no_earlier_step(plan: Plan, a: Option<u32>, b: Option<u32>)
    ensures
        steps_of(plan, a).take(first_steps().len() as int) == first_steps(),
        steps_of(plan, a).take(first_steps().len() as int) == steps_of(plan, b).take(
            first_steps().len() as int,
        ),
        first_steps().last() is BindToCore,
{
    assert(steps_of(plan, a).take(first_steps().len() as int) =~= first_steps());
    assert(steps_of(plan, b).take(first_steps().len() as int) =~= first_steps());
}

/// What undoes a step.
#[derive(Clone, Copy, Debug, PartialEq, Eq, Structural)]
pub enum Undo {
    /// Leave the worktrees: remove those that do not persist.
    LeaveWorktrees,
    RestoreGovernor(u32),
    EndIsolation(u32),
}

pub open spec fn undo_of(step: Step) -> Option<Undo> {
    match step {
        Step::MakeWorktrees => Some(Undo::LeaveWorktrees),
        Step::SetGovernor(core) => Some(Undo::RestoreGovernor(core)),
        Step::IsolateCore(core) => Some(Undo::EndIsolation(core)),
        _ => None,
    }
}

/// What undoes the steps that were done, the last one first.
pub open spec fn undone(steps: Seq<Step>) -> Seq<Undo>
    decreases steps.len(),
{
    if steps.len() == 0 {
        seq![]
    } else {
        match undo_of(steps.last()) {
            Some(undo) => seq![undo] + undone(steps.drop_last()),
            None => undone(steps.drop_last()),
        }
    }
}

/// What is left to undo when a comparison ends, however it ends, after the steps
/// given.
pub fn to_undo(steps: &[Step]) -> (r: Vec<Undo>)
    ensures
        r@ == undone(steps@),
{
    let mut out: Vec<Undo> = Vec::new();
    let mut i: usize = steps.len();
    assert(steps@.take(i as int) =~= steps@);
    assert(out@ + undone(steps@) =~= undone(steps@));
    while i > 0
        invariant
            i <= steps@.len(),
            out@ + undone(steps@.take(i as int)) == undone(steps@),
        decreases i,
    {
        assert(steps@.take(i as int).drop_last() =~= steps@.take(i - 1));
        assert(steps@.take(i as int).last() == steps@[i - 1]);
        i = i - 1;
        let ghost before = out@;
        let undo: Option<Undo> = match steps[i] {
            Step::MakeWorktrees => Some(Undo::LeaveWorktrees),
            Step::SetGovernor(core) => Some(Undo::RestoreGovernor(core)),
            Step::IsolateCore(core) => Some(Undo::EndIsolation(core)),
            _ => None,
        };
        if let Some(undo) = undo {
            out.push(undo);
            assert(before + (seq![undo] + undone(steps@.take(i as int))) =~= out@ + undone(
                steps@.take(i as int),
            ));
        }
    }
    assert(undone(steps@.take(0)) =~= seq![]);
    assert(out@ =~= undone(steps@));
    out
}

/// Every step that has to be undone is.
pub proof fn law_all_is_undone(steps: Seq<Step>, i: int)
    requires
        0 <= i < steps.len(),
    ensures
        undo_of(steps[i]) matches Some(undo) ==> undone(steps).contains(undo),
    decreases steps.len(),
{
    if let Some(undo) = undo_of(steps[i]) {
        let front = steps.drop_last();
        let rest = undone(front);
        if i == front.len() {
            assert(undone(steps)[0] == undo);
        } else {
            law_all_is_undone(front, i);
            assert(front[i] == steps[i]);
            let k = choose|k: int| 0 <= k < rest.len() && rest[k] == undo;
            if undo_of(steps.last()) is Some {
                assert(undone(steps)[k + 1] == undo);
            } else {
                assert(undone(steps)[k] == undo);
            }
        }
    }
}

/// With `--dedicate-core` and runs bound to a core, that core is isolated and its
/// governor is set before anything is built or measured, as with
/// `--isolate-core --set-governor`; and wherever a comparison ends once it builds
/// or measures, both are undone.
pub proof fn law_dedicated_core(cli: Cli, mode: Mode, core: u32, done: int)
    requires
        cli.dedicate_core,
        ({
            let steps = steps_of(asked_plan(cli, mode), Some(core));
            0 < done <= steps.len() && (steps[done - 1] is Build || measures(steps[done - 1]))
        }),
    ensures
        ({
            let steps = steps_of(asked_plan(cli, mode), Some(core)).take(done);
            &&& steps.contains(Step::IsolateCore(core))
            &&& steps.contains(Step::SetGovernor(core))
            &&& undone(steps).contains(Undo::EndIsolation(core))
            &&& undone(steps).contains(Undo::RestoreGovernor(core))
        }),
        asked_plan(cli, mode) == asked_plan(
            Cli { dedicate_core: false, isolate_core: true, set_governor: true, ..cli },
            mode,
        ),
{
    let plan = asked_plan(cli, mode);
    let all = steps_of(plan, Some(core));
    lemma_steps_at(plan, Some(core), done - 1);
    let steps = all.take(done);
    assert(core_steps(plan, Some(core)) =~= seq![
        Step::CheckCore(core),
        Step::IsolateCore(core),
        Step::SetGovernor(core),
    ]);
    assert(steps[15] == Step::IsolateCore(core));
    assert(steps[16] == Step::SetGovernor(core));
    law_all_is_undone(steps, 15);
    law_all_is_undone(steps, 16);
}

/// The two sides are built in different places: those of fresh worktrees, where
/// the short names of the revisions differ and hold no slash, and those of the
/// persistent ones. `ws_rel` is where the workspace lies in a worktree.
pub proof fn law_sides_are_built_apart(
    work_dir: Seq<char>,
    base: Seq<char>,
    candidate: Seq<char>,
    pid: u32,
    ws_rel: Seq<char>,
)
    requires
        work_dir.len() > 0,
        !base.contains('/'),
        !candidate.contains('/'),
        base != candidate,
        !begins_with(ws_rel, "/"@),
        split_text(ws_rel, '/')[0] != "."@,
    ensures
        ({
            let target = |worktree: Seq<char>| joined(joined(worktree, ws_rel), "target"@);
            &&& !same_place(
                target(joined(work_dir, worktree_name(base, pid))),
                target(joined(work_dir, worktree_name(candidate, pid))),
            )
            &&& !same_place(
                target(joined(work_dir, warm_name(Side::Base))),
                target(joined(work_dir, warm_name(Side::Candidate))),
            )
        }),
{
    law_worktrees_are_apart(work_dir, base, candidate, pid);
    lemma_built_apart(
        joined(work_dir, worktree_name(base, pid)),
        joined(work_dir, worktree_name(candidate, pid)),
        ws_rel,
    );
    reveal_strlit("warm-base");
    reveal_strlit("warm-candidate");
    reveal_strlit(".");
    assert("."@.len() == 1 && "warm-base"@.len() == 9 && "warm-candidate"@.len() == 14);
    assert(!"warm-base"@.contains('/'));
    assert(!"warm-candidate"@.contains('/'));
    law_children_are_apart(work_dir, warm_name(Side::Base), warm_name(Side::Candidate));
    lemma_built_apart(
        joined(work_dir, warm_name(Side::Base)),
        joined(work_dir, warm_name(Side::Candidate)),
        ws_rel,
    );
}

proof fn lemma_built_apart(a: Seq<char>, b: Seq<char>, ws_rel: Seq<char>)
    requires
        a.len() > 0,
        b.len() > 0,
        !same_place(a, b),
        !begins_with(ws_rel, "/"@),
        split_text(ws_rel, '/')[0] != "."@,
    ensures
        !same_place(joined(joined(a, ws_rel), "target"@), joined(joined(b, ws_rel), "target"@)),
{
    law_same_part_keeps_apart(a, b, ws_rel);
    law_target_dirs_are_apart(joined(a, ws_rel), joined(b, ws_rel));
}

// ---------------------------------------------------------------------------
// Pairing criterion's results
// ---------------------------------------------------------------------------

/// A benchmark that both sides have, and where its results stand in their lists.
pub struct Pairing {
    pub id: String,
    pub base: usize,
    pub candidate: usize,
}

pub open spec fn pair_ids(list: Seq<Pairing>) -> Seq<Seq<char>> {
    Seq::new(list.len(), |i: int| list[i].id@)
}

/// Those of a list that are in another list, or those that are not.
pub open spec fn kept(list: Seq<Seq<char>>, other: Seq<Seq<char>>, inside: bool) -> Seq<Seq<char>>
    decreases list.len(),
{
    if list.len() == 0 {
        seq![]
    } else if other.contains(list.last()) == inside {
        kept(list.drop_last(), other, inside).push(list.last())
    } else {
        kept(list.drop_last(), other, inside)
    }
}

/// The last place of a name in a list.
pub open spec fn is_last_place(list: Seq<Seq<char>>, id: Seq<char>, place: int) -> bool {
    &&& 0 <= place < list.len()
    &&& list[place] == id
    &&& forall|j: int| place < j < list.len() ==> list[j] != id
}

fn last_place(list: &[String], id: &str) -> (r: usize)
    requires
        texts(list@).contains(id@),
    ensures
        is_last_place(texts(list@), id@, r as int),
{
    let ghost all = texts(list@);
    let mut i: usize = list.len();
    while i > 0
        invariant
            i <= list@.len(),
            all == texts(list@),
            all.contains(id@),
            forall|j: int| i <= j < list@.len() ==> all[j] != id@,
        decreases i,
    {
        i = i - 1;
        assert(all[i as int] == list@[i as int]@);
        if same_text(&list[i], id) {
            return i;
        }
    }
    proof {
        let k = choose|k: int| 0 <= k < all.len() && all[k] == id@;
        assert(all[k] != id@);
    }
    0
}

fn without(list: &[String], other: &[String]) -> (r: Vec<String>)
    ensures
        texts(r@) == kept(texts(list@), texts(other@), false),
{
    let ghost all = texts(list@);
    let mut out: Vec<String> = Vec::new();
    let n: usize = list.len();
    let mut i: usize = 0;
    assert(texts(out@) =~= kept(all.take(0), texts(other@), false));
    while i < n
        invariant
            n == list@.len(),
            i <= n,
            all == texts(list@),
            texts(out@) == kept(all.take(i as int), texts(other@), false),
        decreases n - i,
    {
        broadcast use lemma_texts_push;

        assert(all.take(i + 1).drop_last() =~= all.take(i as int));
        assert(all.take(i + 1).last() == list@[i as int]@);
        if !has_text(other, &list[i]) {
            out.push(list[i].clone());
        }
        i = i + 1;
    }
    assert(all.take(n as int) =~= all);
    out
}

/// Pairs the results of two sides by name: those that both have, those of the
/// base alone, and those of the candidate alone, each in the order of the names.
/// Where a side has a name twice, the later result counts.
pub fn compare_criterion(base: &[String], candidate: &[String]) -> (r: (
    Vec<Pairing>,
    Vec<String>,
    Vec<String>,
))
    ensures
        ({
            let b = texts(base@);
            let c = texts(candidate@);
            &&& pair_ids(r.0@) == kept(text_set(b), c, true)
            &&& forall|i: int|
                0 <= i < r.0@.len() ==> is_last_place(b, (#[trigger] r.0@[i]).id@, r.0@[i].base as int)
                    && is_last_place(c, r.0@[i].id@, r.0@[i].candidate as int)
            &&& texts(r.1@) == kept(text_set(b), c, false)
            &&& texts(r.2@) == kept(text_set(c), b, false)
        }),
{
    let ids: Vec<String> = set_of(base);
    let ghost b = texts(base@);
    let ghost c = texts(candidate@);
    let ghost all = texts(ids@);
    let mut pairs: Vec<Pairing> = Vec::new();
    let n: usize = ids.len();
    let mut i: usize = 0;
    assert(pair_ids(pairs@) =~= kept(all.take(0), c, true));
    while i < n
        invariant
            n == ids@.len(),
            i <= n,
            all == texts(ids@),
            all == text_set(b),
            b == texts(base@),
            c == texts(candidate@),
            pair_ids(pairs@) == kept(all.take(i as int), c, true),
            forall|k: int|
                0 <= k < pairs@.len() ==> is_last_place(
                    b,
                    (#[trigger] pairs@[k]).id@,
                    pairs@[k].base as int,
                ) && is_last_place(c, pairs@[k].id@, pairs@[k].candidate as int),
        decreases n - i,
    {
        assert(all.take(i + 1).drop_last() =~= all.take(i as int));
        assert(all.take(i + 1).last() == ids@[i as int]@);
        if has_text(candidate, &ids[i]) {
            proof {
                law_text_set(b);
                assert(all.contains(all[i as int]));
            }
            let ghost before = pairs@;
            pairs.push(
                Pairing {
                    id: ids[i].clone(),
                    base: last_place(base, &ids[i]),
                    candidate: last_place(candidate, &ids[i]),
                },
            );
            assert(pair_ids(pairs@) =~= pair_ids(before).push(ids@[i as int]@));
        }
        i = i + 1;
    }
    assert(all.take(n as int) =~= all);
    (pairs, without(&ids, candidate), without(&set_of(candidate), base))
}

proof fn lemma_kept(list: Seq<Seq<char>>, other: Seq<Seq<char>>, inside: bool)
    ensures
        forall|x: Seq<char>| #[trigger]
            kept(list, other, inside).contains(x) <==> list.contains(x) && other.contains(x)
                == inside,
    decreases list.len(),
{
    let out = kept(list, other, inside);
    if list.len() > 0 {
        let front = list.drop_last();
        let before = kept(front, other, inside);
        lemma_kept(front, other, inside);
        assert forall|x: Seq<char>| #[trigger] out.contains(x) <==> list.contains(x)
            && other.contains(x) == inside by {
            if out.contains(x) {
                let k = choose|k: int| 0 <= k < out.len() && out[k] == x;
                if k < before.len() {
                    assert(before[k] == x);
                    assert(before.contains(x));
                    let m = choose|m: int| 0 <= m < front.len() && front[m] == x;
                    assert(list[m] == x);
                } else {
                    assert(list[list.len() - 1] == x);
                }
            }
            if list.contains(x) && other.contains(x) == inside {
                let m = choose|m: int| 0 <= m < list.len() && list[m] == x;
                if m < front.len() {
                    assert(front[m] == x);
                    assert(before.contains(x));
                    let k = choose|k: int| 0 <= k < before.len() && before[k] == x;
                    assert(out[k] == x);
                } else {
                    assert(out[out.len() - 1] == x);
                }
            }
        }
    }
}

proof fn lemma_kept_ascends(list: Seq<Seq<char>>, other: Seq<Seq<char>>, inside: bool)
    requires
        ascending_texts(list),
    ensures
        ascending_texts(kept(list, other, inside)),
    decreases list.len(),
{
    let out = kept(list, other, inside);
    if list.len() > 0 {
        let front = list.drop_last();
        let before = kept(front, other, inside);
        lemma_kept_ascends(front, other, inside);
        lemma_kept(front, other, inside);
        assert forall|i: int, j: int| 0 <= i < j < out.len() implies text_before(
            out[i],
            out[j],
        ) by {
            if j == before.len() {
                assert(before[i] == out[i]);
                assert(before.contains(before[i]));
                let m = choose|m: int| 0 <= m < front.len() && front[m] == before[i];
                assert(text_before(list[m], list[list.len() - 1]));
            } else {
                assert(out[i] == before[i] && out[j] == before[j]);
            }
        }
    }
}

/// Every name of either side is paired or reported for its side alone, and never
/// both; no name comes up that neither side has.
pub proof fn law_pairing_is_a_partition(
    base: Seq<Seq<char>>,
    candidate: Seq<Seq<char>>,
    id: Seq<char>,
)
    ensures
        ({
            let both = kept(text_set(base), candidate, true);
            let only_base = kept(text_set(base), candidate, false);
            let only_candidate = kept(text_set(candidate), base, false);
            &&& both.contains(id) <==> base.contains(id) && candidate.contains(id)
            &&& only_base.contains(id) <==> base.contains(id) && !candidate.contains(id)
            &&& only_candidate.contains(id) <==> candidate.contains(id) && !base.contains(id)
        }),
{
    law_text_set(base);
    law_text_set(candidate);
    lemma_kept(text_set(base), candidate, true);
    lemma_kept(text_set(base), candidate, false);
    lemma_kept(text_set(candidate), base, false);
}

/// The three lists are ascending, so that no name comes twice; and with the sides
/// exchanged the same names are paired.
pub proof fn law_pairing_is_ordered(base: Seq<Seq<char>>, candidate: Seq<Seq<char>>)
    ensures
        ascending_texts(kept(text_set(base), candidate, true)),
        ascending_texts(kept(text_set(base), candidate, false)),
        ascending_texts(kept(text_set(candidate), base, false)),
        kept(text_set(base), candidate, true) == kept(text_set(candidate), base, true),
{
    law_text_set(base);
    law_text_set(candidate);
    lemma_kept_ascends(text_set(base), candidate, true);
    lemma_kept_ascends(text_set(base), candidate, false);
    lemma_kept_ascends(text_set(candidate), base, false);
    lemma_kept_ascends(text_set(candidate), base, true);
    lemma_kept(text_set(base), candidate, true);
    lemma_kept(text_set(candidate), base, true);
    law_ascending_texts_unique(
        kept(text_set(base), candidate, true),
        kept(text_set(candidate), base, true),
    );
}

/// A comparison does these things, in this order. What makes a core ready is done only
/// where it is asked for, `--dedicate-core` asking for both; where it is asked for and
/// runs are bound to no core, that is said in its place.
pub proof fn law_comparison_goes_in_order(cli: Cli, mode: Mode, pinned: Option<u32>)
    ensures
        steps_of(asked_plan(cli, mode), pinned) == seq![
            Step::CheckRequest,
            Step::CheckPlatform,
            Step::WatchInterrupts,
            Step::FindRepository,
            Step::LoadWorkspace,
            Step::LookForChanges,
            Step::Resolve(Side::Base),
            Step::Resolve(Side::Candidate),
            Step::CheckRevisions,
            Step::CheckManifest(Side::Base),
            Step::CheckManifest(Side::Candidate),
            Step::MakeCacheDir,
            Step::SweepWorktrees,
            Step::BindToCore,
        ] + (if pinned is Some {
            seq![Step::CheckCore(pinned->0)]
        } else {
            seq![]
        }) + (if !cli.isolate_core && !cli.dedicate_core {
            seq![]
        } else if pinned is Some {
            seq![Step::IsolateCore(pinned->0)]
        } else {
            seq![Step::SkipIsolation]
        }) + (if !cli.set_governor && !cli.dedicate_core {
            seq![]
        } else if pinned is Some {
            seq![Step::SetGovernor(pinned->0)]
        } else {
            seq![Step::SkipGovernor]
        }) + seq![
            Step::WarnAboutGovernors,
            Step::MakeWorktrees,
            Step::Build(Side::Base),
            Step::Build(Side::Candidate),
        ] + (match mode {
            Mode::Binary { .. } => seq![Step::Interleave],
            Mode::Criterion { .. } => seq![
                Step::Criterion(Side::Base),
                Step::Criterion(Side::Candidate),
            ],
        }) + seq![Step::Report],
{
    let plan = asked_plan(cli, mode);
    let binary = mode is Binary;
    let build = seq![
        Step::WarnAboutGovernors,
        Step::MakeWorktrees,
        Step::Build(Side::Base),
        Step::Build(Side::Candidate),
    ];
    let measure = match mode {
        Mode::Binary { .. } => seq![Step::Interleave],
        Mode::Criterion { .. } => seq![
            Step::Criterion(Side::Base),
            Step::Criterion(Side::Candidate),
        ],
    };
    assert(last_steps(binary) =~= build + measure + seq![Step::Report]);
}

/// What is undone are the worktrees, the governor and the isolation of the steps that
/// were done, the last one first, and nothing else.
pub proof fn law_undone_in_reverse(steps: Seq<Step>)
    ensures
        undone(steps) == steps.reverse().filter_map(
            |step: Step|
                match step {
                    Step::MakeWorktrees => Some(Undo::LeaveWorktrees),
                    Step::SetGovernor(core) => Some(Undo::RestoreGovernor(core)),
                    Step::IsolateCore(core) => Some(Undo::EndIsolation(core)),
                    _ => None,
                },
        ),
    decreases steps.len(),
{
    let undo = |step: Step|
        match step {
            Step::MakeWorktrees => Some(Undo::LeaveWorktrees),
            Step::SetGovernor(core) => Some(Undo::RestoreGovernor(core)),
            Step::IsolateCore(core) => Some(Undo::EndIsolation(core)),
            _ => None,
        };
    if steps.len() > 0 {
        let front = steps.drop_last();
        law_undone_in_reverse(front);
        assert(steps.reverse() =~= seq![steps.last()] + front.reverse());
        lemma_first_undo(steps.last(), front.reverse());
    } else {
        assert(undone(steps) =~= steps.reverse().filter_map(undo));
    }
}

proof fn lemma_first_undo(first: Step, rest: Seq<Step>)
    ensures
        ({
            let undo = |step: Step|
                match step {
                    Step::MakeWorktrees => Some(Undo::LeaveWorktrees),
                    Step::SetGovernor(core) => Some(Undo::RestoreGovernor(core)),
                    Step::IsolateCore(core) => Some(Undo::EndIsolation(core)),
                    _ => None,
                };
            (seq![first] + rest).filter_map(undo) == (match undo(first) {
                Some(u) => seq![u],
                None => seq![],
            }) + rest.filter_map(undo)
        }),
    decreases rest.len(),
{
    let undo = |step: Step|
        match step {
            Step::MakeWorktrees => Some(Undo::LeaveWorktrees),
            Step::SetGovernor(core) => Some(Undo::RestoreGovernor(core)),
            Step::IsolateCore(core) => Some(Undo::EndIsolation(core)),
            _ => None,
        };
    let all = seq![first] + rest;
    let head = match undo(first) {
        Some(u) => seq![u],
        None => seq![],
    };
    if rest.len() > 0 {
        let front = rest.drop_last();
        lemma_first_undo(first, front);
        assert(all.drop_last() =~= seq![first] + front);
        assert(all.last() == rest.last());
        assert(all.filter_map(undo) =~= head + rest.filter_map(undo));
    } else {
        assert(all.drop_last() =~= Seq::<Step>::empty());
        assert(all.last() == first);
        assert(all.drop_last().filter_map(undo) =~= seq![]);
        assert(all.filter_map(undo) =~= head + rest.filter_map(undo));
    }
}

/// Names are paired and told apart by whether the other side has them, in the order of
/// the list that they are taken from.
pub proof fn law_kept_by_membership(list: Seq<Seq<char>>, other: Seq<Seq<char>>)
    ensures
        kept(list, other, true) == list.filter(|id: Seq<char>| other.contains(id)),
        kept(list, other, false) == list.filter(|id: Seq<char>| !other.contains(id)),
    decreases list.len(),
{
    reveal(Seq::filter);
    if list.len() > 0 {
        law_kept_by_membership(list.drop_last(), other);
    } else {
        assert(kept(list, other, true) =~= list);
        assert(kept(list, other, false) =~= list);
    }
}

/// What is given counts, and what is not has its default; each side has a persistent
/// worktree of its own; and the hint on an inferred package names it, the option and
/// the target.
pub proof fn law_names_of_a_comparison(
    given: String,
    otherwise: Seq<char>,
    package: Seq<char>,
    option: Seq<char>,
    target: Seq<char>,
)
    ensures
        given_or(Some(given), otherwise) == given@,
        given_or(None, otherwise) == otherwise,
        warm_name(Side::Base) == "warm-base"@,
        warm_name(Side::Candidate) == "warm-candidate"@,
        hint_text(package, option, target) == "package '"@ + package + "' was inferred from "@
            + option + " '"@ + target
            + "' (working-tree metadata); if it is wrong for this revision, pass -p <package> explicitly"@,
{
}

/// The user's interruption is looked for behind every build and every benchmark of
/// criterion, and behind no other step.
pub proof fn law_what_can_be_interrupted(step: Step)
    ensures
        interruptible(step) <==> step == Step::Build(Side::Base) || step == Step::Build(
            Side::Candidate,
        ) || step == Step::Criterion(Side::Base) || step == Step::Criterion(Side::Candidate),
{
}

} // verus!
