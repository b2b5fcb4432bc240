use cargo_bench_compare::cli::{
    arguments_to_parse, require_group, CacheArgs, CacheSub, CandidateKind, CleanArgs, Cli,
    CompletionShell, CompletionsArgs, MetricDir, MetricSource, Mode, Sub,
};
use cargo_bench_compare::git::ResolvedRev;
use cargo_bench_compare::governor::{GovernorGuard, SetOutcome};
use cargo_bench_compare::progress::Side;
use cargo_bench_compare::session::{
    apply_infer_hint, args_label, build_mode, check_cancelled, check_platform, check_revisions,
    compare_criterion, dirty_warning, governor_notice, infer_hint, mode_label, mode_name,
    next_step, pinned_core, pinned_label, plan_of, repetitions, repo_note, reps_label,
    reps_warning, requested, resolve_work_dir, skip_notice, skipped, task_of, to_undo,
    warm_worktree, worktrees, Plan, Step, Task, Undo, Worktrees,
};

fn strings(list: &[&str]) -> Vec<String> {
    list.iter().map(|s| (*s).to_owned()).collect()
}

fn some(s: &str) -> Option<String> {
    Some(s.to_owned())
}

fn binary(bin: &str, args: &[&str]) -> Mode {
    Mode::Binary {
        bin: bin.to_owned(),
        args: strings(args),
        metric: MetricSource::WallClock,
        progress: None,
    }
}

fn criterion(bench: &str) -> Mode {
    Mode::Criterion { bench: bench.to_owned() }
}

#[test]
fn cargo_passes_the_name_of_the_subcommand() {
    assert_eq!(
        arguments_to_parse(strings(&["cargo-bench-compare", "bench-compare", "--bin", "x"])),
        ["cargo-bench-compare", "--bin", "x"]
    );
    assert_eq!(
        arguments_to_parse(strings(&["x", "--bin", "bench-compare"])),
        ["x", "--bin", "bench-compare"]
    );
    assert_eq!(arguments_to_parse(strings(&["bench-compare"])), ["bench-compare"]);
    assert_eq!(arguments_to_parse(Vec::new()), Vec::<String>::new());
}

#[test]
fn dedicating_a_core_is_a_shorthand() {
    let cli = Cli { dedicate_core: true, bin: some("x"), ..Cli::default() };
    assert!(cli.dedicate_core);
    assert!(!cli.isolate_core);
    assert!(!cli.set_governor);
    assert!(cli.wants_isolation());
    assert!(cli.wants_governor());
    let cli = Cli { set_governor: true, ..Cli::default() };
    assert!(!cli.wants_isolation());
    assert!(cli.wants_governor());
    assert_eq!(Cli::default().profile, "release-tuned");
}

#[test]
fn a_bench_makes_it_criterion() {
    let cli = Cli { bench: some("hot"), metric_regex: some("("), ..Cli::default() };
    assert!(matches!(cli.mode(), Ok(Mode::Criterion { bench }) if bench == "hot"));
    assert_eq!(
        Cli::default().mode().err().unwrap(),
        "exactly one of --bench/--bin is required"
    );
}

#[test]
fn a_bin_comes_with_arguments_and_regexes() {
    let cli = Cli {
        bin: some("tool"),
        args: some(" full\t100 "),
        trailing_args: strings(&["a b", "c"]),
        metric_regex: some(r"m=(\d+)"),
        metric_dir: MetricDir::Lower,
        progress_regex: some(r"(\d+)%"),
        ..Cli::default()
    };
    let Ok(Mode::Binary { bin, args, metric, progress }) = cli.mode() else {
        panic!("expected a program");
    };
    assert_eq!(bin, "tool");
    assert_eq!(args, ["full", "100", "a b", "c"]);
    assert!(matches!(&metric, MetricSource::Regex { raw, pattern, higher_is_better: false }
        if raw == r"m=(\d+)" && pattern.as_str() == r"m=(\d+)"));
    assert_eq!(progress.unwrap().as_str(), r"(\d+)%");

    let cli = Cli { bin: some("tool"), metric_regex: some("(x)"), ..Cli::default() };
    assert!(matches!(
        cli.mode(),
        Ok(Mode::Binary { metric: MetricSource::Regex { higher_is_better: true, .. }, progress: None, .. })
    ));
    let cli = Cli { bin: some("tool"), ..Cli::default() };
    assert!(matches!(cli.mode(), Ok(Mode::Binary { metric: MetricSource::WallClock, .. })));
}

#[test]
fn regexes_need_a_group() {
    let cli = Cli { bin: some("t"), metric_regex: some("x"), progress_regex: some("("), ..Cli::default() };
    assert_eq!(cli.mode().err().unwrap(), "--metric-regex must contain a capture group");
    let cli = Cli { bin: some("t"), progress_regex: some("(?:x)"), ..Cli::default() };
    assert_eq!(cli.mode().err().unwrap(), "--progress-regex must contain a capture group");
    let cli = Cli { bin: some("t"), metric_regex: some("("), ..Cli::default() };
    assert!(cli.mode().err().unwrap().contains("unclosed group"));
    assert!(require_group(2, "--x").is_ok());
    assert_eq!(require_group(1, "--x").unwrap_err(), "--x must contain a capture group");
}

#[test]
fn subcommands_are_told_apart() {
    assert_eq!(task_of(&None), Task::Compare);
    assert_eq!(
        task_of(&Some(Sub::Cache(CacheArgs { command: CacheSub::List }))),
        Task::CacheList
    );
    assert_eq!(
        task_of(&Some(Sub::Cache(CacheArgs {
            command: CacheSub::Clean(CleanArgs { all: true })
        }))),
        Task::CacheClean { all: true }
    );
    assert_eq!(
        task_of(&Some(Sub::Candidates { kind: CandidateKind::Revs })),
        Task::Candidates(CandidateKind::Revs)
    );
    assert_eq!(
        task_of(&Some(Sub::Completions(CompletionsArgs {
            shell: CompletionShell::Zsh,
            install: false
        }))),
        Task::Completions { shell: CompletionShell::Zsh, install: false }
    );
}

#[test]
fn revisions_have_defaults() {
    let request = requested(&None, &None).ok().unwrap();
    assert_eq!((request.candidate.as_str(), request.base.as_str()), (":worktree", ":merge-base"));
    let request = requested(&some("v2"), &some("v1")).ok().unwrap();
    assert_eq!((request.candidate.as_str(), request.base.as_str()), ("v2", "v1"));
    for rev in [None, some(":worktree")] {
        assert_eq!(
            requested(&rev, &some(":worktree")).err().unwrap(),
            "candidate and base are both ':worktree'; nothing to compare"
        );
    }
}

fn rev(spec: &str, sha: &str) -> ResolvedRev {
    ResolvedRev { spec: spec.to_owned(), sha: sha.to_owned(), short: sha.to_owned() }
}

#[test]
fn equal_revisions_are_refused() {
    assert!(check_revisions(&rev("a", "1"), &rev("b", "2"), true).is_ok());
    assert_eq!(
        check_revisions(&rev("a", "1"), &rev("b", "1"), false).unwrap_err(),
        "base and candidate both resolve to 1; nothing to compare"
    );
    assert_eq!(
        check_revisions(&rev("a", "1"), &rev("b", "1"), true).unwrap_err(),
        "base and candidate both resolve to 1; nothing to compare (working tree is clean and HEAD is already the merge base; commit something or pass --rev/--rev-base)"
    );
    assert!(check_platform(true, true).is_ok());
    assert!(check_platform(false, false).is_ok());
    assert_eq!(
        check_platform(true, false).unwrap_err(),
        "--set-governor is only supported on Linux"
    );
}

#[test]
fn local_changes_in_neither_side_are_worth_a_warning() {
    assert_eq!(
        dirty_warning(true, &rev("a", "1"), &rev("b", "2")),
        Some("warning: working tree is dirty; uncommitted local changes are NOT included in either side")
    );
    assert!(dirty_warning(false, &rev("a", "1"), &rev("b", "2")).is_none());
    assert!(dirty_warning(true, &rev("worktree", "1"), &rev("b", "2")).is_none());
    assert!(dirty_warning(true, &rev("a", "1"), &rev("worktree", "2")).is_none());
}

#[test]
fn the_work_dir_is_found() {
    assert_eq!(resolve_work_dir(Some("/w"), Some("/x"), Some("/h")).unwrap(), "/w");
    assert_eq!(
        resolve_work_dir(None, Some("/x"), Some("/h")).unwrap(),
        "/x/cargo-bench-compare"
    );
    assert_eq!(
        resolve_work_dir(None, None, Some("/h")).unwrap(),
        "/h/.cache/cargo-bench-compare"
    );
    assert_eq!(
        resolve_work_dir(None, None, None).unwrap_err(),
        "HOME is unset and --work-dir was not provided"
    );
    assert_eq!(warm_worktree("/w", Side::Base), "/w/warm-base");
    assert_eq!(warm_worktree("/w", Side::Candidate), "/w/warm-candidate");
    assert_eq!(repo_note("/w", "/repo"), ("/w/repo-path.txt".to_owned(), "/repo\n".to_owned()));
    assert_eq!(worktrees(true, true), Worktrees::Fresh { keep: true });
    assert_eq!(worktrees(false, true), Worktrees::Warm);
}

#[test]
fn build_mode_is_cold_without_both_cached_targets() {
    assert_eq!(build_mode(false, false, false), "cold");
    assert_eq!(build_mode(false, true, false), "cold");
    assert_eq!(build_mode(false, true, true), "warm");
    assert_eq!(build_mode(true, true, true), "cold");
}

#[test]
fn labels() {
    assert_eq!(pinned_core(&strings(&["taskset"]), 3), Some(3));
    assert_eq!(pinned_core(&[], 3), None);
    assert_eq!(pinned_label(Some(3)), "core 3 (taskset)");
    assert_eq!(pinned_label(None), "disabled");
    let (bin, bench) = (binary("tool", &["a", "b"]), criterion("hot"));
    assert_eq!((mode_label(&bin), mode_name(&bin)), ("binary 'tool'".to_owned(), "binary"));
    assert_eq!(
        (mode_label(&bench), mode_name(&bench)),
        ("criterion bench 'hot'".to_owned(), "criterion")
    );
    assert_eq!(repetitions(None), 5);
    assert_eq!(reps_label(&bin, None), "5");
    assert_eq!(reps_label(&bin, Some(12)), "12");
    assert_eq!(reps_label(&bench, Some(12)), "criterion-internal");
    assert!(reps_warning(&bin, Some(1)).is_none());
    assert!(reps_warning(&bench, None).is_none());
    assert_eq!(
        reps_warning(&bench, Some(1)),
        Some("warning: --reps is ignored in criterion mode (criterion samples internally)")
    );
    assert_eq!(args_label(&bin).as_deref(), Some("a b"));
    assert!(args_label(&binary("tool", &[])).is_none());
    assert!(args_label(&bench).is_none());
}

#[test]
fn an_inferred_package_comes_with_a_hint() {
    let hint = infer_hint(false, &binary("tool", &[]), "p").unwrap();
    assert_eq!(
        hint,
        "package 'p' was inferred from --bin 'tool' (working-tree metadata); if it is wrong for this revision, pass -p <package> explicitly"
    );
    assert!(infer_hint(false, &criterion("hot"), "p").unwrap().contains("from --bench 'hot' ("));
    assert!(infer_hint(true, &criterion("hot"), "p").is_none());
    let failed: Result<u8, String> = Err("no".to_owned());
    assert_eq!(apply_infer_hint(failed.clone(), Some("hint")).unwrap_err(), "hint: no");
    assert_eq!(apply_infer_hint(failed, None).unwrap_err(), "no");
    assert_eq!(apply_infer_hint(Ok(7), Some("hint")).unwrap(), 7);
}

#[test]
fn governors_are_noticed() {
    let guard = GovernorGuard {
        sysfs: "/sys".to_owned(),
        core: 2,
        previous: "powersave".to_owned(),
    };
    assert_eq!(
        governor_notice(2, &SetOutcome::Changed(guard)).as_deref(),
        Some("set CPU governor on core 2: powersave -> performance (restored on exit)")
    );
    assert!(governor_notice(2, &SetOutcome::AlreadyPerformance).is_none());
    assert_eq!(
        governor_notice(2, &SetOutcome::Skipped("no".to_owned())).as_deref(),
        Some("warning: --set-governor skipped: no")
    );
}

fn all_steps(plan: Plan, pinned: Option<u32>) -> Vec<Step> {
    let mut steps = Vec::new();
    while let Some(step) = next_step(plan, pinned, steps.len(), false).unwrap() {
        steps.push(step);
    }
    steps
}

const PLAIN: Plan = Plan { binary: true, isolate: false, governor: false };

#[test]
fn both_sides_are_built_before_either_is_measured() {
    let first = [
        Step::CheckRequest,
        Step::CheckPlatform,
        Step::WatchInterrupts,
        Step::FindRepository,
        Step::LoadWorkspace,
        Step::LookForChanges,
        Step::Resolve(Side::Base),
        Step::Resolve(Side::Candidate),
        Step::CheckRevisions,
        Step::CheckManifest(Side::Base),
        Step::CheckManifest(Side::Candidate),
        Step::MakeCacheDir,
        Step::SweepWorktrees,
        Step::BindToCore,
        Step::WarnAboutGovernors,
        Step::MakeWorktrees,
        Step::Build(Side::Base),
        Step::Build(Side::Candidate),
    ];
    let steps = all_steps(PLAIN, None);
    assert_eq!(steps[..18], first);
    assert_eq!(steps[18..], [Step::Interleave, Step::Report]);
    let bench = Plan { binary: false, ..PLAIN };
    let steps = all_steps(bench, None);
    assert_eq!(steps[..18], first);
    assert_eq!(
        steps[18..],
        [Step::Criterion(Side::Base), Step::Criterion(Side::Candidate), Step::Report]
    );
}

#[test]
fn interrupts_are_noticed_after_builds_and_benchmarks() {
    let bench = Plan { binary: false, ..PLAIN };
    for done in 0..17 {
        assert!(next_step(bench, None, done, true).is_ok());
    }
    for done in 17..21 {
        assert_eq!(next_step(bench, None, done, true).unwrap_err(), "interrupted");
    }
    assert!(next_step(bench, None, 21, true).unwrap().is_none());
    assert_eq!(next_step(PLAIN, None, 18, true).unwrap_err(), "interrupted");
    assert_eq!(next_step(PLAIN, None, 19, true), Ok(Some(Step::Report)));
    assert!(check_cancelled(false).is_ok());
    assert_eq!(check_cancelled(true).unwrap_err(), "interrupted");
}

#[test]
fn a_dedicated_core_is_made_ready_and_given_back() {
    let cli = Cli { dedicate_core: true, bin: some("x"), ..Cli::default() };
    let plan = plan_of(&cli, &binary("x", &[]));
    assert_eq!(plan, Plan { binary: true, isolate: true, governor: true });
    let both = Cli { isolate_core: true, set_governor: true, ..Cli::default() };
    assert_eq!(plan_of(&both, &criterion("b")), Plan { binary: false, ..plan });
    assert_eq!(plan_of(&Cli::default(), &binary("x", &[])), PLAIN);

    let steps = all_steps(plan, Some(3));
    assert_eq!(
        steps[13..19],
        [
            Step::BindToCore,
            Step::CheckCore(3),
            Step::IsolateCore(3),
            Step::SetGovernor(3),
            Step::WarnAboutGovernors,
            Step::MakeWorktrees
        ]
    );
    assert_eq!(
        to_undo(&steps),
        [Undo::LeaveWorktrees, Undo::RestoreGovernor(3), Undo::EndIsolation(3)]
    );
    assert_eq!(to_undo(&steps[..17]), [Undo::RestoreGovernor(3), Undo::EndIsolation(3)]);
    assert_eq!(to_undo(&steps[..15]), []);

    let steps = all_steps(plan, None);
    assert_eq!(steps[13..16], [Step::BindToCore, Step::SkipIsolation, Step::SkipGovernor]);
    assert_eq!(to_undo(&steps), [Undo::LeaveWorktrees]);
}

#[test]
fn options_that_need_a_core_say_when_there_is_none() {
    assert_eq!(
        skip_notice("--set-governor", true, None).unwrap(),
        "warning: --set-governor skipped: run is not pinned (taskset unavailable)"
    );
    assert_eq!(
        skip_notice("--isolate-core", true, None).unwrap(),
        "warning: --isolate-core skipped: run is not pinned (taskset unavailable)"
    );
    assert!(skip_notice("--set-governor", false, None).is_none());
    assert!(skip_notice("--set-governor", true, Some(2)).is_none());
    assert_eq!(skipped("--isolate-core", "no sudo"), "warning: --isolate-core skipped: no sudo");
}

#[test]
fn results_are_paired_by_name() {
    let base = strings(&["c", "a", "b", "a"]);
    let candidate = strings(&["d", "b", "a"]);
    let (pairs, only_base, only_candidate) = compare_criterion(&base, &candidate);
    let pairs: Vec<(String, usize, usize)> =
        pairs.into_iter().map(|p| (p.id, p.base, p.candidate)).collect();
    assert_eq!(pairs, vec![("a".to_owned(), 3, 2), ("b".to_owned(), 2, 1)]);
    assert_eq!(only_base, ["c"]);
    assert_eq!(only_candidate, ["d"]);
    let (pairs, only_base, only_candidate) = compare_criterion(&[], &candidate);
    assert!(pairs.is_empty() && only_base.is_empty());
    assert_eq!(only_candidate, ["a", "b", "d"]);
}
