use cargo_bench_compare::clean::{
    cache_list_lines, clean_dir_inner, format_size, noted_repo, registered_worktrees, remove_args,
    removed_line, repo_label, run, CleanStep,
};
use cargo_bench_compare::cli::MetricSource;
use cargo_bench_compare::criterion::{baseline_label, collect, results_root, walk};
use cargo_bench_compare::git::ResolvedRev;
use cargo_bench_compare::report::{
    metric_label, print_human, report_table, verdict_text, HumanReport, ResultLine,
};
use cargo_bench_compare::stats::Verdict;

fn strings(list: &[&str]) -> Vec<String> {
    list.iter().map(|s| (*s).to_owned()).collect()
}

#[test]
fn cache_list_aligns_columns_without_tabs() {
    let rows = vec![
        ("0.0 MiB".to_owned(), "/short".to_owned(), "-".to_owned()),
        (
            "395.9 MiB".to_owned(),
            "/much/longer/cache/path".to_owned(),
            "/repo".to_owned(),
        ),
    ];

    let lines = cache_list_lines(&rows);

    assert_eq!(
        lines,
        [
            "     SIZE  CACHE                    REPO",
            "  0.0 MiB  /short                   -",
            "395.9 MiB  /much/longer/cache/path  /repo",
        ]
    );
    assert!(lines.iter().all(|line| !line.contains('\t')));
}

#[test]
fn cache_list_aligns_other_scripts() {
    let rows = vec![
        ("1.0 MiB".to_owned(), "/é/ü".to_owned(), "/r".to_owned()),
        ("10.0 GiB".to_owned(), "/c".to_owned(), "/s".to_owned()),
    ];
    let lines = cache_list_lines(&rows);
    assert_eq!(lines[1], " 1.0 MiB  /é/ü    /r");
    assert_eq!(lines[2], "10.0 GiB  /c      /s");
    assert_eq!(cache_list_lines(&[]), ["SIZE  CACHE  REPO"]);
    assert_eq!(repo_label(Some(" /repo\n")), "/repo");
    assert_eq!(repo_label(Some("\n")), "-");
    assert_eq!(repo_label(None), "-");
}

fn float_size(bytes: u64) -> String {
    let mib = bytes as f64 / 1024.0 / 1024.0;
    if mib >= 1024.0 {
        format!("{:.1} GiB", mib / 1024.0)
    } else {
        format!("{mib:.1} MiB")
    }
}

#[test]
fn sizes_have_one_decimal() {
    assert_eq!(format_size(0), "0.0 MiB");
    assert_eq!(format_size(1024 * 1024), "1.0 MiB");
    assert_eq!(format_size(262_144), "0.2 MiB");
    assert_eq!(format_size(786_432), "0.8 MiB");
    assert_eq!(format_size(1_073_741_823), "1024.0 MiB");
    assert_eq!(format_size(1_073_741_824), "1.0 GiB");
    let mut value: u64 = 1;
    for i in 0..200_000_u64 {
        value = value.wrapping_mul(6_364_136_223_846_793_005).wrapping_add(1_442_695_040_888_963_407);
        let bytes = value >> (i % 64);
        assert_eq!(format_size(bytes), float_size(bytes));
    }
    for k in 0..64 {
        for near in -2_i64..=2 {
            let bytes = (1_u64 << k).wrapping_add(near as u64);
            assert_eq!(format_size(bytes), float_size(bytes));
            let tie = (bytes >> 19).wrapping_mul(1 << 18);
            assert_eq!(format_size(tie), float_size(tie));
        }
    }
    assert_eq!(format_size(u64::MAX), float_size(u64::MAX));
    let near_tie = (1_u64 << 60) + (1_u64 << 28) + 1;
    assert_eq!(format_size(near_tie), float_size(near_tie));
}

#[test]
fn cleaning_measures_before_it_removes() {
    let steps = clean_dir_inner("/cache/x", false, Some("/repo")).unwrap();
    assert_eq!(steps.len(), 4);
    assert!(matches!(steps[0], CleanStep::Measure));
    assert!(matches!(&steps[1], CleanStep::RemoveWorktrees(args)
        if args.join(" ") == "-C /repo worktree list --porcelain"));
    assert!(matches!(steps[2], CleanStep::RemoveDir));
    assert!(matches!(&steps[3], CleanStep::Prune(args) if args.join(" ") == "-C /repo worktree prune"));
    let steps = clean_dir_inner("/cache/x", false, None).unwrap();
    assert!(matches!(steps[..], [CleanStep::Measure, CleanStep::RemoveDir]));
    assert_eq!(
        clean_dir_inner("/cache/x", true, None).err().unwrap(),
        "another cargo-bench-compare run is active on /cache/x; wait for it, or remove /cache/x/warm.lock if the pid is wrong"
    );
    assert_eq!(noted_repo("/repo\n"), "/repo");
    assert_eq!(removed_line("/cache/x", 3 * 1024 * 1024), "removed /cache/x (3.0 MiB freed)");
    assert_eq!(run("/cache/x", true).unwrap(), "/cache/x");
    assert_eq!(run("/cache/x", false).unwrap_err(), "nothing cached for this repo");
}

#[test]
fn only_worktrees_in_the_directory_are_removed() {
    assert_eq!(
        registered_worktrees(
            "worktree /repo\n\nworktree /cache/x/warm-base\nHEAD a\nworktree /cache/xy/b\nworktree /cache/x\n",
            "/cache/x"
        ),
        ["/cache/x/warm-base", "/cache/x"]
    );
    assert_eq!(
        remove_args("/repo", "/cache/x/wt").join(" "),
        "-C /repo worktree remove --force /cache/x/wt"
    );
}

#[test]
fn criterion_results_are_found_by_name() {
    assert_eq!(results_root("/t"), "/t/criterion");
    assert_eq!(baseline_label("abc"), "bcmp-abc");
    let visit = walk("/t/criterion", "/t/criterion/fib/bcmp-abc", "bcmp-abc");
    assert!(!visit.skip && visit.named);
    assert_eq!(visit.estimates, "/t/criterion/fib/bcmp-abc/estimates.json");
    assert_eq!(visit.benchmark, "/t/criterion/fib/bcmp-abc/benchmark.json");
    assert_eq!(visit.fallback_id, "fib");
    assert!(walk("/t/criterion", "/t/criterion/report", "report").skip);
    assert!(!walk("/t/criterion", "/t/criterion/x/report", "bcmp-abc").skip);
    assert!(!walk("/t/criterion", "/t/criterion/fib/new", "bcmp-abc").named);
    assert_eq!(walk("/", "/bcmp-abc", "bcmp-abc").fallback_id, "bcmp-abc");

    let visit = walk("/t/criterion", "/t/criterion/fib/bcmp-abc", "bcmp-abc");
    assert!(visit.holds_results(true));
    assert!(!visit.holds_results(false));
    assert_eq!(visit.result_id(true, true, Some("group/fib")).as_deref(), Some("group/fib"));
    assert_eq!(visit.result_id(true, false, None).as_deref(), Some("fib"));
    assert_eq!(visit.result_id(false, true, Some("group/fib")), None);
    let other = walk("/t/criterion", "/t/criterion/fib/new", "bcmp-abc");
    assert_eq!(other.result_id(true, true, Some("group/fib")), None);
    let report = walk("/t/criterion", "/t/criterion/report", "report");
    assert_eq!(report.result_id(true, false, None), None);
}

#[test]
fn criterion_results_are_ordered_by_name() {
    let ids = strings(&["b", "a/2", "b", "a", "é", "a/10"]);
    assert_eq!(collect("/t", "bcmp-abc", &ids).unwrap(), vec![3, 5, 1, 0, 2, 4]);
    assert_eq!(
        collect("/t", "bcmp-abc", &[]).unwrap_err(),
        "no criterion results found under /t/criterion for baseline 'bcmp-abc' — did the bench run?"
    );
}

fn sample_results() -> Vec<[String; 5]> {
    vec![
        ["benchmark", "base", "rev", "Δ", "verdict"].map(str::to_owned),
        [
            "a-benchmark-with-a-long-name",
            "1.0 ± 0.1",
            "1.1 ± 0.2",
            "+10.0%",
            "improved",
        ]
        .map(str::to_owned),
    ]
}

#[test]
fn report_table_stacks_results_as_labelled_sections() {
    let settings = vec![("package", "rmc-minimal".to_owned())];
    let mut results = sample_results();
    results.push(["fib_20", "2.0 ± 0.1", "1.9 ± 0.2", "-5.0%", "improved"].map(str::to_owned));
    let table = report_table(&settings, &results);
    let lines = table.lines().collect::<Vec<_>>();
    // top + 1 setting + 2 benchmarks of (separator + 5 rows) + bottom
    assert_eq!(lines.len(), 15);
    assert_eq!(lines.iter().filter(|l| l.starts_with('├')).count(), 2);
    assert!(lines
        .iter()
        .any(|l| l.starts_with("│ benchmark") && l.contains("fib_20")));
    assert!(lines
        .iter()
        .any(|l| l.starts_with("│ Δ") && l.contains("-5.0%")));
    let width = lines[0].chars().count();
    for line in &lines {
        assert_eq!(line.chars().count(), width, "misaligned row: {line}");
    }
}

#[test]
fn report_table_is_exact() {
    let settings = vec![("k", "value".to_owned()), ("key2", "v".to_owned())];
    assert_eq!(
        report_table(&settings, &sample_results()[..1]),
        "┌──────┬───────┐\n│ k    │ value │\n│ key2 │ v     │\n└──────┴───────┘\n"
    );
}

#[test]
fn the_report_holds_settings_results_and_leftovers() {
    let rev = |spec: &str, short: &str| ResolvedRev {
        spec: spec.to_owned(),
        sha: short.to_owned(),
        short: short.to_owned(),
    };
    let (base, candidate) = (rev("main", "abc"), rev("worktree", "def"));
    let results = [ResultLine {
        id: "fib".to_owned(),
        base: "1 s".to_owned(),
        candidate: "2 s".to_owned(),
        delta: "+100.0%".to_owned(),
        verdict: Verdict::Regressed,
    }];
    let only = strings(&["x", "y"]);
    let mut report = HumanReport {
        package: "p",
        profile: "dev",
        mode_label: "binary 'b'".to_owned(),
        metric_label: Some("m".to_owned()),
        reps_label: "5".to_owned(),
        pinned_label: "disabled".to_owned(),
        governor: Some("performance".to_owned()),
        governor_set_by_tool: true,
        base: &base,
        candidate: &candidate,
        build: "warm",
        results: &results,
        only_in_base: &only,
        only_in_candidate: &[],
    };
    let text = print_human(&report);
    let lines: Vec<&str> = text.lines().collect();
    let keys: Vec<&str> = lines
        .iter()
        .filter(|line| line.starts_with('│'))
        .map(|line| line.split('│').nth(1).unwrap().trim())
        .collect();
    assert_eq!(
        keys,
        [
            "package", "mode", "profile", "reps", "metric", "pinning", "governor", "build",
            "RUSTFLAGS", "base", "rev", "benchmark", "base", "rev", "Δ", "verdict"
        ]
    );
    assert!(text.contains("│ performance (set for this run)"));
    assert!(text.contains("│ main (abc)"));
    assert!(text.contains("│ worktree (def)"));
    assert!(text.contains("│ REGRESSED"));
    assert!(text.ends_with("┘\nonly in base: x, y\n"));
    report.metric_label = None;
    report.governor = None;
    report.only_in_base = &[];
    report.only_in_candidate = &only;
    let text = print_human(&report);
    assert!(!text.contains("│ metric"));
    assert!(!text.contains("│ governor"));
    assert!(text.ends_with("┘\nonly in candidate: x, y\n"));
}

#[test]
fn words_of_verdicts_and_metrics() {
    assert_eq!(verdict_text(&Verdict::Improved), "improved");
    assert_eq!(verdict_text(&Verdict::NoChange), "no change (within noise)");
    assert_eq!(metric_label(&MetricSource::WallClock), "wall-clock (s, lower is better)");
    let regex = |higher_is_better: bool| MetricSource::Regex {
        raw: "x(.)".to_owned(),
        pattern: regex::Regex::new("x(.)").unwrap(),
        higher_is_better,
    };
    assert_eq!(metric_label(&regex(true)), "regex 'x(.)' (higher is better)");
    assert_eq!(metric_label(&regex(false)), "regex 'x(.)' (lower is better)");
}
