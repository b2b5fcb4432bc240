use cargo_bench_compare::cli::MetricSource;
use cargo_bench_compare::git::CommandReply;
use cargo_bench_compare::progress::{
    compose_line, fmt_duration, mean_for, progress_extent, read_extent, remaining_sides,
    side_for_run, Current, Extent, LineScanner, MeanOf, Screen, Side, Signal,
};
use cargo_bench_compare::runner::{
    child_output, choose_metric, command_with_optional_prefix, criterion_command, criterion_unit,
    extract_regex_metric, last_caps, metric_parse_error, metric_unit, pin_prefix,
    run_binary_interleaved, run_criterion, run_one, BinaryRun, Measured, NextRun, Stream,
};
use cargo_bench_compare::stats::{verdict, Verdict};
use regex::Regex;

fn strings(list: &[&str]) -> Vec<String> {
    list.iter().map(|s| (*s).to_owned()).collect()
}

fn ratio(pattern: &Regex, line: &str) -> Option<(String, String)> {
    match progress_extent(pattern, line)? {
        Extent::Ratio { done, total } => Some((done, total)),
        Extent::Percent(_) => None,
    }
}

fn quotient(pattern: &Regex, line: &str) -> Option<f64> {
    let (done, total) = ratio(pattern, line)?;
    Some(done.parse::<f64>().ok()? / total.parse::<f64>().ok()?)
}

fn percent(pattern: &Regex, line: &str) -> Option<String> {
    match progress_extent(pattern, line)? {
        Extent::Ratio { .. } => None,
        Extent::Percent(text) => Some(text),
    }
}

fn texts(done: &str, total: &str) -> Option<(String, String)> {
    Some((done.to_owned(), total.to_owned()))
}

#[test]
fn progress_fraction_two_groups() {
    let pattern = Regex::new(r"step (\d+)/(\d+)").unwrap();
    assert_eq!(ratio(&pattern, "step 5/20"), texts("5", "20"));
    assert_eq!(quotient(&pattern, "step 5/20"), Some(0.25));
    assert_eq!(ratio(&pattern, "step 5/0"), texts("5", "0"));
}

#[test]
fn progress_fraction_named_groups() {
    let pattern = Regex::new(r"(?P<done>\d+) of (?P<total>\d+)").unwrap();
    assert_eq!(ratio(&pattern, "7 of 10"), texts("7", "10"));
    assert_eq!(quotient(&pattern, "7 of 10"), Some(0.7));
}

#[test]
fn progress_fraction_percent_and_clamp() {
    let pattern = Regex::new(r"(\d+(?:\.\d+)?)%").unwrap();
    assert_eq!(percent(&pattern, "42%").as_deref(), Some("42"));
    assert_eq!(percent(&pattern, "150%").as_deref(), Some("150"));
}

#[test]
fn progress_fraction_unparseable() {
    let pattern = Regex::new(r"step ([a-z]+)/(\d+)").unwrap();
    assert_eq!(ratio(&pattern, "step five/20"), texts("five", "20"));
    assert_eq!(quotient(&pattern, "step five/20"), None);
}

#[test]
fn extents_are_chosen_by_name_then_by_place() {
    let pattern = Regex::new(r"(?<total>\d+) (?<done>\d+)").unwrap();
    assert!(matches!(
        progress_extent(&pattern, "10 7"),
        Some(Extent::Ratio { done, total }) if done == "7" && total == "10"
    ));
    let pattern = Regex::new(r"(?<percent>\d+)%").unwrap();
    assert!(matches!(progress_extent(&pattern, "at 3%"), Some(Extent::Percent(p)) if p == "3"));
    assert!(progress_extent(&pattern, "none").is_none());
    let pattern = Regex::new(r"a(\d)?(\d)?").unwrap();
    assert!(progress_extent(&pattern, "a1").is_none());

    let some = |s: &str| Some(s.to_owned());
    let names = [None, some("done"), some("total"), None];
    let groups = [some("x"), some("1"), None, some("3")];
    assert!(read_extent(&names, &groups).is_none());
    assert!(matches!(
        read_extent(&[None, None, some("percent")], &[some("x"), some("1")]),
        Some(Extent::Percent(p)) if p == "1"
    ));
    assert!(read_extent(&[None], &[some("x")]).is_none());
}

#[test]
fn line_scanner_reassembles_chunks() {
    let mut scanner = LineScanner::default();
    let mut lines = Vec::new();
    lines.extend(scanner.push(b"step 1"));
    lines.extend(scanner.push(b"/10\nstep 2/10\rstep"));
    assert_eq!(lines, ["step 1/10", "step 2/10"]);
    lines.extend(scanner.push(b" 3/10\n"));
    assert_eq!(lines, ["step 1/10", "step 2/10", "step 3/10"]);
}

#[test]
fn line_scanner_discards_overlong_partial() {
    let mut scanner = LineScanner::default();
    let mut lines = Vec::new();
    lines.extend(scanner.push(&vec![b'x'; 64 * 1024 + 1]));
    lines.extend(scanner.push(b"tail\nok\n"));
    assert_eq!(lines, ["ok"]);
}

#[test]
fn line_scanner_keeps_what_is_just_short_enough() {
    let long = vec![b'x'; 64 * 1024];
    let mut scanner = LineScanner::default();
    assert!(scanner.push(&long).is_empty());
    assert_eq!(scanner.push(b"\r\n")[0].len(), 64 * 1024);
    assert_eq!(scanner.finish(), None);
    assert!(scanner.push(b"rest \xff").is_empty());
    assert_eq!(scanner.finish().as_deref(), Some("rest \u{fffd}"));
    assert_eq!(scanner.finish(), None);
}

#[test]
fn line_scanner_does_not_care_for_chunks() {
    let text = "a\n\nbé\rcc\r\nd".as_bytes();
    let mut whole = LineScanner::default();
    let expected = whole.push(text);
    assert_eq!(expected, ["a", "bé", "cc"]);
    for size in 1..text.len() {
        let mut scanner = LineScanner::default();
        let mut lines = Vec::new();
        for chunk in text.chunks(size) {
            lines.extend(scanner.push(chunk));
        }
        assert_eq!(lines, expected);
        assert_eq!(scanner.finish().as_deref(), Some("d"));
    }
}

#[test]
fn fmt_duration_formats() {
    assert_eq!(fmt_duration(4, "4.2s"), "4.2s");
    assert_eq!(fmt_duration(63, "63.0s"), "1m03s");
    assert_eq!(fmt_duration(3723, "3723.0s"), "1h02m");
}

#[test]
fn fmt_duration_boundaries() {
    assert_eq!(fmt_duration(59, "59.9s"), "59.9s");
    assert_eq!(fmt_duration(60, "60.0s"), "1m00s");
    assert_eq!(fmt_duration(3599, "3599.9s"), "59m59s");
    assert_eq!(fmt_duration(3600, "3600.0s"), "1h00m");
    assert_eq!(fmt_duration(360_000, "360000.0s"), "100h00m");
}

#[test]
fn compose_line_variants() {
    assert_eq!(
        compose_line(3, 10, Side::Candidate, None, &fmt_duration(4, "4.2s"), None),
        "run 3/10 · candidate · 4.2s"
    );
    assert_eq!(
        compose_line(
            3,
            10,
            Side::Candidate,
            Some((0.37_f64 * 100.0).floor() as u32),
            &fmt_duration(4, "4.2s"),
            Some(&fmt_duration(41, "41.0s"))
        ),
        "run 3/10 · candidate · 37% · 4.2s · eta ~41.0s"
    );
}

#[test]
fn runs_alternate() {
    assert_eq!(side_for_run(1), Side::Base);
    assert_eq!(side_for_run(2), Side::Candidate);
    assert_eq!(
        remaining_sides(2, 5),
        vec![Side::Base, Side::Candidate, Side::Base]
    );
    assert!(remaining_sides(5, 5).is_empty());
    let mut sides = Vec::new();
    let mut done = 0;
    while let NextRun::Run { run, total, side } = run_binary_interleaved(3, done, false) {
        assert_eq!(total, 6);
        assert_eq!(side, side_for_run(run as u32));
        sides.push(side);
        done += 1;
    }
    assert_eq!(run_binary_interleaved(3, done, false), NextRun::Finished);
    assert_eq!(sides.len(), 6);
    assert_eq!(sides.iter().filter(|side| **side == Side::Base).count(), 3);
    assert!(sides.chunks(2).all(|pair| pair == [Side::Base, Side::Candidate]));
    for done in 0..=6 {
        assert_eq!(run_binary_interleaved(3, done, true), NextRun::Interrupted);
    }
    assert_eq!(run_binary_interleaved(0, 0, true), NextRun::Finished);
}

#[test]
fn means_stand_in_for_each_other() {
    assert_eq!(mean_for(1, 0, Side::Base), MeanOf::OneSide);
    assert_eq!(mean_for(1, 0, Side::Candidate), MeanOf::BothSides);
    assert_eq!(mean_for(0, 2, Side::Candidate), MeanOf::OneSide);
    assert_eq!(mean_for(0, 0, Side::Base), MeanOf::Nothing);
}

#[test]
fn the_screen_follows_the_runs() {
    let run = Current { run: 1, total: 2, side: Side::Base };
    let mut screen = Screen::new();
    let r = screen.render(Signal::Quiet, true);
    assert!(r.paint.is_none() && !r.stop);
    assert!(!screen.render(Signal::Fraction, false).keep_fraction);
    assert_eq!(screen.render(Signal::RunStart(run), false).paint, Some(run));
    let r = screen.render(Signal::Fraction, false);
    assert!(r.keep_fraction && r.paint.is_none());
    assert_eq!(screen.render(Signal::Quiet, true).paint, Some(run));
    let r = screen.render(Signal::RunEnd, true);
    assert_eq!(r.timed, Some(Side::Base));
    assert!(r.paint.is_none());
    assert_eq!(screen.render(Signal::RunEnd, true).timed, None);
    let r = screen.render(Signal::Closed, true);
    assert!(r.stop && r.erase);
    let r = Screen::new().render(Signal::Closed, true);
    assert!(r.stop && !r.erase);
}

#[test]
fn pinning_is_a_prefix() {
    assert_eq!(pin_prefix(3, false, true, true), (strings(&["taskset", "-c", "3"]), None));
    assert_eq!(pin_prefix(3, true, false, false), (Vec::new(), None));
    assert_eq!(
        pin_prefix(3, false, false, true).1.as_deref(),
        Some("warning: CPU pinning not supported on this platform; running unpinned")
    );
    assert_eq!(
        pin_prefix(3, false, true, false),
        (Vec::new(), Some("warning: taskset unavailable; running unpinned".to_owned()))
    );
    assert_eq!(
        command_with_optional_prefix(&strings(&["taskset", "-c", "3"]), "run", &strings(&["a", "b"])),
        ("taskset".to_owned(), strings(&["-c", "3", "run", "a", "b"]))
    );
    assert_eq!(
        command_with_optional_prefix(&[], "run", &strings(&["a"])),
        ("run".to_owned(), strings(&["a"]))
    );
    let args = strings(&["x"]);
    let run = BinaryRun { exe: "/bin/p", args: &args, cwd: "/", pin: &[] };
    assert_eq!(run.command(), ("/bin/p".to_owned(), strings(&["x"])));
}

#[test]
fn criterion_saves_a_baseline() {
    let (program, args) =
        criterion_command(&strings(&["taskset", "-c", "0"]), strings(&["--config", "c"]), "p", "b", "dev", "abc");
    assert_eq!(program, "taskset");
    assert_eq!(
        args.join(" "),
        "-c 0 cargo --config c bench -p p --bench b --profile dev -- --save-baseline bcmp-abc"
    );
    let (program, args) = criterion_command(&[], Vec::new(), "p", "b", "dev", "abc");
    assert_eq!(program, "cargo");
    assert_eq!(args[0], "bench");
    assert_eq!(
        run_criterion("cargo", &args, &CommandReply::NotStarted("x".to_owned())).unwrap_err(),
        "failed to run cargo: x"
    );
}

#[test]
fn the_last_match_is_the_metric() {
    let pattern = Regex::new(r"steps/sec:\s*([\d.]+)").unwrap();
    let out = b"steps/sec: 1.5\nsteps/sec: 2.5\n";
    let err = b"steps/sec: 9\n";
    assert_eq!(extract_regex_metric(&pattern, out, err).unwrap(), "2.5");
    assert_eq!(extract_regex_metric(&pattern, b"", err).unwrap(), "9");
    assert_eq!(
        extract_regex_metric(&pattern, b"a\nb\n", b"").unwrap_err(),
        "metric regex did not match run output; stdout (first 30 lines):\na\nb"
    );
    let long: String = (1..=40).map(|i| format!("{i}\n")).collect();
    assert!(extract_regex_metric(&pattern, long.as_bytes(), b"").unwrap_err().ends_with("\n29\n30"));
    let pattern = Regex::new(r"(\w+)=(?<value>\d+)").unwrap();
    assert_eq!(extract_regex_metric(&pattern, b"a=1 b=22", b"").unwrap(), "22");
    let pattern = Regex::new(r"x(\d)?").unwrap();
    assert_eq!(
        extract_regex_metric(&pattern, b"x1 x", b"").unwrap_err(),
        "--metric-regex must contain a capture group"
    );
    assert_eq!(
        metric_parse_error("1.2.3", b"out\n"),
        "failed to parse metric value '1.2.3'; stdout (first 30 lines):\nout"
    );
}

#[test]
fn metrics_are_chosen_from_matches() {
    let some = |s: &str| Some(s.to_owned());
    let names = [None, None, some("value")];
    let first = vec![some("m"), some("1"), some("2")];
    let second = vec![some("m"), some("3"), None];
    assert_eq!(last_caps(&names, &[first.clone(), second.clone()]), Some(some("3")));
    assert_eq!(last_caps(&names, &[second, first.clone()]), Some(some("2")));
    assert_eq!(last_caps(&names, &[]), None);
    assert_eq!(choose_metric(&names, &[], &[first], "out").unwrap(), "2");
    assert!(choose_metric(&names, &[], &[], "out").is_err());
}

#[test]
fn a_run_gives_a_time_or_a_metric() {
    let args = strings(&["a"]);
    let ok = CommandReply::Exited {
        ok: true,
        status: String::new(),
        stdout: b"v=7".to_vec(),
        stderr: Vec::new(),
    };
    assert!(matches!(
        run_one("p", &args, &MetricSource::WallClock, &ok),
        Ok(Measured::WallClock)
    ));
    let metric = MetricSource::Regex {
        raw: r"v=(\d)".to_owned(),
        pattern: Regex::new(r"v=(\d)").unwrap(),
        higher_is_better: true,
    };
    assert!(matches!(run_one("p", &args, &metric, &ok), Ok(Measured::Metric(v)) if v == "7"));
    let failed = CommandReply::Exited {
        ok: false,
        status: "signal: 9".to_owned(),
        stdout: b"v=7".to_vec(),
        stderr: b"boom".to_vec(),
    };
    assert!(matches!(
        run_one("p", &args, &metric, &failed),
        Err(e) if e == "command failed: p a\nstatus: signal: 9\nstderr (last 20 lines):\nboom"
    ));
    assert_eq!(metric_unit(&MetricSource::WallClock), ("s", true));
    assert_eq!(metric_unit(&metric), ("metric", false));
}

#[test]
fn verdicts() {
    assert_eq!(verdict(false, true, true, false), Verdict::NoChange);
    assert_eq!(verdict(true, true, true, false), Verdict::Improved);
    assert_eq!(verdict(true, true, false, true), Verdict::Regressed);
    assert_eq!(verdict(true, false, true, false), Verdict::Regressed);
    assert_eq!(verdict(true, false, false, true), Verdict::Improved);
    assert_eq!(verdict(true, false, false, false), Verdict::Regressed);
}

#[test]
fn benchmarks_count_nanoseconds_and_leave_a_json_report_alone() {
    assert_eq!(criterion_unit(), ("ns", true));
    assert_eq!(child_output(true), Stream::Errors);
    assert_eq!(child_output(false), Stream::Output);
}
