use cargo_bench_compare::builder::{
    artifact_path, build_bench, build_bench_args, build_bin, build_bin_args, builtin_profile,
    cargo_env, classify_build_line, forward_stderr_line, normalize_name, profile_config_args,
    target_dir, BarUpdate, BuildDrain, BuildLine, BuildLog, StderrFilter,
};
use cargo_bench_compare::git::CommandReply;
use cargo_bench_compare::json::{parse_text, Json};

fn printed(text: &str) -> CommandReply {
    CommandReply::Exited {
        ok: true,
        status: "exit status: 0".to_owned(),
        stdout: text.as_bytes().to_vec(),
        stderr: Vec::new(),
    }
}

#[test]
fn classifies_cargo_build_lines() {
    assert!(matches!(
        classify_build_line("   Compiling proc-macro2 v1.0.106"),
        BuildLine::Status(t) if t == "Compiling proc-macro2 v1.0.106"
    ));
    assert!(matches!(
        classify_build_line("    Blocking waiting for file lock on build directory"),
        BuildLine::Status(t) if t.starts_with("Blocking")
    ));
    assert!(matches!(
        classify_build_line("warning: unused variable: `x`"),
        BuildLine::Warning
    ));
    // diagnostics and the Finished line must NOT drive the status message
    assert!(matches!(
        classify_build_line("error[E0308]: mismatched types"),
        BuildLine::Other
    ));
    assert!(matches!(
        classify_build_line("    Finished `release-tuned` profile [optimized] target(s)"),
        BuildLine::Other
    ));
}

#[test]
fn parses_cargo_progress_meter_counts() {
    assert!(matches!(
        classify_build_line("    Building [=======>              ] 45/128: serde, syn(build)"),
        BuildLine::Progress {
            done: 45,
            total: 128
        }
    ));
    assert!(matches!(
        classify_build_line("Building [                        ] 0/93: quote"),
        BuildLine::Progress { done: 0, total: 93 }
    ));
    // a Building line without counts must not be treated as progress
    assert!(matches!(
        classify_build_line("    Building something unrelated"),
        BuildLine::Other
    ));
}

#[test]
fn every_status_word_is_known() {
    for word in [
        "Compiling", "Downloading", "Downloaded", "Updating", "Locking", "Blocking", "Checking",
    ] {
        assert!(matches!(
            classify_build_line(&format!("  {word} x\n")),
            BuildLine::Status(t) if t == format!("{word} x")
        ));
    }
    assert!(matches!(classify_build_line("Building a/b 1/2/3 4/5"), BuildLine::Progress {
        done: 4,
        total: 5
    }));
    assert!(matches!(
        classify_build_line("Building 18446744073709551616/1"),
        BuildLine::Other
    ));
}

#[test]
fn a_build_log_keeps_all_but_progress() {
    let mut log = BuildLog::new();
    assert!(matches!(
        log.on_line("Building [=> ] 1/2: é"),
        BarUpdate::Progress { done: 1, total: 2 }
    ));
    assert!(log.captured.is_empty());
    assert!(matches!(log.on_line("  Compiling x"), BarUpdate::Message(t) if t == "Compiling x"));
    assert!(!log.warnings);
    assert!(matches!(log.on_line("warning: é"), BarUpdate::Nothing));
    assert!(log.warnings);
    assert!(matches!(log.on_line("other"), BarUpdate::Nothing));
    assert_eq!(log.captured, "  Compiling x\nwarning: é\nother\n".as_bytes());
}

#[test]
fn finished_lines_are_not_forwarded() {
    assert!(!forward_stderr_line(b"    Finished `dev` profile\n"));
    assert!(forward_stderr_line(b"Finished"));
    assert!(forward_stderr_line(b"  Compiling x\n"));

    let text = b"  Compiling a\n    Finished b\nerror: c\nFinished d";
    let mut whole = StderrFilter::new();
    let mut expected = whole.push(text);
    expected.extend(whole.finish());
    assert_eq!(expected, b"  Compiling a\nerror: c\n");
    for size in [1, 3, 7] {
        let mut filter = StderrFilter::new();
        let mut out = Vec::new();
        for chunk in text.chunks(size) {
            out.extend(filter.push(chunk));
        }
        out.extend(filter.finish());
        assert_eq!(out, expected);
    }
    let mut filter = StderrFilter::new();
    assert!(filter.push(b"tail").is_empty());
    assert_eq!(filter.finish(), b"tail");
}

#[test]
fn profiles_of_ones_own_are_configured() {
    let unread: Result<String, String> = Err("gone".to_owned());
    for profile in ["release", "dev", "test", "bench"] {
        assert!(builtin_profile(profile));
        assert_eq!(profile_config_args("/ws", profile, &unread).unwrap(), Vec::<String>::new());
    }
    assert!(!builtin_profile("release-tuned"));
    assert_eq!(
        profile_config_args("/ws", "release-tuned", &unread).unwrap_err(),
        "failed to read /ws/Cargo.toml: gone"
    );
    let manifest = Ok("[workspace]\n[profile.release-tuned]\n".to_owned());
    assert_eq!(
        profile_config_args("/ws", "release-tuned", &manifest).unwrap(),
        Vec::<String>::new()
    );
    assert_eq!(
        profile_config_args("/ws", "tuned", &manifest).unwrap(),
        ["--config", "profile.tuned.inherits=\"release\""]
    );
}

#[test]
fn cargo_gets_its_arguments_and_environment() {
    assert_eq!(target_dir("/ws"), "/ws/target");
    assert_eq!(
        cargo_env("/ws", false),
        vec![
            ("RUSTFLAGS", "-C target-cpu=native".to_owned()),
            ("CARGO_TARGET_DIR", "/ws/target".to_owned()),
        ]
    );
    assert_eq!(cargo_env("/ws", true).len(), 4);
    assert_eq!(
        build_bin_args(vec!["--config".to_owned(), "x".to_owned()], "p", "b", "dev"),
        [
            "--config",
            "x",
            "build",
            "-p",
            "p",
            "--bin",
            "b",
            "--profile",
            "dev",
            "--message-format=json-render-diagnostics"
        ]
    );
    assert_eq!(
        build_bench_args(Vec::new(), "p", "b", "dev"),
        ["bench", "-p", "p", "--bench", "b", "--profile", "dev", "--no-run"]
    );
}

#[test]
fn the_last_executable_of_the_target_is_found() {
    let stdout = concat_lines(&[
        "not json",
        r#"{"reason":"compiler-artifact","target":{"name":"my-tool"},"executable":"/old"}"#,
        r#"{"reason":"compiler-artifact","target":{"name":"my_tool"},"executable":"/new"}"#,
        r#"{"reason":"compiler-artifact","target":{"name":"my-tool"},"executable":null}"#,
        r#"{"reason":"compiler-artifact","target":{"name":"other"},"executable":"/other"}"#,
        r#"{"reason":"build-finished","target":{"name":"my-tool"},"executable":"/no"}"#,
        r#"[1, true, "x"]"#,
    ]);
    let args = vec!["build".to_owned()];
    assert_eq!(build_bin(&args, "my-tool", &printed(&stdout)).unwrap(), "/new");
    assert_eq!(
        build_bin(&args, "nope", &printed(&stdout)).unwrap_err(),
        "build succeeded but no executable artifact found for bin 'nope'"
    );
    assert_eq!(
        build_bin(&args, "x", &CommandReply::NotStarted("no such file".to_owned())).unwrap_err(),
        "failed to run cargo: no such file"
    );
    assert!(build_bench(&args, &printed("")).is_ok());
    let failed = CommandReply::Exited {
        ok: false,
        status: "exit status: 101".to_owned(),
        stdout: Vec::new(),
        stderr: b"a\nb\n".to_vec(),
    };
    assert_eq!(
        build_bench(&args, &failed).unwrap_err(),
        "command failed: cargo build\nstatus: exit status: 101\nstderr (last 20 lines):\na\nb"
    );
}

fn concat_lines(lines: &[&str]) -> String {
    lines.iter().map(|line| format!("{line}\n")).collect()
}

#[test]
fn names_are_normalized_once() {
    assert_eq!(normalize_name("a-b-c"), "a_b_c");
    assert_eq!(normalize_name(&normalize_name("a-b-c")), "a_b_c");
}

#[test]
fn json_is_looked_into() {
    let Ok(value) = parse_text(r#"{"a": {"b": ["x", 1, null]}, "n": 1.5, "a2": "é\n"}"#) else {
        panic!("it is JSON");
    };
    let list = value.get("a").unwrap().items_at("b").unwrap();
    assert_eq!(list.len(), 3);
    assert_eq!(list[0].as_str(), Some("x"));
    assert!(list[1].as_str().is_none());
    assert!(matches!(list[2], Json::Other));
    assert_eq!(value.text_at("a2"), Some("é\n"));
    assert!(value.text_at("n").is_none());
    assert!(value.get("missing").is_none());
    assert!(list[0].get("a").is_none());
    assert!(parse_text("{").is_err());
    assert!(artifact_path(&value, "x").is_none());
}

#[test]
fn a_build_is_drained_in_chunks() {
    let text = "  Compiling a\nBuilding [> ] 1/2: a\rBuilding [=>] 2/2\rwarning: w\nlast".as_bytes();
    for size in [1, 5, text.len()] {
        let mut drain = BuildDrain::new();
        let mut updates = Vec::new();
        for chunk in text.chunks(size) {
            updates.extend(drain.push(chunk));
        }
        updates.extend(drain.finish());
        assert_eq!(updates.len(), 5);
        assert!(matches!(&updates[0], BarUpdate::Message(m) if m == "Compiling a"));
        assert!(matches!(updates[2], BarUpdate::Progress { done: 2, total: 2 }));
        assert!(matches!(updates[4], BarUpdate::Nothing));
        assert!(drain.log.warnings);
        assert_eq!(drain.log.captured, b"  Compiling a\nwarning: w\nlast\n");
        assert!(drain.finish().is_none());
    }
}

#[test]
fn a_drained_build_keeps_every_line_but_progress() {
    let mut drain = BuildDrain::new();
    assert_eq!(drain.push(b"\n").len(), 1);
    assert!(drain.finish().is_none());
    assert_eq!(drain.log.captured, b"\n");

    let long = "x".repeat(70_000);
    let text = format!("error: a\n\n  --> b\n{long}\nBuilding [=>] 2/2\n\n\nend\n");
    for size in [1, 4096, text.len()] {
        let mut drain = BuildDrain::new();
        for chunk in text.as_bytes().chunks(size) {
            drain.push(chunk);
        }
        assert!(drain.finish().is_none());
        let kept = format!("error: a\n\n  --> b\n{long}\n\n\nend\n");
        assert_eq!(drain.log.captured, kept.as_bytes());
        assert!(!drain.log.warnings);
    }

    let mut drain = BuildDrain::new();
    drain.push(b"\r\rBuilding [=>] 2/2\r\rerror: c\r");
    assert_eq!(drain.log.captured, b"error: c\n");
}

#[test]
fn both_line_ends_are_one() {
    let text = b"a\r\n\r\nb\r\r\n\nBuilding [=>] 2/2\r\nc\r\n";
    for size in [1, 2, 3, text.len()] {
        let mut drain = BuildDrain::new();
        let mut shown = 0;
        for chunk in text.chunks(size) {
            shown += drain.push(chunk).len();
        }
        assert!(drain.finish().is_none());
        assert_eq!(drain.log.captured, b"a\n\nb\n\nc\n");
        assert_eq!(shown, 6);
    }
    let mut drain = BuildDrain::new();
    drain.push(b"a\r");
    drain.finish();
    drain.push(b"\n");
    assert_eq!(drain.log.captured, b"a\n\n");
}
