use cargo_bench_compare::candidates::{candidates, profile_list, profile_manifest, revs};
use cargo_bench_compare::cli::CandidateKind;
use cargo_bench_compare::git::{
    canonical_or_self, command_line, default_base, is_dirty, listed_worktrees, local_branch_exists,
    output_error, prune_args, repo_key, repo_key_with, repo_root, repo_work_dir, repo_work_dir_on, resolve_spec, run_capture,
    sweep_stale_worktrees, tail_lines, BaseStep, CommandReply, ResolvedRev, RevStep, WorktreeGuard,
};

fn ok(text: &str) -> CommandReply {
    CommandReply::Exited {
        ok: true,
        status: "exit status: 0".to_owned(),
        stdout: text.as_bytes().to_vec(),
        stderr: Vec::new(),
    }
}

fn failed(stderr: &str) -> CommandReply {
    CommandReply::Exited {
        ok: false,
        status: "exit status: 1".to_owned(),
        stdout: Vec::new(),
        stderr: stderr.as_bytes().to_vec(),
    }
}

fn git_args(step: RevStep) -> (String, Option<String>) {
    match step {
        RevStep::Git { args, index } => (args.join(" "), index),
        _ => panic!("expected a command"),
    }
}

fn resolved(step: RevStep) -> Result<(String, String, String), String> {
    match step {
        RevStep::Done(Ok(rev)) => Ok((rev.spec, rev.sha, rev.short)),
        RevStep::Done(Err(e)) => Err(e),
        _ => panic!("expected the end"),
    }
}

#[test]
fn repo_work_dir_namespaces_repos_under_shared_root() {
    let cache = "/tmp/cargo-bench-compare";
    let first = repo_work_dir(cache, "/tmp/one/project");
    let second = repo_work_dir(cache, "/tmp/two/project");

    assert_ne!(first, second);
    assert_eq!(
        std::path::Path::new(&first).parent(),
        Some(std::path::Path::new(cache))
    );
    assert_eq!(
        std::path::Path::new(&second).parent(),
        Some(std::path::Path::new(cache))
    );
}

#[test]
fn repo_keys_hold_the_path_and_the_hash() {
    assert_eq!(repo_key_with("/a/b", '/', 0x1_0000_00ab), "-a-b-000000ab");
    assert_eq!(repo_key_with("/a/b", '/', u64::MAX), "-a-b-ffffffff");
    assert_eq!(repo_key_with(r"C:\a\b", '\\', 1), "C:-a-b-00000001");
    let dir = repo_work_dir("/w", "/a/b");
    assert!(dir.starts_with("/w/-a-b-"));
    assert_eq!(dir.len(), "/w/-a-b-".len() + 8);
    assert_eq!(dir, repo_work_dir("/w", "/a/b"));
    assert_eq!(dir, repo_work_dir_on("/w", "/a/b", '/'));
    assert_eq!(dir, format!("/w/{}", repo_key("/a/b")));
    assert_ne!(dir.strip_prefix("/w/-a-b-"), repo_work_dir("/w", "/a-b").strip_prefix("/w/-a-b-"));
}

#[test]
fn canonical_or_self_keeps_missing_path() {
    let path = "/tmp/cargo-bench-compare-missing-path-for-test";
    assert_eq!(canonical_or_self(path, None), path);
    assert_eq!(canonical_or_self(path, Some("/elsewhere")), "/elsewhere");
}

#[test]
fn commands_and_their_failures_are_put_in_words() {
    let args = vec!["rev-parse".to_owned(), "HEAD".to_owned()];
    assert_eq!(command_line("git", &args), "git rev-parse HEAD");
    assert_eq!(command_line("git", &[]), "git");
    assert_eq!(tail_lines("a\nb\r\nc", 2), "b\nc");
    assert_eq!(tail_lines("a\nb\n", 5), "a\nb");
    assert_eq!(tail_lines("a", 0), "");
    let many: String = (1..=25).map(|i| format!("{i}\n")).collect();
    let text = output_error("git", &args, "exit status: 1", many.as_bytes());
    assert!(text.starts_with(
        "command failed: git rev-parse HEAD\nstatus: exit status: 1\nstderr (last 20 lines):\n6\n7\n"
    ));
    assert!(text.ends_with("\n24\n25"));
    assert_eq!(run_capture("git", &args, &ok("x\n")).unwrap(), "x\n");
    assert_eq!(
        run_capture("git", &args, &CommandReply::NotStarted("gone".to_owned())).unwrap_err(),
        "failed to run git: gone"
    );
    assert_eq!(
        run_capture("git", &args, &failed("bad \u{fffd}")).unwrap_err(),
        "command failed: git rev-parse HEAD\nstatus: exit status: 1\nstderr (last 20 lines):\nbad \u{fffd}"
    );
    let bytes = CommandReply::Exited {
        ok: true,
        status: String::new(),
        stdout: vec![b'a', 0xff, b'b'],
        stderr: Vec::new(),
    };
    assert_eq!(run_capture("git", &args, &bytes).unwrap(), "a\u{fffd}b");
    assert_eq!(repo_root(&ok("/repo\n")).unwrap(), "/repo");
}

#[test]
fn dirt_is_what_git_prints() {
    assert!(is_dirty(&ok(" M a.rs\n")).unwrap());
    assert!(!is_dirty(&ok("\n")).unwrap());
    assert!(is_dirty(&failed("not a repository")).is_err());
}

#[test]
fn a_revision_is_resolved_in_two_questions() {
    let mut seen = Vec::new();
    let (args, index) = git_args(resolve_spec("/repo", "v1", "/tmp/i", &seen));
    assert_eq!(args, "rev-parse --verify --quiet v1^{commit}");
    assert!(index.is_none());
    seen.push(ok("abc123\n"));
    let (args, _) = git_args(resolve_spec("/repo", "v1", "/tmp/i", &seen));
    assert_eq!(args, "rev-parse --short abc123");
    seen.push(ok("abc\n"));
    assert_eq!(
        resolved(resolve_spec("/repo", "v1", "/tmp/i", &seen)).unwrap(),
        ("v1".to_owned(), "abc123".to_owned(), "abc".to_owned())
    );
    assert_eq!(
        resolved(resolve_spec("/repo", "v2", "/tmp/i", &[failed("")])).unwrap_err(),
        "revision 'v2' not found in /repo (tried `git rev-parse v2^{commit}`)"
    );
    assert_eq!(
        resolved(resolve_spec(
            "/repo",
            "v2",
            "/tmp/i",
            &[CommandReply::NotStarted("gone".to_owned())]
        ))
        .unwrap_err(),
        "failed to run git rev-parse: gone"
    );
    assert!(resolved(resolve_spec("/repo", "v1", "/tmp/i", &[ok("a"), failed("x")]))
        .unwrap_err()
        .starts_with("command failed: git rev-parse --short a\n"));
}

#[test]
fn snapshot_on_clean_tree_is_head() {
    let seen = [ok("\n"), ok("abc123\n"), ok("abc\n")];
    let step = |n: usize| resolve_spec("/repo", ":worktree", "/tmp/i", &seen[..n]);
    assert_eq!(git_args(step(0)).0, "status --porcelain");
    assert_eq!(git_args(step(1)).0, "rev-parse --verify --quiet HEAD^{commit}");
    assert_eq!(
        resolved(step(3)).unwrap(),
        ("HEAD".to_owned(), "abc123".to_owned(), "abc".to_owned())
    );
}

#[test]
fn snapshot_of_a_dirty_tree_works_on_a_copied_index() {
    let seen = [
        ok(" M a\n"),
        ok(".git/index\n"),
        ok(""),
        ok(""),
        ok("tree1\n"),
        ok("head1\n"),
        ok("snap1\n"),
        ok("sn\n"),
        ok(""),
    ];
    let step = |n: usize| resolve_spec("/repo", ":worktree", "/tmp/i", &seen[..n]);
    assert_eq!(git_args(step(1)), ("rev-parse --git-path index".to_owned(), None));
    assert!(matches!(step(2), RevStep::CopyIndex { from, to }
        if from == "/repo/.git/index" && to == "/tmp/i"));
    assert_eq!(git_args(step(3)), ("add -A".to_owned(), Some("/tmp/i".to_owned())));
    assert_eq!(git_args(step(4)), ("write-tree".to_owned(), Some("/tmp/i".to_owned())));
    assert_eq!(git_args(step(5)), ("rev-parse HEAD".to_owned(), None));
    assert_eq!(
        git_args(step(6)),
        (
            "-c user.name=cargo-bench-compare -c user.email=bcmp@invalid commit-tree tree1 -p head1 -m cargo-bench-compare: working tree snapshot"
                .to_owned(),
            None
        )
    );
    assert_eq!(git_args(step(7)), ("rev-parse --short snap1".to_owned(), None));
    assert!(matches!(step(8), RevStep::RemoveIndex(path) if path == "/tmp/i"));
    assert_eq!(
        resolved(step(9)).unwrap(),
        ("worktree".to_owned(), "snap1".to_owned(), "sn".to_owned())
    );
}

#[test]
fn a_failed_snapshot_still_removes_the_copy() {
    let dirty = || vec![ok(" M a\n"), ok("/elsewhere/index\n")];
    assert!(matches!(
        resolve_spec("/repo", ":worktree", "/tmp/i", &dirty()),
        RevStep::CopyIndex { from, .. } if from == "/elsewhere/index"
    ));
    for before in 0..5 {
        let mut seen = dirty();
        seen.push(ok(""));
        for _ in 0..before {
            seen.push(ok("x\n"));
        }
        seen.push(failed("broken"));
        assert!(matches!(
            resolve_spec("/repo", ":worktree", "/tmp/i", &seen),
            RevStep::RemoveIndex(path) if path == "/tmp/i"
        ));
        seen.push(ok(""));
        assert!(resolved(resolve_spec("/repo", ":worktree", "/tmp/i", &seen))
            .unwrap_err()
            .ends_with("broken"));
    }
    let mut seen = dirty();
    seen.push(CommandReply::NotStarted("disk full".to_owned()));
    assert_eq!(
        resolved(resolve_spec("/repo", ":worktree", "/tmp/i", &seen)).unwrap_err(),
        "failed to copy git index /elsewhere/index to /tmp/i: disk full"
    );
}

#[test]
fn default_base_falls_back_to_local_main_then_master() {
    for (main, master, expected) in [
        (true, false, Some("main")),
        (false, true, Some("master")),
        (false, false, None),
    ] {
        let exists = |found: bool| if found { ok("") } else { failed("") };
        let mut seen = vec![failed("")];
        assert!(matches!(default_base(&seen), BaseStep::Git(args)
            if args.join(" ") == "show-ref --verify --quiet refs/heads/main"));
        seen.push(exists(main));
        if !main {
            assert!(matches!(default_base(&seen), BaseStep::Git(args)
                if args.join(" ") == "show-ref --verify --quiet refs/heads/master"));
            seen.push(exists(master));
        }
        let BaseStep::Settled { answer, used } = default_base(&seen) else {
            panic!("expected an answer");
        };
        assert_eq!(used, seen.len());
        match expected {
            Some(name) => assert_eq!(answer.unwrap(), name),
            None => assert_eq!(
                answer.unwrap_err(),
                "could not determine a default base revision (no origin/HEAD, no local 'main' or 'master'); pass --rev-base <REV>"
            ),
        }
    }
}

#[test]
fn default_base_follows_the_remote() {
    let sym = || ok("refs/remotes/origin/trunk\n");
    assert!(matches!(default_base(&[]), BaseStep::Git(args)
        if args.join(" ") == "symbolic-ref --quiet refs/remotes/origin/HEAD"));
    assert!(matches!(default_base(&[sym()]), BaseStep::Git(args)
        if args.join(" ") == "show-ref --verify --quiet refs/heads/trunk"));
    assert!(matches!(
        default_base(&[sym(), ok("")]),
        BaseStep::Settled { answer: Ok(name), used: 2 } if name == "trunk"
    ));
    assert!(matches!(
        default_base(&[sym(), failed("")]),
        BaseStep::Settled { answer: Ok(name), used: 2 } if name == "origin/trunk"
    ));
    assert!(matches!(
        default_base(&[sym(), CommandReply::NotStarted("gone".to_owned())]),
        BaseStep::Settled { answer: Err(e), used: 2 } if e == "failed to run git show-ref: gone"
    ));
    assert!(local_branch_exists(&ok("")).unwrap());
    assert!(!local_branch_exists(&failed("")).unwrap());
}

#[test]
fn merge_base_resolves_fork_point() {
    let seen = [failed(""), ok(""), ok("forkpoint\n"), ok("fork\n")];
    let step = |n: usize| resolve_spec("/repo", ":merge-base", "/tmp/i", &seen[..n]);
    assert_eq!(git_args(step(2)).0, "merge-base HEAD main");
    assert_eq!(git_args(step(3)).0, "rev-parse --short forkpoint");
    assert_eq!(
        resolved(step(4)).unwrap(),
        ("merge-base(main)".to_owned(), "forkpoint".to_owned(), "fork".to_owned())
    );
    assert_eq!(
        resolved(resolve_spec(
            "/repo",
            ":merge-base",
            "/tmp/i",
            &[failed(""), ok(""), failed("")]
        ))
        .unwrap_err(),
        "no merge base between HEAD and 'main' (unrelated histories or shallow clone?); pass --rev-base <REV>"
    );
}

#[test]
fn worktrees_are_made_and_removed() {
    let rev = ResolvedRev {
        spec: "v1".to_owned(),
        sha: "abc123".to_owned(),
        short: "abc".to_owned(),
    };
    let guard = WorktreeGuard::create("/repo", "/work", &rev, false, 7);
    assert_eq!(guard.path, "/work/bcmp-abc-7");
    assert_eq!(
        guard.add_args("abc123").join(" "),
        "-C /repo worktree add --detach /work/bcmp-abc-7 abc123"
    );
    assert_eq!(
        guard.submodule_args().join(" "),
        "-C /work/bcmp-abc-7 submodule update --init --recursive"
    );
    assert!(guard.ready(&failed("x"), false).is_ok());
    assert!(guard.ready(&failed("x"), true).is_err());
    assert!(guard.ready(&ok(""), true).is_ok());
    assert_eq!(
        guard.removal().unwrap().join(" "),
        "-C /repo worktree remove --force /work/bcmp-abc-7"
    );
    assert!(guard.removal_warning(&ok("")).is_none());
    assert!(guard
        .removal_warning(&failed("locked"))
        .unwrap()
        .starts_with("warning: failed to remove worktree /work/bcmp-abc-7 via git: command failed: "));
    assert_eq!(
        guard.directory_warning("busy"),
        "warning: failed to remove worktree dir /work/bcmp-abc-7: busy"
    );
    assert_eq!(prune_args("/repo").join(" "), "-C /repo worktree prune");
    let kept = WorktreeGuard::create("/repo", "/work", &rev, true, 7);
    assert_eq!(kept.removal().unwrap_err(), "kept worktree: /work/bcmp-abc-7");
}

#[test]
fn only_stale_worktrees_are_swept() {
    let active = listed_worktrees("worktree /repo\nHEAD abc\nbranch refs/heads/main\n\nworktree /work/bcmp-a-1\n");
    assert_eq!(active, ["/repo", "/work/bcmp-a-1"]);
    let entry = |path: &str| (path.to_owned(), path.to_owned());
    let entries = vec![
        entry("/work/bcmp-a-1"),
        entry("/work/bcmp-b-2"),
        entry("/work/warm-base"),
        ("/link/bcmp-a-1".to_owned(), "/work//bcmp-a-1/".to_owned()),
        entry("/work/bcmp-c-3"),
    ];
    assert_eq!(
        sweep_stale_worktrees(&entries, &active),
        ["/work/bcmp-b-2", "/work/bcmp-c-3"]
    );
}

#[test]
fn revisions_are_listed_once() {
    assert_eq!(
        revs("main\n  v1 \n\nHEAD\nmain\nfeat\n"),
        [":worktree", ":merge-base", "HEAD", "main", "v1", "feat"]
    );
    assert_eq!(revs(""), [":worktree", ":merge-base", "HEAD"]);
}

#[test]
fn candidates_cover_revs_packages_and_benches() {
    let metadata = ok(
        r#"{"workspace_root": "/ws", "packages": [
            {"name": "b", "targets": [
                {"name": "tool", "kind": ["bin"]},
                {"name": "speed", "kind": ["bench"]},
                {"name": "tool", "kind": ["bin"]}
            ]},
            {"name": "a", "targets": [{"name": "aa", "kind": ["lib", "bin"]}]},
            {"targets": [{"name": "nameless", "kind": ["bin"]}, {"kind": ["bin"]}]},
            {"name": "b"}
        ]}"#,
    );
    assert_eq!(candidates(CandidateKind::Packages, &metadata, None), ["a", "b"]);
    assert_eq!(candidates(CandidateKind::Bins, &metadata, None), ["aa", "nameless", "tool"]);
    assert_eq!(candidates(CandidateKind::Benches, &metadata, None), ["speed"]);
    assert_eq!(profile_manifest(&metadata).as_deref(), Some("/ws/Cargo.toml"));
    assert_eq!(
        candidates(
            CandidateKind::Profiles,
            &metadata,
            Some("[profile.release-tuned]\ninherits = \"release\"\n  [profile.dev]\n#[profile.no]\n[profile.a.b]\n")
        ),
        ["bench", "dev", "release", "release-tuned", "test"]
    );
    assert_eq!(
        candidates(CandidateKind::Revs, &ok("main\n"), None),
        [":worktree", ":merge-base", "HEAD", "main"]
    );
}

#[test]
fn empty_dir_returns_empty_candidates_for_every_kind() {
    let broken = CommandReply::Exited {
        ok: true,
        status: String::new(),
        stdout: b"{".to_vec(),
        stderr: Vec::new(),
    };
    for kind in [
        CandidateKind::Packages,
        CandidateKind::Bins,
        CandidateKind::Benches,
        CandidateKind::Revs,
        CandidateKind::Profiles,
    ] {
        assert_eq!(candidates(kind, &failed("no"), None), Vec::<String>::new());
        if kind != CandidateKind::Revs {
            assert_eq!(candidates(kind, &broken, None), Vec::<String>::new());
        }
    }
    assert_eq!(profile_manifest(&failed("")), None);
}

#[test]
fn profiles_are_listed_in_order() {
    let group = |s: &str| Some(s.to_owned());
    assert_eq!(
        profile_list(&[
            vec![group("[profile.z]"), group("z")],
            vec![group("[profile.a]"), group("a")],
            vec![group("x"), None],
            vec![group("[profile.a]"), group("a")],
        ]),
        ["a", "bench", "dev", "release", "test", "z"]
    );
}
