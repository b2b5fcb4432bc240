use cargo_bench_compare::git::CommandReply;
use cargo_bench_compare::json::Json;
use cargo_bench_compare::workspace::{
    load, metadata_args, read_workspace, resolve_package, target_has_kind, TargetKind,
    WorkspaceInfo,
};

fn text(s: &str) -> Json {
    Json::Text(s.to_owned())
}

fn fields(list: Vec<(&str, Json)>) -> Json {
    Json::Fields(list.into_iter().map(|(k, v)| (k.to_owned(), v)).collect())
}

fn pkg(name: &str, targets: &[(&str, &str)]) -> Json {
    fields(vec![
        ("name", text(name)),
        (
            "targets",
            Json::List(
                targets
                    .iter()
                    .map(|(kind, tname)| {
                        fields(vec![
                            ("kind", Json::List(vec![text(kind)])),
                            ("name", text(tname)),
                        ])
                    })
                    .collect(),
            ),
        ),
    ])
}

#[test]
fn explicit_package_is_returned_verbatim() {
    assert_eq!(
        resolve_package(&[pkg("a", &[])], Some("a"), TargetKind::Bin, "tool").unwrap(),
        "a"
    );
}

#[test]
fn explicit_unknown_package_lists_available() {
    let err = resolve_package(
        &[pkg("b", &[]), pkg("a", &[])],
        Some("zzz"),
        TargetKind::Bin,
        "tool",
    )
    .unwrap_err();
    assert!(err.to_string().contains("available: a, b"));
    assert_eq!(err, "package 'zzz' not found in workspace; available: a, b");
}

#[test]
fn unique_bin_owner_is_inferred() {
    assert_eq!(
        resolve_package(
            &[pkg("a", &[("bin", "tool")]), pkg("b", &[("bin", "other")])],
            None,
            TargetKind::Bin,
            "tool"
        )
        .unwrap(),
        "a"
    );
}

#[test]
fn unique_bench_owner_is_inferred() {
    assert_eq!(
        resolve_package(
            &[pkg("a", &[("bench", "hot_path")])],
            None,
            TargetKind::Bench,
            "hot_path"
        )
        .unwrap(),
        "a"
    );
}

#[test]
fn kind_filter_separates_bin_from_bench() {
    let packages = [pkg("a", &[("bench", "hot")]), pkg("b", &[("bin", "hot")])];
    assert_eq!(
        resolve_package(&packages, None, TargetKind::Bin, "hot").unwrap(),
        "b"
    );
    assert_eq!(
        resolve_package(&packages, None, TargetKind::Bench, "hot").unwrap(),
        "a"
    );
}

#[test]
fn missing_target_lists_candidates_and_hint() {
    let err = resolve_package(
        &[pkg("a", &[("bin", "x")]), pkg("b", &[("bin", "y")])],
        None,
        TargetKind::Bin,
        "nope",
    )
    .unwrap_err()
    .to_string();
    assert!(err.contains("available bin targets: x, y"));
    assert!(err.contains("pass -p <package> explicitly"));
}

#[test]
fn missing_target_with_no_targets_prints_none() {
    let err = resolve_package(&[pkg("a", &[])], None, TargetKind::Bench, "nope")
        .unwrap_err()
        .to_string();
    assert!(err.contains("available bench targets: (none)"));
}

#[test]
fn ambiguous_target_lists_owning_packages() {
    let err = resolve_package(
        &[pkg("b", &[("bin", "tool")]), pkg("a", &[("bin", "tool")])],
        None,
        TargetKind::Bin,
        "tool",
    )
    .unwrap_err()
    .to_string();
    assert!(err.contains("multiple packages: a, b"));
    assert!(err.contains("disambiguate with -p"));
    assert_eq!(
        err,
        "bin target 'tool' exists in multiple packages: a, b; disambiguate with -p <package>"
    );
}

#[test]
fn the_order_of_packages_does_not_matter() {
    let there = [pkg("a", &[("bin", "tool")]), pkg("b", &[("bin", "other")])];
    let back = [pkg("b", &[("bin", "other")]), pkg("a", &[("bin", "tool"), ("bin", "tool")])];
    for packages in [&there, &back] {
        assert_eq!(resolve_package(packages, None, TargetKind::Bin, "tool").unwrap(), "a");
    }
}

#[test]
fn packages_without_a_name_own_nothing() {
    let nameless = fields(vec![(
        "targets",
        Json::List(vec![fields(vec![
            ("kind", Json::List(vec![text("bin")])),
            ("name", text("tool")),
        ])]),
    )]);
    assert_eq!(
        resolve_package(&[nameless], None, TargetKind::Bin, "tool").unwrap_err(),
        "no package in the workspace has a bin target named 'tool'; available bin targets: (none); if the target only exists in the revision being benchmarked, pass -p <package> explicitly"
    );
    let target = fields(vec![("kind", Json::List(vec![Json::Other, text("bench")]))]);
    assert!(target_has_kind(&target, TargetKind::Bench));
    assert!(!target_has_kind(&target, TargetKind::Bin));
    assert!(!target_has_kind(&text("bin"), TargetKind::Bin));
}

fn described(json: &str) -> CommandReply {
    CommandReply::Exited {
        ok: true,
        status: "exit status: 0".to_owned(),
        stdout: json.as_bytes().to_vec(),
        stderr: Vec::new(),
    }
}

#[test]
fn load_infers_package_in_workspace() {
    assert_eq!(metadata_args(), ["metadata", "--format-version", "1", "--no-deps"]);
    let reply = described(
        r#"{"workspace_root": "/repo", "packages": [
            {"name": "alpha", "targets": [{"kind": ["bin"], "name": "alpha"}]},
            {"name": "beta", "targets": [{"kind": ["lib"], "name": "beta"}]}
        ]}"#,
    );
    let inferred = load(&reply, "/repo", None, TargetKind::Bin, "alpha").unwrap();
    assert_eq!(inferred.package, "alpha");
    assert!(inferred.ws_rel.is_empty());

    let missing = load(&reply, "/repo", None, TargetKind::Bin, "nope").unwrap_err();
    assert!(missing.contains("available bin targets: alpha"));

    let explicit = load(&reply, "/repo", Some("beta"), TargetKind::Bin, "alpha").unwrap();
    assert_eq!(explicit.package, "beta");

    assert_eq!(
        load(&reply, "/other", None, TargetKind::Bin, "alpha").unwrap_err(),
        "cargo workspace root /repo is not inside git repo /other"
    );
}

#[test]
fn load_says_what_is_missing() {
    for (json, expected) in [
        (r#"{"packages": []}"#, "cargo metadata did not contain workspace_root"),
        (r#"{"workspace_root": "/r"}"#, "cargo metadata did not contain packages"),
        (r#"{"workspace_root": 1, "packages": []}"#, "cargo metadata did not contain workspace_root"),
    ] {
        assert_eq!(
            load(&described(json), "/r", None, TargetKind::Bin, "x").unwrap_err(),
            expected
        );
    }
    assert!(load(&described("{"), "/r", None, TargetKind::Bin, "x")
        .unwrap_err()
        .starts_with("failed to parse cargo metadata: "));
    assert_eq!(
        load(
            &CommandReply::NotStarted("gone".to_owned()),
            "/r",
            None,
            TargetKind::Bin,
            "x"
        )
        .unwrap_err(),
        "failed to run cargo: gone"
    );
}

#[test]
fn a_workspace_keeps_its_place_in_a_worktree() {
    let value = fields(vec![
        ("workspace_root", text("/repo//crates/./core/")),
        ("packages", Json::List(vec![pkg("a", &[("bin", "tool")])])),
    ]);
    let info = read_workspace(&value, "/repo/", None, TargetKind::Bin, "tool").unwrap();
    assert_eq!(info.ws_rel, "crates/core");
    assert_eq!(info.worktree_ws_root("/work/wt"), "/work/wt/crates/core");
    let root = WorkspaceInfo { ws_rel: String::new(), package: "a".to_owned() };
    assert_eq!(root.worktree_ws_root("/work/wt"), "/work/wt/");
}
