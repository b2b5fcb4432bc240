use std::collections::HashMap;

use cargo_bench_compare::cpus::{format_cpu_list, hex_mask, parse_cpu_list};
use cargo_bench_compare::governor::{
    governor_of, governor_path, governor_warning, online_cores, set_performance, validate_core,
    write_governor, GovernorGuard, SetOutcome, SetStep, WriteStep, Written,
};
use cargo_bench_compare::isolation::{
    apply_script, await_scope, boot_isolated, evicted_cores, housekeeping, isolate, isolate_first,
    isolate_inner, move_args, probe_command, restore_script, sanitized, scope_args, show_args,
    show_error, siblings_path, snapshot, IsolateOutcome, IsolationAction, IsolationGuard,
    IsolationRun, Machine, Phase, Reply, ScopeWait, Snapshot,
};

fn read(s: &str) -> Option<String> {
    Some(s.to_owned())
}

fn names(list: &[&str]) -> Vec<String> {
    list.iter().map(|s| (*s).to_owned()).collect()
}

#[test]
fn parse_and_format_cpu_list_roundtrip() {
    for (raw, cores) in [
        ("7", vec![7]),
        ("0-1", vec![0, 1]),
        ("3,7", vec![3, 7]),
        ("0-2,5-6", vec![0, 1, 2, 5, 6]),
        ("", vec![]),
    ] {
        assert_eq!(parse_cpu_list(raw), cores);
        assert_eq!(parse_cpu_list(&format_cpu_list(&cores)), cores);
    }
    assert_eq!(
        format_cpu_list(&(0..=6).chain(8..=13).collect::<Vec<_>>()),
        "0-6,8-13"
    );
}

#[test]
fn cpu_lists_are_read_leniently() {
    assert_eq!(parse_cpu_list(" 3,1-2,,x,2\n"), vec![1, 2, 3]);
    assert_eq!(parse_cpu_list("5-3,+4,1-2-3"), vec![4]);
    assert_eq!(parse_cpu_list("4294967295"), vec![u32::MAX]);
    assert_eq!(parse_cpu_list("4294967296"), Vec::<u32>::new());
    assert_eq!(format_cpu_list(&[9, 3, 2, 3, 1]), "1-3,9");
    assert_eq!(format_cpu_list(&[u32::MAX - 1, u32::MAX]), "4294967294-4294967295");
    assert_eq!(format_cpu_list(&[]), "");
}

#[test]
fn hex_mask_matches_kernel_format() {
    assert_eq!(hex_mask(&(0..=13).collect::<Vec<_>>()), "3fff");
    assert_eq!(hex_mask(&[0, 1, 2]), "7");
    assert_eq!(hex_mask(&(0..=32).collect::<Vec<_>>()), "1,ffffffff");
}

#[test]
fn hex_mask_fills_lower_groups() {
    assert_eq!(hex_mask(&[]), "0");
    assert_eq!(hex_mask(&[64]), "1,00000000,00000000");
    assert_eq!(hex_mask(&[4, 36, 36]), "10,00000010");
}

#[test]
fn evicted_includes_smt_siblings() {
    assert_eq!(evicted_cores(Some("0-1\n"), 0), vec![0, 1]);
    assert_eq!(evicted_cores(Some("7\n"), 7), vec![7]);
    assert_eq!(evicted_cores(None, 9), vec![9]);
    assert_eq!(evicted_cores(Some("\n"), 9), vec![9]);
}

#[test]
fn boot_isolated_detection() {
    assert!(boot_isolated(Some("7\n"), 7));
    assert!(!boot_isolated(Some("7\n"), 3));
    assert!(!boot_isolated(Some("3-5,9"), 7));
    assert!(!boot_isolated(Some(""), 7));
    assert!(!boot_isolated(None, 7));
}

#[test]
fn housekeeping_rejects_empty() {
    assert_eq!(
        housekeeping(&[0, 1], &[1, 0]).unwrap_err(),
        "isolating core 0 would leave no housekeeping CPUs"
    );
    assert_eq!(housekeeping(&[0, 1], &[1]).unwrap(), vec![0]);
    assert_eq!(
        housekeeping(&[], &[]).unwrap_err(),
        "isolating core 0 would leave no housekeeping CPUs"
    );
}

#[test]
fn apply_script_shape() {
    let with_scope = apply_script(Some("bcmp-shield-1.scope"), "0-6,8-13", "3f7f", 42);
    assert!(with_scope
        .contains("echo 42 > /sys/fs/cgroup/bcmp.slice/bcmp-shield-1.scope/cgroup.procs"));
    assert!(with_scope.contains("systemctl set-property --runtime user.slice AllowedCPUs=0-6,8-13"));
    assert!(
        with_scope.contains("systemctl set-property --runtime system.slice AllowedCPUs=0-6,8-13")
    );
    assert!(with_scope.contains("systemctl set-property --runtime init.scope AllowedCPUs=0-6,8-13"));
    assert!(with_scope.contains("echo 3f7f > /proc/irq/default_smp_affinity"));
    assert!(with_scope.contains("|| true"));

    let boot = apply_script(None, "0-6,8-13", "3f7f", 42);
    assert!(!boot.contains("cgroup.procs"));
    assert!(!boot.contains("systemctl set-property"));
}

#[test]
fn apply_script_is_exact() {
    assert_eq!(
        apply_script(None, "0", "1", 42),
        "set -e\necho 1 > /proc/irq/default_smp_affinity\nfor f in /proc/irq/*/smp_affinity_list; do echo 0 > \"$f\" 2>/dev/null || true; done"
    );
}

#[test]
fn restore_script_shape() {
    let snapshot = Snapshot {
        slice_prev: vec![
            ("user.slice", "0-13".to_owned()),
            ("system.slice", "$(reboot)".to_owned()),
        ],
        irq_prev: vec![(1, "0-6,8-13".to_owned()), (2, "$(reboot)".to_owned())],
        default_prev: Some("3fff".to_owned()),
    };
    let helper = restore_script(&snapshot, true);
    assert!(helper.starts_with("trap '' INT TERM HUP; cat >/dev/null;"));
    assert!(helper.contains("AllowedCPUs=0-13 || true"));
    assert!(!helper.contains("AllowedCPUs= || true"));
    assert!(!helper.contains("$(reboot)"));
    assert!(helper.contains("default_smp_affinity || true"));
    assert!(helper.contains("/proc/irq/1/smp_affinity_list 2>/dev/null || true"));
}

#[test]
fn snapshot_drops_what_is_not_plain() {
    let (taken, warnings) = snapshot(
        &[0, 1, 2, 3],
        &[
            ("user.slice", "\n".to_owned()),
            ("system.slice", "`id`".to_owned()),
            ("init.scope", " 0-1\n".to_owned()),
        ],
        &[
            ("10".to_owned(), "0-3\n".to_owned()),
            ("9".to_owned(), "2\n".to_owned()),
            ("11".to_owned(), "; rm".to_owned()),
            ("default".to_owned(), "; rm".to_owned()),
        ],
        Some("FF\n"),
    );
    assert_eq!(
        taken.slice_prev,
        vec![("user.slice", "0-3".to_owned()), ("init.scope", "0-1".to_owned())]
    );
    assert_eq!(taken.irq_prev, vec![(9, "2".to_owned()), (10, "0-3".to_owned())]);
    assert_eq!(taken.default_prev.as_deref(), Some("ff"));
    assert_eq!(
        warnings,
        [
            "warning: dropped unsafe AllowedCPUs snapshot for system.slice",
            "warning: dropped unsafe IRQ affinity snapshot for IRQ 11",
        ]
    );
    assert_eq!(
        restore_script(&taken, false),
        "systemctl set-property --runtime user.slice AllowedCPUs=0-3 || true; systemctl set-property --runtime init.scope AllowedCPUs=0-1 || true; echo ff > /proc/irq/default_smp_affinity || true; echo 2 > /proc/irq/9/smp_affinity_list 2>/dev/null || true; echo 0-3 > /proc/irq/10/smp_affinity_list 2>/dev/null || true"
    );

    let (taken, warnings) = snapshot(&[0], &[], &[], Some("0x1"));
    assert!(taken.default_prev.is_none());
    assert_eq!(warnings, ["warning: dropped unsafe default IRQ affinity snapshot"]);
}

#[test]
fn sanitized_values() {
    assert!(sanitized("0-3,af"));
    assert!(sanitized(""));
    assert!(!sanitized("0-3 "));
    assert!(!sanitized("AF"));
    assert!(!sanitized("é"));
}

fn reply(started: bool, ok: bool, text: &str) -> Reply {
    Reply { started, ok, text: text.to_owned() }
}

fn machine() -> Machine {
    Machine {
        online: vec![0, 1, 2, 3],
        irqs: vec![("5".to_owned(), "0".to_owned())],
        default: None,
    }
}

fn first_step(isolated: Option<&str>) -> (IsolationRun, IsolationAction) {
    let Ok(plan) = isolate(Some("0-1\n"), isolated, &[0, 1, 2, 3], 1, 77) else {
        panic!("two cores are left");
    };
    let (run, action) = isolate_first(plan, machine());
    (run.unwrap(), action)
}

fn fresh_run(isolated: Option<&str>) -> IsolationRun {
    let (mut run, mut action) = first_step(isolated);
    while !matches!(action, IsolationAction::CheckSudo(_)) {
        let answer = match action {
            IsolationAction::ReadControllers => reply(true, true, "cpu cpuset io\n"),
            _ => reply(true, true, ""),
        };
        let (next, then) = isolate_inner(run, answer);
        (run, action) = (next.unwrap(), then);
    }
    run
}

#[test]
fn isolation_finds_out_before_it_acts() {
    let (run, action) = first_step(None);
    assert!(matches!(action, IsolationAction::ReadControllers));
    let (run, action) = isolate_inner(run, reply(true, true, "cpu cpuset io\n"));
    assert!(matches!(action, IsolationAction::Probe("systemctl")));
    let (run, action) = isolate_inner(run.unwrap(), reply(true, true, ""));
    assert!(matches!(action, IsolationAction::Probe("systemd-run")));
    let (run, action) = isolate_inner(run.unwrap(), reply(true, true, ""));
    assert!(matches!(action, IsolationAction::Show("user.slice")));
    let (run, action) = isolate_inner(run.unwrap(), reply(true, true, "0-1\n"));
    assert!(matches!(action, IsolationAction::Show("system.slice")));
    let (run, action) = isolate_inner(run.unwrap(), reply(true, true, "$(reboot)\n"));
    assert!(matches!(action, IsolationAction::Show("init.scope")));
    let (run, action) = isolate_inner(run.unwrap(), reply(true, true, "\n"));
    let IsolationAction::CheckSudo(lines) = action else {
        panic!("expected the check of sudo");
    };
    assert_eq!(lines, ["warning: dropped unsafe AllowedCPUs snapshot for system.slice"]);
    let run = run.unwrap();
    assert!(matches!(run.phase, Phase::Start));
    assert_eq!(
        run.snapshot.slice_prev,
        vec![("user.slice", "0-1".to_owned()), ("init.scope", "0-3".to_owned())]
    );
    assert_eq!(run.snapshot.irq_prev, vec![(5, "0".to_owned())]);

    let mut run = fresh_run(None);
    run.phase = Phase::ShowInit;
    run.shown = vec![("user.slice", "x".to_owned())];
    let (_, action) = isolate_inner(run, reply(false, false, ""));
    assert!(matches!(
        action,
        IsolationAction::Finish { lines, outcome: IsolateOutcome::Skipped(_), .. }
            if lines == ["warning: dropped unsafe AllowedCPUs snapshot for user.slice"]
    ));

    let (run, action) = first_step(Some("1\n"));
    assert!(matches!(action, IsolationAction::CheckSudo(lines) if lines.is_empty()));
    assert!(run.snapshot.slice_prev.is_empty());
    assert_eq!(run.snapshot.irq_prev, vec![(5, "0".to_owned())]);
}

#[test]
fn isolation_goes_through_the_scope() {
    let run = fresh_run(None);
    let (next, action) = isolate_inner(run, reply(true, false, ""));
    assert!(matches!(action, IsolationAction::Authorize(line)
        if line == "requesting sudo to isolate core 1 (restored on exit)"));
    let (next, action) = isolate_inner(next.unwrap(), reply(true, true, ""));
    assert!(matches!(action, IsolationAction::OpenScope(unit) if unit == "bcmp-shield-77.scope"));
    let (next, action) = isolate_inner(next.unwrap(), reply(true, true, ""));
    let IsolationAction::RunScript(script) = action else {
        panic!("expected a script");
    };
    assert!(script.contains("AllowedCPUs=2-3"));
    assert!(script.contains("echo c > /proc/irq/default_smp_affinity"));
    let (next, action) = isolate_inner(next.unwrap(), reply(true, true, ""));
    assert!(matches!(action, IsolationAction::ReadCgroup));
    let (next, action) =
        isolate_inner(next.unwrap(), reply(true, true, "0::/bcmp.slice/bcmp-shield-77.scope\n"));
    assert!(matches!(action, IsolationAction::MoveProcess(list) if list == "2-3"));
    let (next, action) = isolate_inner(next.unwrap(), reply(true, false, ""));
    assert!(next.is_none());
    let IsolationAction::Finish { lines, helper, outcome } = action else {
        panic!("expected the end");
    };
    assert_eq!(
        lines,
        [
            "warning: failed to move this process to housekeeping cores",
            "isolated core 1 (+SMT sibling 0): evicted user.slice/system.slice/init.scope to cores 2-3, steered 1 IRQs (restored on exit)",
        ]
    );
    assert!(helper.unwrap().starts_with("trap '' INT TERM HUP; cat >/dev/null; systemctl"));
    let IsolateOutcome::Isolated { guard, boot } = outcome else {
        panic!("expected isolation");
    };
    assert!(!boot);
    assert_eq!(guard.canary_prev, "0-3");
    assert!(guard.restored(Some(true), Some("0-3\n")));
    assert!(!guard.restored(Some(true), Some("0-1\n")));
    assert!(!guard.restored(Some(true), None));
    assert!(!guard.restored(Some(false), Some("0-3\n")));
    assert!(!guard.restored(None, Some("0-3\n")));
}

#[test]
fn isolation_undoes_what_it_did() {
    let mut run = fresh_run(None);
    run.phase = Phase::Script;
    let (next, action) = isolate_inner(run, reply(true, false, ""));
    assert!(matches!(action, IsolationAction::Restore(script)
        if script.starts_with("systemctl set-property --runtime user.slice AllowedCPUs=0-3")));
    let (next, action) = isolate_inner(next.unwrap(), reply(false, false, ""));
    assert!(next.is_none());
    assert!(matches!(
        action,
        IsolationAction::Finish { outcome: IsolateOutcome::Skipped(text), .. }
            if text == "sudo isolation script failed"
    ));

    let mut run = fresh_run(None);
    run.phase = Phase::Migrate;
    let (next, action) = isolate_inner(run, reply(true, true, "0::/user.slice\n"));
    assert!(matches!(action, IsolationAction::Restore(_)));
    let (_, action) = isolate_inner(next.unwrap(), reply(true, true, ""));
    assert!(matches!(
        action,
        IsolationAction::Finish { outcome: IsolateOutcome::Skipped(text), .. }
            if text == "failed to migrate process into bcmp-shield-77.scope"
    ));
}

#[test]
fn isolation_is_skipped_before_anything_was_done() {
    for (phase, answer, reason) in [
        (
            Phase::Controllers,
            reply(true, false, "cpuset"),
            "cgroup v2 cpuset controller is unavailable",
        ),
        (
            Phase::Controllers,
            reply(true, true, "cpu cpusets"),
            "cgroup v2 cpuset controller is unavailable",
        ),
        (Phase::ProbeSystemctl, reply(true, false, ""), "systemctl is unavailable"),
        (Phase::ProbeRun, reply(false, false, ""), "systemd-run is unavailable"),
        (Phase::ShowUser, reply(false, false, ""), "failed to run systemctl show"),
        (Phase::ShowSystem, reply(true, false, "0"), "systemctl show failed for system.slice"),
        (Phase::ShowInit, reply(true, false, ""), "systemctl show failed for init.scope"),
        (Phase::Authorize, reply(false, false, ""), "failed to run sudo"),
        (Phase::Authorize, reply(true, false, ""), "sudo authorization failed"),
        (Phase::Scope, reply(false, false, ""), "failed to run sudo systemd-run"),
        (Phase::Scope, reply(true, false, ""), "escape scope bcmp-shield-77.scope did not appear"),
        (Phase::Scope, reply(true, false, "no child"), "no child"),
        (Phase::Script, reply(false, false, ""), "failed to run sudo isolation script"),
    ] {
        let mut run = fresh_run(None);
        run.phase = phase;
        let (next, action) = isolate_inner(run, answer);
        assert!(next.is_none());
        assert!(matches!(
            action,
            IsolationAction::Finish { outcome: IsolateOutcome::Skipped(text), .. } if text == reason
        ));
    }
}

#[test]
fn boot_isolation_needs_no_scope() {
    let run = fresh_run(Some("1\n"));
    assert!(run.plan.boot);
    let (next, action) = isolate_inner(run, reply(true, true, ""));
    assert!(matches!(action, IsolationAction::RunScript(script) if !script.contains("systemctl")));
    let (next, action) = isolate_inner(next.unwrap(), reply(true, true, ""));
    assert!(next.is_none());
    let IsolationAction::Finish { lines, .. } = action else {
        panic!("expected the end");
    };
    assert_eq!(
        lines,
        ["isolated core 1 (+SMT sibling 0): core is boot-isolated (isolcpus), steered 1 IRQs (restored on exit)"]
    );
}

#[test]
fn isolation_needs_its_tools() {
    assert!(probe_command("systemctl", true, true).is_ok());
    assert_eq!(probe_command("systemctl", true, false).unwrap_err(), "systemctl is unavailable");
    assert_eq!(probe_command("x", false, false).unwrap_err(), "x is unavailable");
    assert_eq!(show_error("user.slice", true, true), None);
    assert_eq!(
        show_error("user.slice", true, false).as_deref(),
        Some("systemctl show failed for user.slice")
    );
    assert_eq!(
        show_error("user.slice", false, false).as_deref(),
        Some("failed to run systemctl show")
    );
    assert_eq!(
        isolate(Some("0"), None, &[0], 0, 1).err().unwrap(),
        "isolating core 0 would leave no housekeeping CPUs"
    );
    let guard = IsolationGuard { restore: String::new(), canary_prev: String::new() };
    assert!(guard.restored(Some(true), None));
}

#[test]
fn cores_come_from_directory_names() {
    assert_eq!(
        online_cores(&names(&["cpu10", "cpufreq", "cpu2", "cpu", "cpu-1", "node0", "cpu02"])),
        vec![2, 2, 10]
    );
    assert_eq!(
        governor_path("/sys/devices/system/cpu", 3),
        "/sys/devices/system/cpu/cpu3/cpufreq/scaling_governor"
    );
}

#[test]
fn warns_on_pinned_core_only() {
    let warning = governor_warning(Some(2), &[read("powersave\n")]).unwrap();
    assert_eq!(
        warning,
        "CPU governor on core 2 is 'powersave', not 'performance'; results may be noisy"
    );
    assert!(governor_warning(Some(0), &[read("performance\n")]).is_none());
}

#[test]
fn unpinned_summarizes_all_cores() {
    let readings = [read("powersave\n"), read("powersave\n"), read("performance\n")];
    let warning = governor_warning(None, &readings).unwrap();
    assert!(warning.contains("2 of 3"));
    assert!(governor_warning(None, &[read("performance\n"), read("performance\n")]).is_none());
}

#[test]
fn unknown_governors_do_not_count() {
    let warning = governor_warning(
        None,
        &[read("powersave\n"), read("schedutil"), None, read("powersave\n"), read("performance\n")],
    )
    .unwrap();
    assert_eq!(
        warning,
        "CPU governor is not 'performance' on 3 of 4 cores (powersave, schedutil); results may be noisy"
    );
}

#[test]
fn silent_without_cpufreq() {
    assert!(governor_warning(Some(0), &[None]).is_none());
    assert!(governor_warning(None, &[None, None]).is_none());
    assert_eq!(governor_of(None), None);
    assert_eq!(governor_of(Some(" powersave\n")).as_deref(), Some("powersave"));
}

#[test]
fn validate_core_rejects_missing() {
    assert_eq!(
        validate_core(5, true, false).unwrap_err(),
        "--runs-on-core 5: core does not exist on this machine"
    );
    assert!(validate_core(0, true, true).is_ok());
    assert!(validate_core(5, false, false).is_ok());
}

#[test]
fn set_and_restore_roundtrip() {
    let sysfs = "/tmp/sysfs";
    let path = governor_path(sysfs, 3);
    let available = Some("performance powersave");
    let mut files = HashMap::from([(path.clone(), "powersave\n".to_owned())]);
    let write = |files: &mut HashMap<String, String>, value: &str| {
        let WriteStep::Direct(write) = write_governor(sysfs, 3, value, None, None) else {
            panic!("expected a write");
        };
        files.insert(write.path, write.value);
        assert!(matches!(
            write_governor(sysfs, 3, value, Some(Written::Yes), None),
            WriteStep::Done(Ok(()))
        ));
    };

    let current = files[&path].clone();
    let SetStep::Write(set) = set_performance(sysfs, 3, Some(&current), available, None) else {
        panic!("expected Write");
    };
    assert_eq!(set.path, path);
    write(&mut files, &set.value);
    let SetStep::Done(SetOutcome::Changed(guard)) =
        set_performance(sysfs, 3, Some(&current), available, Some(Ok(())))
    else {
        panic!("expected Changed");
    };
    assert_eq!(governor_of(files.get(&path).map(String::as_str)).as_deref(), Some("performance"));
    assert_eq!(guard.previous(), "powersave");
    let restore = guard.restore();
    assert_eq!(restore.path, path);
    write(&mut files, &restore.value);
    assert_eq!(governor_of(files.get(&path).map(String::as_str)).as_deref(), Some("powersave"));
}

#[test]
fn a_governor_that_stays_is_told() {
    let guard = GovernorGuard {
        sysfs: "/tmp/sysfs".to_owned(),
        core: 3,
        previous: "powersave".to_owned(),
    };
    assert_eq!(
        guard.restore_warning("denied"),
        "warning: failed to restore CPU governor on core 3 to 'powersave': denied. Fix manually: echo powersave | sudo tee /tmp/sysfs/cpu3/cpufreq/scaling_governor"
    );
}

#[test]
fn set_skips() {
    assert!(matches!(
        set_performance("/s", 0, Some("performance\n"), Some("performance powersave"), None),
        SetStep::Done(SetOutcome::AlreadyPerformance)
    ));
    let SetStep::Done(SetOutcome::Skipped(reason)) =
        set_performance("/s", 1, Some("powersave\n"), Some("powersave"), None)
    else {
        panic!("expected Skipped");
    };
    assert!(reason.contains("powersave"));
    let SetStep::Done(SetOutcome::Skipped(reason)) =
        set_performance("/s", 1, Some("powersave\n"), Some("powersave ondemand\n"), None)
    else {
        panic!("expected Skipped");
    };
    assert_eq!(
        reason,
        "'performance' not offered by this driver (available: powersave ondemand)"
    );
    let SetStep::Done(SetOutcome::Skipped(reason)) = set_performance("/s", 4, None, None, None)
    else {
        panic!("expected Skipped");
    };
    assert_eq!(reason, "no cpufreq support on core 4");
    let SetStep::Done(SetOutcome::Skipped(reason)) =
        set_performance("/s", 4, Some("powersave"), None, Some(Err("no".to_owned())))
    else {
        panic!("expected Skipped");
    };
    assert_eq!(reason, "no");
}

#[test]
fn governors_are_written_with_sudo_only_below_sys() {
    let sys = "/sys/devices/system/cpu";
    let write = |sysfs, direct, sudo| write_governor(sysfs, 0, "powersave", Some(direct), sudo);
    assert!(matches!(write("/tmp", Written::Yes, None), WriteStep::Done(Ok(()))));
    for (sysfs, direct) in [("/tmp", Written::Denied), (sys, Written::Failed), ("/sysx", Written::Denied)] {
        let WriteStep::Done(Err(e)) = write(sysfs, direct, None) else {
            panic!("expected an error");
        };
        assert_eq!(e, format!("failed to write {sysfs}/cpu0/cpufreq/scaling_governor"));
    }
    let WriteStep::AskSudo { line, write: asked } = write(sys, Written::Denied, None) else {
        panic!("expected sudo");
    };
    assert_eq!(line, "requesting sudo to write the CPU governor (will be restored on exit)");
    assert_eq!(asked.path, "/sys/devices/system/cpu/cpu0/cpufreq/scaling_governor");
    assert_eq!(asked.value, "powersave");
    assert!(matches!(
        write(sys, Written::Denied, Some(reply(true, true, ""))),
        WriteStep::Done(Ok(()))
    ));
    for (answer, expected) in [
        (reply(false, false, ""), "failed to run sudo tee"),
        (reply(true, false, "broken pipe"), "broken pipe"),
        (
            reply(true, false, ""),
            "sudo tee /sys/devices/system/cpu/cpu0/cpufreq/scaling_governor failed",
        ),
    ] {
        let WriteStep::Done(Err(e)) = write(sys, Written::Denied, Some(answer)) else {
            panic!("expected an error");
        };
        assert_eq!(e, expected);
    }
}

#[test]
fn a_scope_is_awaited_for_five_seconds() {
    assert_eq!(await_scope(0, false, false), ScopeWait::Wait { millis: 100 });
    assert_eq!(await_scope(4999, false, false), ScopeWait::Wait { millis: 100 });
    assert_eq!(await_scope(4999, true, true), ScopeWait::Open);
    assert_eq!(await_scope(100, false, true), ScopeWait::GiveUp);
    assert_eq!(await_scope(5000, true, false), ScopeWait::GiveUp);
}

#[test]
fn isolation_commands() {
    assert_eq!(
        siblings_path("/sys/devices/system/cpu", 2),
        "/sys/devices/system/cpu/cpu2/topology/thread_siblings_list"
    );
    assert_eq!(show_args("user.slice").join(" "), "show -p AllowedCPUs --value user.slice");
    let (args, path) = scope_args("bcmp-shield-7.scope");
    assert_eq!(
        args.join(" "),
        "-n systemd-run --scope --slice=bcmp.slice --unit=bcmp-shield-7.scope -p Delegate=yes --quiet sleep 30"
    );
    assert_eq!(path, "/sys/fs/cgroup/bcmp.slice/bcmp-shield-7.scope");
    assert_eq!(move_args("0-2", 77).join(" "), "-a -p -c 0-2 77");
}
