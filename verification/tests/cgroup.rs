use kurumi_containerd::config::model::ResourceConfig;
use kurumi_containerd::edition::Edition;
use kurumi_containerd::helper::fs::{Mount, INERT, TMPFS_MAGIC};
use kurumi_containerd::host::cgroup::{
    cgroup1_bootstrap, cgroup2_confirmed, cgroup2_root, cgroup2_undo, cgroup_base, cgroup_required,
    ensure_cgroup1_roots, ensure_cgroup2_root, first_failure, parse_cgroup1_roots, parse_mountinfo,
    requested_controllers, wants_group, write_limit, Cgroup, Controller, ControllerRoot,
    ControllerRoots, Hierarchy, HierarchyDecision, MountEntry, RemoveOutcome, UnifiedDecision,
};
use kurumi_containerd::host::check::{
    legacy_cgroups, overlay_supported, Namespace, NamespaceProbes,
};
use kurumi_containerd::plan::Action;

const MOUNTINFO: &str = "29 23 0:26 / /sys/fs/cgroup/memory rw - cgroup cgroup rw,memory\n30 23 0:27 / /sys/fs/cgroup/cpu rw - cgroup cgroup rw,cpu,cpuacct\n31 23 0:28 / /sys/fs/cgroup/pids rw - cgroup cgroup rw,pids\n";

fn check_roots(roots: &ControllerRoots) {
    assert_eq!(roots.get(Controller::Memory).as_deref(), Some("/sys/fs/cgroup/memory"));
    assert_eq!(roots.get(Controller::Cpu).as_deref(), Some("/sys/fs/cgroup/cpu"));
    assert_eq!(roots.get(Controller::Pids).as_deref(), Some("/sys/fs/cgroup/pids"));
}

#[test]
fn systemd_requires_cgroup_without_resource_limits() {
    let resources = ResourceConfig::default();

    assert!(cgroup_required(&resources, true));
    assert_eq!(requested_controllers(&resources, true), vec![Controller::Pids]);
}

#[test]
fn custom_init_skips_cgroup_without_resource_limits() {
    assert!(!cgroup_required(&ResourceConfig::default(), false));
}

#[test]
fn parses_controller_mounts_from_mountinfo() {
    let mountinfo = MOUNTINFO
        .lines()
        .map(|line| {
            let mount = procfs::process::MountInfo::from_line(line).unwrap();
            MountEntry {
                fs_type: mount.fs_type,
                mount_point: mount.mount_point.to_str().unwrap().to_owned(),
                options: mount.super_options.into_keys().collect(),
            }
        })
        .collect::<Vec<_>>();
    check_roots(&parse_cgroup1_roots(&mountinfo));
    assert!(legacy_cgroups(&mountinfo));
    assert_eq!(cgroup2_root(&mountinfo), None);
}

#[test]
fn cgroup_parses_controller_mounts_from_mountinfo() {
    check_roots(&parse_cgroup1_roots(&parse_mountinfo(MOUNTINFO)));
}

#[test]
fn the_first_mount_of_a_kind_counts() {
    let entries = parse_mountinfo(
        "1 0 0:1 / /a rw - cgroup2 none rw\n2 0 0:1 / /b rw - cgroup2 none rw\n3 0 0:1 / /c rw \
         shared:1 - cgroup none rw,memory\n4 0 0:1 / /d rw - cgroup none rw,memory,pids\n",
    );
    assert_eq!(cgroup2_root(&entries).as_deref(), Some("/a"));
    let roots = parse_cgroup1_roots(&entries);
    assert_eq!(roots.get(Controller::Memory).as_deref(), Some("/c"));
    assert_eq!(roots.get(Controller::Pids).as_deref(), Some("/d"));
    assert_eq!(roots.get(Controller::Cpu), None);
    assert!(!legacy_cgroups(&parse_mountinfo("1 0 0:1 / /a rw - cgroup2 none rw\n")));
}

#[test]
fn resets_removed_limit() {
    assert_eq!(
        write_limit(Edition::Kurumi, "/c/memory.max", None, "max"),
        Some(Action::WriteExisting {
            path: "/c/memory.max".to_owned(),
            contents: "max".to_owned(),
        })
    );
    assert_eq!(
        write_limit(Edition::Kurumi, "/c/memory.max", Some("5".to_owned()), "max"),
        Some(Action::WriteFile { path: "/c/memory.max".to_owned(), contents: "5".to_owned() })
    );
    assert_eq!(write_limit(Edition::Gnosis, "/c/memory.max", None, "max"), None);
}

fn limits() -> ResourceConfig {
    ResourceConfig {
        memory_bytes: Some(8_388_608),
        cpu_quota: Some(50_000),
        cpu_period: Some(100_000),
        pids: None,
    }
}

fn write(path: &str, contents: &str) -> Action<String> {
    Action::WriteFile { path: path.to_owned(), contents: contents.to_owned() }
}

#[test]
fn cleanup_continues_after_error() {
    let hierarchy = Hierarchy::Controllers(vec![
        ControllerRoot { controller: Controller::Memory, root: "/m".to_owned() },
        ControllerRoot { controller: Controller::Cpu, root: "/c".to_owned() },
    ]);
    let (mut cgroup, _) =
        Cgroup::create(Edition::Kurumi, "/run/k", "box", &limits(), false, &hierarchy);
    assert_eq!(cgroup.remove(), ["/m/kurumi-containerd/box", "/c/kurumi-containerd/box"]);
    assert_eq!(cgroup.remove(), Vec::<String>::new());
    assert_eq!(first_failure(&vec![RemoveOutcome::Failed, RemoveOutcome::Removed]), Some(0));
    assert_eq!(first_failure(&vec![RemoveOutcome::Missing, RemoveOutcome::Failed]), Some(1));
    assert_eq!(first_failure(&vec![RemoveOutcome::Missing, RemoveOutcome::Removed]), None);
}

#[test]
fn limits_are_written_to_the_unified_hierarchy() {
    let hierarchy = Hierarchy::Unified("/sys/fs/cgroup".to_owned());
    let (cgroup, plan) =
        Cgroup::create(Edition::Kurumi, "/run/k", "box", &limits(), false, &hierarchy);
    let base = "/sys/fs/cgroup/kurumi-containerd/box";
    assert_eq!(
        plan,
        [
            Action::CreateDirAll(base.to_owned()),
            write(&format!("{base}/memory.max"), "8388608"),
            Action::WriteExisting {
                path: format!("{base}/pids.max"),
                contents: "max".to_owned(),
            },
            write(&format!("{base}/cpu.max"), "50000 100000"),
            Action::CreateDirAll("/run/k".to_owned()),
        ]
    );
    assert!(cgroup.unified());
    assert_eq!(cgroup.attach(42), [write(&format!("{base}/cgroup.procs"), "42")]);
}

#[test]
fn limits_are_written_to_each_controller() {
    let hierarchy = Hierarchy::Controllers(vec![
        ControllerRoot { controller: Controller::Memory, root: "/m".to_owned() },
        ControllerRoot { controller: Controller::Cpu, root: "/c".to_owned() },
        ControllerRoot { controller: Controller::Pids, root: "/p".to_owned() },
    ]);
    let (cgroup, plan) =
        Cgroup::create(Edition::Kurumi, "/run/k", "box", &limits(), true, &hierarchy);
    assert_eq!(
        plan,
        [
            Action::CreateDirAll("/m/kurumi-containerd/box".to_owned()),
            write("/m/kurumi-containerd/box/memory.limit_in_bytes", "8388608"),
            Action::CreateDirAll("/c/kurumi-containerd/box".to_owned()),
            write("/c/kurumi-containerd/box/cpu.cfs_quota_us", "50000"),
            write("/c/kurumi-containerd/box/cpu.cfs_period_us", "100000"),
            Action::CreateDirAll("/p/kurumi-containerd/box".to_owned()),
            write("/p/kurumi-containerd/box/pids.max", "max"),
            Action::CreateDirAll("/run/k".to_owned()),
        ]
    );
    assert!(!cgroup.unified());
    assert_eq!(cgroup.attach(1).len(), 3);
}

#[test]
fn unneeded_groups_are_not_made() {
    let resources = ResourceConfig::default();
    assert!(!wants_group(Edition::Kurumi, &resources, false));
    let (mut cgroup, plan) =
        Cgroup::create(Edition::Kurumi, "/run/k", "box", &resources, false, &Hierarchy::Unneeded);
    assert!(plan.is_empty());
    assert!(cgroup.remove().is_empty());
}

#[test]
fn hierarchies_are_used_mounted_or_missed() {
    let controllers = requested_controllers(&limits(), false);
    assert_eq!(controllers, [Controller::Memory, Controller::Cpu]);
    let roots = parse_cgroup1_roots(&parse_mountinfo(MOUNTINFO));
    assert_eq!(
        ensure_cgroup1_roots(&controllers, &roots, false, false),
        HierarchyDecision::Use(vec![
            ControllerRoot {
                controller: Controller::Memory,
                root: "/sys/fs/cgroup/memory".to_owned(),
            },
            ControllerRoot {
                controller: Controller::Cpu,
                root: "/sys/fs/cgroup/cpu".to_owned(),
            },
        ])
    );
    let none = ControllerRoots { memory: None, cpu: None, pids: None };
    assert_eq!(
        ensure_cgroup1_roots(&controllers, &none, false, false),
        HierarchyDecision::NotMounted
    );
    assert_eq!(
        ensure_cgroup1_roots(&controllers, &none, true, false),
        HierarchyDecision::Bootstrap
    );
    assert_eq!(
        ensure_cgroup1_roots(&controllers, &none, true, true),
        HierarchyDecision::MountFailed
    );
    assert_eq!(
        ensure_cgroup1_roots(&Vec::new(), &none, false, false),
        HierarchyDecision::Use(Vec::new())
    );
    let plan = cgroup1_bootstrap(Edition::Kurumi, &controllers, TMPFS_MAGIC);
    assert_eq!(
        plan,
        [
            Action::CreateDirAll("/sys/fs/cgroup/kurumi-containerd".to_owned()),
            Action::Mount(Mount {
                source: Some("none".to_owned()),
                target: "/sys/fs/cgroup/kurumi-containerd".to_owned(),
                filesystem: Some("cgroup".to_owned()),
                flags: INERT,
                data: Some("memory,cpu".to_owned()),
            }),
        ]
    );
}

#[test]
fn the_unified_hierarchy_is_mounted_where_asked() {
    assert_eq!(ensure_cgroup2_root(true, false), UnifiedDecision::Mounted);
    assert_eq!(ensure_cgroup2_root(false, false), UnifiedDecision::Unavailable);
    assert_eq!(ensure_cgroup2_root(false, true), UnifiedDecision::Bootstrap);
    assert!(cgroup_base(TMPFS_MAGIC).is_empty());
    assert_eq!(cgroup_base(0).len(), 1);
    assert_eq!(cgroup2_undo(TMPFS_MAGIC), None);
    assert_eq!(
        cgroup2_undo(0),
        Some(Action::Unmount { path: "/sys/fs/cgroup".to_owned(), detach: false })
    );
    assert_eq!(cgroup2_confirmed(Some("/c".to_owned()), true).as_deref(), Some("/c"));
    assert_eq!(cgroup2_confirmed(Some("/c".to_owned()), false), None);
    assert_eq!(cgroup2_confirmed(None, true), None);
}

#[test]
fn hosts_are_checked_for_what_containers_need() {
    let all = NamespaceProbes { mount: true, pid: true, uts: true, ipc: true, network: true };
    assert_eq!(all.missing(), None);
    assert_eq!(NamespaceProbes { pid: false, ipc: false, ..all }.missing(), Some(Namespace::Pid));
    assert_eq!(Namespace::Pid.name(), "PID");
    assert_eq!(NamespaceProbes { network: false, ..all }.missing(), Some(Namespace::Network));
    assert!(overlay_supported("nodev\toverlay\n"));
    assert!(!overlay_supported("ext4\n"));
}
