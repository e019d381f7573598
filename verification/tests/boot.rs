use kurumi_containerd::config::model::{
    default_init, AndroidConfig, BindMount, Config, ContainerConfig, NetworkConfig, NetworkMode,
    ResourceConfig, RuntimeConfig, SecurityConfig,
};
use kurumi_containerd::container::init::InitSystem;
use kurumi_containerd::container::security::Presence;
use kurumi_containerd::edition::Edition;
use kurumi_containerd::env::Environment;
use kurumi_containerd::helper::fs::{
    Mount, INERT, MS_BIND, MS_NODEV, MS_NOSUID, MS_REMOUNT, READ_ONLY_BIND, RECURSIVE_BIND,
};
use kurumi_containerd::plan::Action;
use kurumi_containerd::runtime::boot::{
    bind_order, bind_source_path, ensure_no_symlink_components, mount_binds_inside,
    symlink_probes, BootError, BootInputs, NodeKind, SymlinkError,
};
use kurumi_containerd::runtime::layout::Runtime;

fn config() -> Config {
    Config {
        runtime: RuntimeConfig { workdir: "/run/x".to_owned(), stop_timeout_seconds: 15 },
        container: ContainerConfig {
            name: "box".to_owned(),
            uuid: None,
            rootfs: Some("/srv/root".to_owned()),
            rootfs_image: None,
            hostname: "host".to_owned(),
            init: default_init(),
            foreground: false,
            volatile: false,
            network: NetworkMode::Nat,
            network_options: NetworkConfig::default(),
            android: AndroidConfig::default(),
            resources: ResourceConfig::default(),
            security: SecurityConfig::default(),
            mounts: vec![bind("/srv/data", "/data", true)],
            environment: Environment::new(),
            environment_file: None,
        },
    }
}

fn bind(source: &str, target: &str, read_only: bool) -> BindMount {
    BindMount { source: source.to_owned(), target: target.to_owned(), read_only }
}

fn inputs(init_system: InitSystem) -> BootInputs {
    BootInputs {
        rootfs: "/srv/root".to_owned(),
        console: Some("/dev/pts/3".to_owned()),
        init_system,
        host_cgroup_v2: true,
        uuid: 1,
        android: false,
        version: "1.2.3".to_owned(),
        config_text: "[runtime]\n".to_owned(),
    }
}

fn boot(config: Config, edition: Edition, inputs: &BootInputs) -> Vec<Action<String>> {
    Runtime::new(config, "/run/k".to_owned()).boot(edition, inputs, "dsp7").unwrap()
}

fn position(plan: &[Action<String>], wanted: &Action<String>) -> usize {
    plan.iter().position(|action| action == wanted).unwrap()
}

fn mount(
    source: Option<&str>,
    target: &str,
    filesystem: Option<&str>,
    flags: u64,
    data: Option<&str>,
) -> Action<String> {
    Action::Mount(Mount {
        source: source.map(str::to_owned),
        target: target.to_owned(),
        filesystem: filesystem.map(str::to_owned),
        flags,
        data: data.map(str::to_owned),
    })
}

#[test]
fn boots_need_the_network_of_the_host() {
    let runtime = Runtime::new(config(), "/run/k".to_owned());
    let inputs = inputs(InitSystem::Openrc);
    assert!(matches!(
        runtime.boot(Edition::Kurumi, &inputs, ""),
        Err(BootError::NetworkIncomplete)
    ));
}

#[test]
fn boots_leave_the_host_before_init_runs() {
    let plan = boot(config(), Edition::Kurumi, &inputs(InitSystem::Openrc));
    let order = [
        Action::SetupChildNetwork("dsp7".to_owned()),
        Action::UnshareMount,
        mount(Some("/srv/root"), "/srv/root", None, RECURSIVE_BIND, None),
        mount(None, "/srv/root", None, MS_BIND | MS_REMOUNT, None),
        Action::CreateDirAll("/srv/root/.old_root".to_owned()),
        Action::RejectSymlinks { root: "/srv/root".to_owned(), target: "/data".to_owned() },
        Action::CreateFile("/srv/root/dev/console".to_owned()),
        mount(Some("/dev/pts/3"), "/srv/root/dev/console", None, MS_BIND, None),
        Action::ChangeDir("/srv/root".to_owned()),
        Action::PivotRoot { root: ".".to_owned(), old: ".old_root".to_owned() },
        mount(Some("proc"), "/proc", Some("proc"), INERT, None),
        mount(Some("tmpfs"), "/run", Some("tmpfs"), MS_NOSUID | MS_NODEV, Some("mode=755")),
        Action::CreateFile("/dev/full".to_owned()),
        Action::Symlink { target: "pts/ptmx".to_owned(), link: "/dev/ptmx".to_owned() },
        Action::BindMounts,
        Action::Unmount { path: "/.old_root".to_owned(), detach: true },
        Action::RemoveDirQuietly("/.old_root".to_owned()),
        Action::Dhcp,
        Action::WriteDns("/".to_owned()),
        Action::SetHostname("host".to_owned()),
        Action::WriteFile {
            path: "/run/kurumi-containerd/uuid".to_owned(),
            contents: "00000000-0000-0000-0000-000000000001".to_owned(),
        },
        Action::WriteFile {
            path: "/run/kurumi-containerd/version".to_owned(),
            contents: "1.2.3".to_owned(),
        },
        Action::PrepareInit,
        Action::WriteProfile,
        Action::HardenMounts,
        Action::DropCapabilities,
        Action::InstallSeccomp,
        Action::ExecuteInit("/sbin/init".to_owned()),
    ];
    let places: Vec<usize> = order.iter().map(|action| position(&plan, action)).collect();
    assert!(places.windows(2).all(|pair| pair[0] < pair[1]), "{places:?}");
    assert_eq!(*places.last().unwrap(), plan.len() - 1);
    assert!(!plan.contains(&Action::UnshareCgroup));
}

#[test]
fn systemd_gets_control_groups() {
    let plan = boot(config(), Edition::Kurumi, &inputs(InitSystem::Systemd));
    assert!(plan.contains(&Action::UnshareCgroup));
    assert!(plan.contains(&mount(
        Some("cgroup2"),
        "/sys/fs/cgroup",
        Some("cgroup2"),
        INERT,
        None
    )));
    let mut legacy = inputs(InitSystem::Systemd);
    legacy.host_cgroup_v2 = false;
    let plan = boot(config(), Edition::Kurumi, &legacy);
    assert!(!plan.contains(&Action::UnshareCgroup));
    assert!(plan.contains(&mount(
        Some("cgroup"),
        "/sys/fs/cgroup/systemd",
        Some("cgroup"),
        INERT,
        Some("none,name=systemd")
    )));
}

#[test]
fn volatile_roots_are_overlays() {
    let mut volatile = config();
    volatile.container.volatile = true;
    let plan = boot(volatile, Edition::Kurumi, &inputs(InitSystem::Openrc));
    assert!(plan.contains(&mount(
        Some("overlay"),
        "/run/k/volatile/box/merged",
        Some("overlay"),
        0,
        Some(
            "lowerdir=/srv/root,upperdir=/run/k/volatile/box/upper,workdir=/run/k/volatile/box/work"
        )
    )));
    assert!(plan.contains(&Action::ChangeDir("/run/k/volatile/box/merged".to_owned())));
}

#[test]
fn existing_mountpoint_file_is_not_truncated() {
    let mounts = vec![bind("/srv/file", "/etc/file", false)];
    assert_eq!(
        mount_binds_inside(Edition::Kurumi, &mounts, &vec![Presence::File]),
        [
            Action::RejectSymlinks { root: "/".to_owned(), target: "/etc/file".to_owned() },
            Action::CreateDirAll("/etc".to_owned()),
            Action::CreateMissingFile("/etc/file".to_owned()),
            mount(Some("/.old_root/srv/file"), "/etc/file", None, RECURSIVE_BIND, None),
        ]
    );
}

#[test]
fn parents_are_bound_before_their_children() {
    let mounts = vec![
        bind("/c", "/a/b/c", false),
        bind("/z", "/z", true),
        bind("/a", "/a", false),
    ];
    assert_eq!(bind_order(&mounts), [2, 1, 0]);
    assert_eq!(bind_source_path(&mounts[0]), "/.old_root/c");
    let plan = mount_binds_inside(
        Edition::Kurumi,
        &mounts,
        &vec![Presence::Directory, Presence::Directory, Presence::Directory],
    );
    assert_eq!(
        plan,
        [
            Action::RejectSymlinks { root: "/".to_owned(), target: "/a".to_owned() },
            Action::CreateDirAll("/a".to_owned()),
            mount(Some("/.old_root/a"), "/a", None, RECURSIVE_BIND, None),
            Action::RejectSymlinks { root: "/".to_owned(), target: "/z".to_owned() },
            Action::CreateDirAll("/z".to_owned()),
            mount(Some("/.old_root/z"), "/z", None, RECURSIVE_BIND, None),
            mount(None, "/z", None, READ_ONLY_BIND, None),
            Action::RejectSymlinks { root: "/".to_owned(), target: "/a/b/c".to_owned() },
            Action::CreateDirAll("/a/b/c".to_owned()),
            mount(Some("/.old_root/c"), "/a/b/c", None, RECURSIVE_BIND, None),
        ]
    );
}

#[test]
fn missing_sources_are_reported() {
    let mounts = vec![bind("/gone", "/x", false)];
    let plan = mount_binds_inside(Edition::Kurumi, &mounts, &vec![Presence::Missing]);
    assert_eq!(
        plan[1],
        Action::ReportMissing {
            source: "/.old_root/gone".to_owned(),
            target: "/x".to_owned(),
        }
    );
}

#[test]
fn targets_may_not_lead_over_links() {
    assert_eq!(symlink_probes("/root", "/a/b"), ["/root/a", "/root/a/b"]);
    let judge = |kinds: &[NodeKind]| ensure_no_symlink_components(&kinds.to_vec());
    assert_eq!(judge(&[NodeKind::Other, NodeKind::Missing]), Ok(()));
    assert_eq!(judge(&[NodeKind::Other, NodeKind::Symlink]), Err(SymlinkError::Symlink(1)));
    assert_eq!(judge(&[NodeKind::Missing, NodeKind::Symlink]), Ok(()));
    assert_eq!(judge(&[NodeKind::Unknown]), Err(SymlinkError::Unknown(0)));
    assert_eq!(judge(&[]), Ok(()));
}
