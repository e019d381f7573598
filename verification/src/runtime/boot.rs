//! Booting: the steps that turn a forked process into the init process of a
//! container.
use vstd::prelude::*;

use crate::config::identity::{hyphenated, uuid_text};
use crate::config::model::BindMount;
use crate::container::init::InitSystem;
use crate::container::security::Presence;
use crate::edition::Edition;
use crate::helper::fs::{
    Mount, INERT, MS_BIND, MS_NODEV, MS_NOEXEC, MS_NOSUID, MS_PRIVATE, MS_REC, MS_REMOUNT,
    READ_ONLY_BIND, RECURSIVE_BIND,
};
use crate::order::{in_order, lists_all, stable_order, Ranked};
use crate::path::{
    absolute, below_root, components, join, join_paths, law_absolute_paths_lose_their_root, parent,
    parent_path, path_components, strip_root, Component,
};
use crate::plan::{
    bind, bind_step, create_dir_all, create_file, mount, mount_step, seal, seal_step, steps_if,
    symlink, write_file, Action, Steps,
};
use crate::runtime::layout::Runtime;
use crate::runtime::state::lemma_all_listed;
use crate::text::{
    compare_texts, joined, lemma_precedes_total, lemma_precedes_transitive, lemma_views_empty,
    lemma_views_push, precedes, views, Side,
};

verus! {

/// What the process that boots a container was given.
pub struct BootInputs {
    /// The prepared root.
    pub rootfs: String,
    /// The device of the console, if the container has one.
    pub console: Option<String>,
    pub init_system: InitSystem,
    /// The control groups of the host are one hierarchy.
    pub host_cgroup_v2: bool,
    pub uuid: u128,
    /// The host runs Android.
    pub android: bool,
    /// The version of the runtime.
    pub version: String,
    /// The configuration as text.
    pub config_text: String,
}

/// Why a container does not boot.
#[derive(Clone, Copy, Debug, PartialEq, Eq, Structural)]
pub enum BootError {
    /// The monitor never said that the network is ready.
    NetworkIncomplete,
}

/// The steps that leave the namespaces of the host and make the root a mount.
pub open spec fn isolation_steps(edition: Edition, inputs: &BootInputs) -> Steps {
    steps_if(
        inputs.init_system == InitSystem::Systemd && inputs.host_cgroup_v2,
        seq![Action::UnshareCgroup],
    ) + seq![
        Action::UnshareMount,
        mount_step(None, "/"@, None, MS_REC | MS_PRIVATE, None),
        mount_step(Some(inputs.rootfs@), inputs.rootfs@, None, RECURSIVE_BIND, None),
    ] + steps_if(
        edition == Edition::Kurumi,
        seq![mount_step(None, inputs.rootfs@, None, MS_BIND | MS_REMOUNT, None)],
    )
}

fn push_isolation(plan: &mut Vec<Action<String>>, edition: Edition, inputs: &BootInputs)
    ensures
        views(final(plan)@) == views(old(plan)@) + isolation_steps(edition, inputs),
{
    broadcast use {lemma_views_push, lemma_views_empty};

    if inputs.init_system == InitSystem::Systemd && inputs.host_cgroup_v2 {
        plan.push(Action::UnshareCgroup);
    }
    plan.push(Action::UnshareMount);
    plan.push(mount(None, "/", None, MS_REC | MS_PRIVATE, None));
    plan.push(mount(Some(&inputs.rootfs), &inputs.rootfs, None, RECURSIVE_BIND, None));
    if edition == Edition::Kurumi {
        plan.push(mount(None, &inputs.rootfs, None, MS_BIND | MS_REMOUNT, None));
    }
    assert(views(plan@) =~= views(old(plan)@) + isolation_steps(edition, inputs));
}

/// Where the layers of a volatile root are kept.
pub open spec fn volatile_base(volatile_dir: Seq<char>, name: Seq<char>) -> Seq<char> {
    join(volatile_dir, name)
}

/// The options of the overlay of a volatile root.
pub open spec fn overlay_options(lower: Seq<char>, base: Seq<char>) -> Seq<char> {
    "lowerdir="@ + lower + ",upperdir="@ + join(base, "upper"@) + ",workdir="@ + join(
        base,
        "work"@,
    )
}

/// The steps that put writable layers in memory over a root.
pub open spec fn volatile_steps(lower: Seq<char>, base: Seq<char>) -> Steps {
    seq![
        Action::CreateDirAll(base),
        mount_step(Some("tmpfs"@), base, Some("tmpfs"@), MS_NOSUID | MS_NODEV, Some("mode=700"@)),
        Action::CreateDirAll(join(base, "upper"@)),
        Action::CreateDirAll(join(base, "work"@)),
        Action::CreateDirAll(join(base, "merged"@)),
        mount_step(
            Some("overlay"@),
            join(base, "merged"@),
            Some("overlay"@),
            0,
            Some(overlay_options(lower, base)),
        ),
    ]
}

/// Puts writable layers in memory over a root, and tells where the whole is.
pub fn setup_volatile_root(
    plan: &mut Vec<Action<String>>,
    volatile_dir: &str,
    name: &str,
    lower: &str,
) -> (merged: String)
    ensures
        views(final(plan)@) == views(old(plan)@) + volatile_steps(
            lower@,
            volatile_base(volatile_dir@, name@),
        ),
        merged@ == join(volatile_base(volatile_dir@, name@), "merged"@),
{
    broadcast use {lemma_views_push, lemma_views_empty};

    let base = join_paths(volatile_dir, name);
    plan.push(create_dir_all(&base));
    plan.push(
        mount(Some("tmpfs"), &base, Some("tmpfs"), MS_NOSUID | MS_NODEV, Some("mode=700")),
    );
    let upper = join_paths(&base, "upper");
    let work = join_paths(&base, "work");
    let merged = join_paths(&base, "merged");
    plan.push(create_dir_all(&upper));
    plan.push(create_dir_all(&work));
    plan.push(create_dir_all(&merged));
    let mut options = joined("lowerdir=", lower);
    options.append(",upperdir=");
    options.append(&upper);
    options.append(",workdir=");
    options.append(&work);
    plan.push(mount(Some("overlay"), &merged, Some("overlay"), 0, Some(&options)));
    assert(views(plan@) =~= views(old(plan)@) + volatile_steps(
        lower@,
        volatile_base(volatile_dir@, name@),
    ));
    merged
}

/// The checks that no bind target leads over a symbolic link.
pub open spec fn target_checks(root: Seq<char>, mounts: Seq<BindMount>) -> Steps {
    mounts.map_values(
        |mount: BindMount| Action::RejectSymlinks { root, target: mount.target@ },
    )
}

/// The steps that give the container its console.
pub open spec fn console_steps(root: Seq<char>, console: Option<String>) -> Steps {
    match console {
        Some(device) => {
            let target = join(root, "dev/console"@);
            (match parent(target) {
                Some(directory) => seq![Action::CreateDirAll(directory)],
                None => Seq::empty(),
            }) + seq![Action::CreateFile(target), bind_step(device@, target)]
        },
        None => Seq::empty(),
    }
}

/// The directories that a root needs.
pub open spec fn directory_steps(root: Seq<char>) -> Steps {
    seq![
        Action::CreateDirAll(join(root, ".old_root"@)),
        Action::CreateDirAll(join(root, "proc"@)),
        Action::CreateDirAll(join(root, "sys"@)),
        Action::CreateDirAll(join(root, "dev"@)),
        Action::CreateDirAll(join(root, "run"@)),
        Action::CreateDirAll(join(root, "tmp"@)),
    ]
}

/// The steps that make a root ready and change to it.
pub open spec fn pivot_steps(root: Seq<char>, mounts: Seq<BindMount>, inputs: &BootInputs) -> Steps {
    directory_steps(root) + steps_if(
        inputs.android,
        seq![Action::AndroidBeforePivot(root)],
    ) + target_checks(root, mounts) + console_steps(root, inputs.console) + seq![
        Action::ChangeDir(root),
        Action::PivotRoot { root: "."@, old: ".old_root"@ },
        Action::ChangeDir("/"@),
    ]
}

/// The checks that no bind target leads over a symbolic link.
fn validate_bind_targets(plan: &mut Vec<Action<String>>, root: &str, mounts: &Vec<BindMount>)
    ensures
        views(final(plan)@) == views(old(plan)@) + target_checks(root@, mounts@),
{
    broadcast use {lemma_views_push, lemma_views_empty};

    let ghost before = views(plan@);
    let ghost checks = target_checks(root@, mounts@);
    let mut i: usize = 0;
    assert(before + checks.take(0) =~= before);
    while i < mounts.len()
        invariant
            i <= mounts@.len(),
            checks == target_checks(root@, mounts@),
            views(plan@) == before + checks.take(i as int),
        decreases mounts.len() - i,
    {
        broadcast use {lemma_views_push, lemma_views_empty};

        plan.push(
            Action::RejectSymlinks { root: root.to_owned(), target: mounts[i].target.clone() },
        );
        i += 1;
        assert(views(plan@) =~= before + checks.take(i as int));
    }
    assert(checks.take(i as int) =~= checks);
}

fn push_directories(plan: &mut Vec<Action<String>>, root: &str)
    ensures
        views(final(plan)@) == views(old(plan)@) + directory_steps(root@),
{
    broadcast use {lemma_views_push, lemma_views_empty};

    plan.push(create_dir_all(&join_paths(root, ".old_root")));
    plan.push(create_dir_all(&join_paths(root, "proc")));
    plan.push(create_dir_all(&join_paths(root, "sys")));
    plan.push(create_dir_all(&join_paths(root, "dev")));
    plan.push(create_dir_all(&join_paths(root, "run")));
    plan.push(create_dir_all(&join_paths(root, "tmp")));
    assert(views(plan@) =~= views(old(plan)@) + directory_steps(root@));
}

fn push_console(plan: &mut Vec<Action<String>>, root: &str, console: &Option<String>)
    ensures
        views(final(plan)@) == views(old(plan)@) + console_steps(root@, *console),
{
    broadcast use {lemma_views_push, lemma_views_empty};

    if let Some(device) = console {
        let target = join_paths(root, "dev/console");
        if let Some(directory) = parent_path(&target) {
            plan.push(create_dir_all(&directory));
        }
        plan.push(create_file(&target));
        plan.push(bind(device, &target));
    }
    assert(views(plan@) =~= views(old(plan)@) + console_steps(root@, *console));
}

fn push_pivot(
    plan: &mut Vec<Action<String>>,
    root: &str,
    mounts: &Vec<BindMount>,
    inputs: &BootInputs,
)
    ensures
        views(final(plan)@) == views(old(plan)@) + pivot_steps(root@, mounts@, inputs),
{
    broadcast use {lemma_views_push, lemma_views_empty};

    push_directories(plan, root);
    if inputs.android {
        plan.push(Action::AndroidBeforePivot(root.to_owned()));
    }
    validate_bind_targets(plan, root, mounts);
    push_console(plan, root, &inputs.console);
    plan.push(Action::ChangeDir(root.to_owned()));
    plan.push(Action::PivotRoot { root: ".".to_owned(), old: ".old_root".to_owned() });
    plan.push(Action::ChangeDir("/".to_owned()));
    assert(views(plan@) =~= views(old(plan)@) + pivot_steps(root@, mounts@, inputs));
}

/// The control groups that systemd finds.
pub open spec fn systemd_cgroup_steps(host_cgroup_v2: bool) -> Steps {
    seq![
        Action::CreateDirAll("/sys/fs/cgroup"@),
        mount_step(
            Some("none"@),
            "/sys/fs/cgroup"@,
            Some("tmpfs"@),
            INERT,
            Some("mode=755,size=16M"@),
        ),
    ] + (if host_cgroup_v2 {
        seq![
            mount_step(Some("cgroup2"@), "/sys/fs/cgroup"@, Some("cgroup2"@), INERT, None),
        ]
    } else {
        seq![
            Action::CreateDirAll("/sys/fs/cgroup/systemd"@),
            mount_step(
                Some("cgroup"@),
                "/sys/fs/cgroup/systemd"@,
                Some("cgroup"@),
                INERT,
                Some("none,name=systemd"@),
            ),
        ]
    })
}

/// The file systems of the kernel.
pub open spec fn kernel_steps(inputs: &BootInputs) -> Steps {
    seq![
        mount_step(Some("proc"@), "/proc"@, Some("proc"@), INERT, None),
        mount_step(Some("sysfs"@), "/sys"@, Some("sysfs"@), INERT, None),
    ] + steps_if(
        inputs.init_system == InitSystem::Systemd,
        systemd_cgroup_steps(inputs.host_cgroup_v2),
    )
}

fn push_kernel(plan: &mut Vec<Action<String>>, inputs: &BootInputs)
    ensures
        views(final(plan)@) == views(old(plan)@) + kernel_steps(inputs),
{
    broadcast use {lemma_views_push, lemma_views_empty};

    plan.push(mount(Some("proc"), "/proc", Some("proc"), INERT, None));
    plan.push(mount(Some("sysfs"), "/sys", Some("sysfs"), INERT, None));
    if inputs.init_system == InitSystem::Systemd {
        plan.push(create_dir_all("/sys/fs/cgroup"));
        plan.push(
            mount(Some("none"), "/sys/fs/cgroup", Some("tmpfs"), INERT, Some("mode=755,size=16M")),
        );
        if inputs.host_cgroup_v2 {
            plan.push(mount(Some("cgroup2"), "/sys/fs/cgroup", Some("cgroup2"), INERT, None));
        } else {
            plan.push(create_dir_all("/sys/fs/cgroup/systemd"));
            plan.push(
                mount(
                    Some("cgroup"),
                    "/sys/fs/cgroup/systemd",
                    Some("cgroup"),
                    INERT,
                    Some("none,name=systemd"),
                ),
            );
        }
    }
    assert(views(plan@) =~= views(old(plan)@) + kernel_steps(inputs));
}

/// A device of the host in the container.
pub open spec fn device_steps(device: Seq<char>) -> Steps {
    seq![
        Action::CreateFile(join("/dev"@, device)),
        bind_step(join("/.old_root/dev"@, device), join("/dev"@, device)),
    ]
}

/// The temporary file systems and the devices.
pub open spec fn device_tree_steps() -> Steps {
    seq![
        mount_step(
            Some("tmpfs"@),
            "/run"@,
            Some("tmpfs"@),
            MS_NOSUID | MS_NODEV,
            Some("mode=755"@),
        ),
        mount_step(
            Some("tmpfs"@),
            "/tmp"@,
            Some("tmpfs"@),
            MS_NOSUID | MS_NODEV,
            Some("mode=1777"@),
        ),
        mount_step(
            Some("tmpfs"@),
            "/dev"@,
            Some("tmpfs"@),
            MS_NOSUID | MS_NOEXEC,
            Some("mode=755"@),
        ),
        Action::CreateDirAll("/dev/pts"@),
        mount_step(
            Some("devpts"@),
            "/dev/pts"@,
            Some("devpts"@),
            MS_NOSUID | MS_NOEXEC,
            Some("newinstance,ptmxmode=0666,mode=0620,gid=5"@),
        ),
    ] + device_steps("null"@) + device_steps("zero"@) + device_steps("full"@) + device_steps(
        "random"@,
    ) + device_steps("urandom"@) + device_steps("tty"@) + seq![
        Action::Symlink { target: "pts/ptmx"@, link: "/dev/ptmx"@ },
        Action::Symlink { target: "/proc/self/fd"@, link: "/dev/fd"@ },
        Action::Symlink { target: "/proc/self/fd/0"@, link: "/dev/stdin"@ },
        Action::Symlink { target: "/proc/self/fd/1"@, link: "/dev/stdout"@ },
        Action::Symlink { target: "/proc/self/fd/2"@, link: "/dev/stderr"@ },
    ]
}

fn push_device(plan: &mut Vec<Action<String>>, device: &str)
    ensures
        views(final(plan)@) == views(old(plan)@) + device_steps(device@),
{
    broadcast use {lemma_views_push, lemma_views_empty};

    let target = join_paths("/dev", device);
    plan.push(create_file(&target));
    plan.push(bind(&join_paths("/.old_root/dev", device), &target));
    assert(views(plan@) =~= views(old(plan)@) + device_steps(device@));
}

fn push_device_tree(plan: &mut Vec<Action<String>>)
    ensures
        views(final(plan)@) == views(old(plan)@) + device_tree_steps(),
{
    broadcast use {lemma_views_push, lemma_views_empty};

    plan.push(
        mount(Some("tmpfs"), "/run", Some("tmpfs"), MS_NOSUID | MS_NODEV, Some("mode=755")),
    );
    plan.push(
        mount(Some("tmpfs"), "/tmp", Some("tmpfs"), MS_NOSUID | MS_NODEV, Some("mode=1777")),
    );
    plan.push(
        mount(Some("tmpfs"), "/dev", Some("tmpfs"), MS_NOSUID | MS_NOEXEC, Some("mode=755")),
    );
    plan.push(create_dir_all("/dev/pts"));
    plan.push(
        mount(
            Some("devpts"),
            "/dev/pts",
            Some("devpts"),
            MS_NOSUID | MS_NOEXEC,
            Some("newinstance,ptmxmode=0666,mode=0620,gid=5"),
        ),
    );
    push_device(plan, "null");
    push_device(plan, "zero");
    push_device(plan, "full");
    push_device(plan, "random");
    push_device(plan, "urandom");
    push_device(plan, "tty");
    plan.push(symlink("pts/ptmx", "/dev/ptmx"));
    plan.push(symlink("/proc/self/fd", "/dev/fd"));
    plan.push(symlink("/proc/self/fd/0", "/dev/stdin"));
    plan.push(symlink("/proc/self/fd/1", "/dev/stdout"));
    plan.push(symlink("/proc/self/fd/2", "/dev/stderr"));
    assert(views(plan@) =~= views(old(plan)@) + device_tree_steps());
}

/// The steps that bring in what the host shares, and let go of the host.
pub open spec fn detach_steps(edition: Edition, hostname: Seq<char>, inputs: &BootInputs) -> Steps {
    steps_if(inputs.android, seq![Action::AndroidAfterPivot]) + seq![
        Action::BindMounts,
        Action::Unmount { path: "/.old_root"@, detach: true },
        Action::RemoveDirQuietly("/.old_root"@),
    ] + steps_if(edition == Edition::Kurumi, seq![Action::Dhcp]) + seq![
        Action::WriteDns("/"@),
        Action::SetHostname(hostname),
    ]
}

/// The files by which the runtime knows the container again.
pub open spec fn identity_steps(edition: Edition, name: Seq<char>, inputs: &BootInputs) -> Steps {
    seq![
        Action::CreateDirAll(edition.run_path()),
        Action::WriteFile { path: edition.run_path() + "/name"@, contents: name },
        Action::WriteFile {
            path: edition.run_path() + "/uuid"@,
            contents: hyphenated(inputs.uuid),
        },
        Action::WriteFile {
            path: edition.run_path() + "/version"@,
            contents: inputs.version@,
        },
        Action::WriteFile {
            path: edition.run_path() + "/container.toml"@,
            contents: inputs.config_text@,
        },
    ]
}

/// The last steps: what the container needs and what it is kept from, and the
/// init program itself.
pub open spec fn final_steps(init: Seq<char>) -> Steps {
    seq![
        Action::PrepareInit,
        Action::WriteProfile,
        Action::HardenMounts,
        Action::DropCapabilities,
        Action::InstallSeccomp,
        Action::ExecuteInit(init),
    ]
}

fn push_detach(
    plan: &mut Vec<Action<String>>,
    edition: Edition,
    hostname: &str,
    inputs: &BootInputs,
)
    ensures
        views(final(plan)@) == views(old(plan)@) + detach_steps(edition, hostname@, inputs),
{
    broadcast use {lemma_views_push, lemma_views_empty};

    if inputs.android {
        plan.push(Action::AndroidAfterPivot);
    }
    plan.push(Action::BindMounts);
    plan.push(Action::Unmount { path: "/.old_root".to_owned(), detach: true });
    plan.push(Action::RemoveDirQuietly("/.old_root".to_owned()));
    if edition == Edition::Kurumi {
        plan.push(Action::Dhcp);
    }
    plan.push(Action::WriteDns("/".to_owned()));
    plan.push(Action::SetHostname(hostname.to_owned()));
    assert(views(plan@) =~= views(old(plan)@) + detach_steps(edition, hostname@, inputs));
}

fn push_identity(
    plan: &mut Vec<Action<String>>,
    edition: Edition,
    name: &str,
    inputs: &BootInputs,
)
    ensures
        views(final(plan)@) == views(old(plan)@) + identity_steps(edition, name@, inputs),
{
    broadcast use {lemma_views_push, lemma_views_empty};

    let directory = edition.run_directory();
    plan.push(create_dir_all(directory));
    plan.push(write_file(&joined(directory, "/name"), name));
    plan.push(write_file(&joined(directory, "/uuid"), &uuid_text(inputs.uuid)));
    plan.push(write_file(&joined(directory, "/version"), &inputs.version));
    plan.push(write_file(&joined(directory, "/container.toml"), &inputs.config_text));
    assert(views(plan@) =~= views(old(plan)@) + identity_steps(edition, name@, inputs));
}

/// The root that the container sees: the prepared one, or the layers over it.
pub open spec fn effective_root(runtime: &Runtime, inputs: &BootInputs) -> Seq<char> {
    if runtime.config.container.volatile {
        join(
            volatile_base(runtime.volatile_dir@, runtime.config.container.name@),
            "merged"@,
        )
    } else {
        inputs.rootfs@
    }
}

/// All steps of a boot, where `link` is the name of the container's network
/// link.
pub open spec fn boot_steps(
    runtime: &Runtime,
    edition: Edition,
    inputs: &BootInputs,
    link: Seq<char>,
) -> Steps {
    let container = runtime.config.container;
    seq![Action::SetupChildNetwork(link)] + isolation_steps(edition, inputs) + steps_if(
        container.volatile,
        volatile_steps(inputs.rootfs@, volatile_base(runtime.volatile_dir@, container.name@)),
    ) + pivot_steps(effective_root(runtime, inputs), container.mounts@, inputs) + kernel_steps(
        inputs,
    ) + device_tree_steps() + detach_steps(edition, container.hostname@, inputs) + identity_steps(
        edition,
        container.name@,
        inputs,
    ) + final_steps(container.init@)
}

impl Runtime {
    /// The steps from a forked process to the init program of the container.
    /// `status` is what the monitor wrote once the network was ready: the name
    /// of the container's link.
    pub fn boot(&self, edition: Edition, inputs: &BootInputs, status: &str) -> (result: Result<
        Vec<Action<String>>,
        BootError,
    >)
        ensures
            match result {
                Ok(plan) => status@.len() > 0 && views(plan@) == boot_steps(
                    self,
                    edition,
                    inputs,
                    status@,
                ),
                Err(error) => status@.len() == 0 && error == BootError::NetworkIncomplete,
            },
    {
        broadcast use {lemma_views_push, lemma_views_empty};

        if status.is_empty() {
            return Err(BootError::NetworkIncomplete);
        }
        let container = &self.config.container;
        let mut plan: Vec<Action<String>> = Vec::new();
        plan.push(Action::SetupChildNetwork(status.to_owned()));
        assert(views(plan@) =~= seq![Action::SetupChildNetwork(status@)]);
        push_isolation(&mut plan, edition, inputs);
        let ghost head = views(plan@);
        let root = if container.volatile {
            setup_volatile_root(&mut plan, &self.volatile_dir, &container.name, &inputs.rootfs)
        } else {
            inputs.rootfs.clone()
        };
        assert(views(plan@) =~= head + steps_if(
            container.volatile,
            volatile_steps(inputs.rootfs@, volatile_base(self.volatile_dir@, container.name@)),
        ));
        push_pivot(&mut plan, &root, &container.mounts, inputs);
        push_kernel(&mut plan, inputs);
        push_device_tree(&mut plan);
        push_detach(&mut plan, edition, &container.hostname, inputs);
        push_identity(&mut plan, edition, &container.name, inputs);
        let ghost almost = views(plan@);
        plan.push(Action::PrepareInit);
        plan.push(Action::WriteProfile);
        plan.push(Action::HardenMounts);
        plan.push(Action::DropCapabilities);
        plan.push(Action::InstallSeccomp);
        plan.push(Action::ExecuteInit(container.init.clone()));
        assert(views(plan@) =~= almost + final_steps(container.init@));
        Ok(plan)
    }
}

/// The init program is the last step of a boot, and by then the container has
/// left the root of the host, the kernel's controls are covered, and the
/// system call filter is in place.
pub proof fn law_boot_confines_init(
    runtime: &Runtime,
    edition: Edition,
    inputs: &BootInputs,
    link: Seq<char>,
)
    ensures
        ({
            let steps = boot_steps(runtime, edition, inputs, link);
            let last = steps.len() - 1;
            &&& last >= 5
            &&& steps[last] == Action::ExecuteInit(runtime.config.container.init@)
            &&& steps[last - 1] == Action::<Seq<char>>::InstallSeccomp
            &&& steps[last - 2] == Action::<Seq<char>>::DropCapabilities
            &&& steps[last - 3] == Action::<Seq<char>>::HardenMounts
            &&& exists|p: int, u: int|
                #![trigger steps[p], steps[u]]
                0 <= p < u < last - 5 && steps[p] == (Action::PivotRoot {
                    root: "."@,
                    old: ".old_root"@,
                }) && steps[u] == (Action::Unmount { path: "/.old_root"@, detach: true })
        }),
{
    let container = runtime.config.container;
    let steps = boot_steps(runtime, edition, inputs, link);
    let a = seq![Action::SetupChildNetwork(link)] + isolation_steps(edition, inputs) + steps_if(
        container.volatile,
        volatile_steps(inputs.rootfs@, volatile_base(runtime.volatile_dir@, container.name@)),
    );
    let pivot = pivot_steps(effective_root(runtime, inputs), container.mounts@, inputs);
    let b = a + pivot;
    let c = b + kernel_steps(inputs) + device_tree_steps();
    let detach = detach_steps(edition, container.hostname@, inputs);
    let d = c + detach;
    let e = d + identity_steps(edition, container.name@, inputs);
    let f = e + final_steps(container.init@);
    assert(steps =~= f);
    let last = steps.len() - 1;
    assert(f[(e.len() + 5) as int] == final_steps(container.init@)[5]);
    assert(f[(e.len() + 4) as int] == final_steps(container.init@)[4]);
    assert(f[(e.len() + 3) as int] == final_steps(container.init@)[3]);
    assert(f[(e.len() + 2) as int] == final_steps(container.init@)[2]);
    let p = b.len() - 2;
    assert(pivot[pivot.len() - 2] == (Action::PivotRoot { root: "."@, old: ".old_root"@ }));
    assert(b[p] == pivot[pivot.len() - 2]);
    assert(steps[p] == b[p]);
    let offset = if inputs.android {
        2int
    } else {
        1int
    };
    let u = c.len() + offset;
    assert(detach[offset] == (Action::Unmount { path: "/.old_root"@, detach: true }));
    assert(d[u] == detach[offset]);
    assert(steps[u] == d[u]);
    assert(0 <= p < u < last - 5);
}

/// Where the parts of a boot begin: the volatile layers, the change of the
/// root, the file systems of the kernel, the devices, the farewell to the
/// host, the identity, and the last steps.
#[verifier::rlimit(40)]
proof fn lemma_boot_layout(
    runtime: &Runtime,
    edition: Edition,
    inputs: &BootInputs,
    link: Seq<char>,
) -> (at: (int, int, int, int, int, int, int))
    ensures
        ({
            let container = runtime.config.container;
            let steps = boot_steps(runtime, edition, inputs, link);
            let isolation = isolation_steps(edition, inputs);
            let layers = steps_if(
                container.volatile,
                volatile_steps(
                    inputs.rootfs@,
                    volatile_base(runtime.volatile_dir@, container.name@),
                ),
            );
            let pivot = pivot_steps(effective_root(runtime, inputs), container.mounts@, inputs);
            let kernel = kernel_steps(inputs);
            let devices = device_tree_steps();
            let detach = detach_steps(edition, container.hostname@, inputs);
            let identity = identity_steps(edition, container.name@, inputs);
            let ending = final_steps(container.init@);
            &&& steps[0] == Action::SetupChildNetwork(link)
            &&& at.0 == 1 + isolation.len()
            &&& at.1 == at.0 + layers.len()
            &&& at.2 == at.1 + pivot.len()
            &&& at.3 == at.2 + kernel.len()
            &&& at.4 == at.3 + devices.len()
            &&& at.5 == at.4 + detach.len()
            &&& at.6 == at.5 + identity.len()
            &&& steps.len() == at.6 + ending.len()
            &&& forall|i: int| 0 <= i < isolation.len() ==> steps[1 + i] == #[trigger] isolation[i]
            &&& forall|i: int| 0 <= i < layers.len() ==> steps[at.0 + i] == #[trigger] layers[i]
            &&& forall|i: int| 0 <= i < pivot.len() ==> steps[at.1 + i] == #[trigger] pivot[i]
            &&& forall|i: int| 0 <= i < kernel.len() ==> steps[at.2 + i] == #[trigger] kernel[i]
            &&& forall|i: int| 0 <= i < devices.len() ==> steps[at.3 + i] == #[trigger] devices[i]
            &&& forall|i: int| 0 <= i < detach.len() ==> steps[at.4 + i] == #[trigger] detach[i]
            &&& forall|i: int| 0 <= i < identity.len() ==> steps[at.5 + i] == #[trigger] identity[i]
            &&& forall|i: int| 0 <= i < ending.len() ==> steps[at.6 + i] == #[trigger] ending[i]
        }),
{
    let container = runtime.config.container;
    let isolation = isolation_steps(edition, inputs);
    let layers = steps_if(
        container.volatile,
        volatile_steps(inputs.rootfs@, volatile_base(runtime.volatile_dir@, container.name@)),
    );
    let pivot = pivot_steps(effective_root(runtime, inputs), container.mounts@, inputs);
    let kernel = kernel_steps(inputs);
    let devices = device_tree_steps();
    let detach = detach_steps(edition, container.hostname@, inputs);
    let identity = identity_steps(edition, container.name@, inputs);
    let ending = final_steps(container.init@);
    let a = 1 + isolation.len() as int;
    let b = a + layers.len();
    let c = b + pivot.len();
    let d = c + kernel.len();
    let e = d + devices.len();
    let f = e + detach.len();
    let g = f + identity.len();
    lemma_joined_parts(
        seq![Action::SetupChildNetwork(link)],
        isolation,
        layers,
        pivot,
        kernel,
        devices,
        detach,
        identity,
        ending,
    );
    (a, b, c, d, e, f, g)
}

proof fn lemma_joined_parts(
    p0: Steps,
    p1: Steps,
    p2: Steps,
    p3: Steps,
    p4: Steps,
    p5: Steps,
    p6: Steps,
    p7: Steps,
    p8: Steps,
)
    requires
        p0.len() == 1,
    ensures
        ({
            let steps = p0 + p1 + p2 + p3 + p4 + p5 + p6 + p7 + p8;
            let a = 1 + p1.len();
            let b = a + p2.len();
            let c = b + p3.len();
            let d = c + p4.len();
            let e = d + p5.len();
            let f = e + p6.len();
            let g = f + p7.len();
            &&& steps.len() == g + p8.len()
            &&& steps[0] == p0[0]
            &&& forall|i: int| 0 <= i < p1.len() ==> steps[1 + i] == #[trigger] p1[i]
            &&& forall|i: int| 0 <= i < p2.len() ==> steps[a + i] == #[trigger] p2[i]
            &&& forall|i: int| 0 <= i < p3.len() ==> steps[b + i] == #[trigger] p3[i]
            &&& forall|i: int| 0 <= i < p4.len() ==> steps[c + i] == #[trigger] p4[i]
            &&& forall|i: int| 0 <= i < p5.len() ==> steps[d + i] == #[trigger] p5[i]
            &&& forall|i: int| 0 <= i < p6.len() ==> steps[e + i] == #[trigger] p6[i]
            &&& forall|i: int| 0 <= i < p7.len() ==> steps[f + i] == #[trigger] p7[i]
            &&& forall|i: int| 0 <= i < p8.len() ==> steps[g + i] == #[trigger] p8[i]
        }),
{
}

/// Where the root is changed and where the old one is given up.
#[verifier::rlimit(40)]
proof fn lemma_boot_turns(runtime: &Runtime, edition: Edition, inputs: &BootInputs, link: Seq<char>)
    -> (at: (int, int, int, int))
    ensures
        ({
            let steps = boot_steps(runtime, edition, inputs, link);
            let kernel = kernel_steps(inputs);
            let devices = device_tree_steps();
            let (pivot, kernel_at, devices_at, farewell) = at;
            &&& 0 <= pivot < kernel_at
            &&& kernel_at + kernel.len() == devices_at
            &&& devices_at + devices.len() <= farewell < steps.len()
            &&& steps[pivot] == (Action::PivotRoot { root: "."@, old: ".old_root"@ })
            &&& steps[farewell] == (Action::Unmount { path: "/.old_root"@, detach: true })
            &&& forall|i: int|
                0 <= i < kernel.len() ==> steps[kernel_at + i] == #[trigger] kernel[i]
            &&& forall|i: int|
                0 <= i < devices.len() ==> steps[devices_at + i] == #[trigger] devices[i]
        }),
{
    let container = runtime.config.container;
    let at = lemma_boot_layout(runtime, edition, inputs, link);
    let pivot = pivot_steps(effective_root(runtime, inputs), container.mounts@, inputs);
    let detach = detach_steps(edition, container.hostname@, inputs);
    assert(pivot[pivot.len() - 2] == (Action::PivotRoot { root: "."@, old: ".old_root"@ }));
    let offset = if inputs.android {
        2int
    } else {
        1int
    };
    assert(detach[offset] == (Action::Unmount { path: "/.old_root"@, detach: true }));
    (at.1 + pivot.len() - 2, at.2, at.3, at.4 + offset)
}

/// Whether a step stands between two others.
pub open spec fn stands_between(steps: Steps, from: int, to: int, step: Action<Seq<char>>) -> bool {
    exists|i: int| from < i < to && #[trigger] steps[i] == step
}

/// A mount of one file of the host at a place in the container.
pub open spec fn shares_device(source: Seq<char>, target: Seq<char>) -> Action<Seq<char>> {
    Action::Mount(
        Mount { source: Some(source), target, filesystem: None, flags: 0x1000, data: None },
    )
}

/// The devices of a container are those of the host: each is bound from the
/// old root, after the root is changed and `/dev` is a file system of its own,
/// and before the old root is given up.
#[verifier::rlimit(40)]
pub proof fn law_boot_binds_host_devices(
    runtime: &Runtime,
    edition: Edition,
    inputs: &BootInputs,
    link: Seq<char>,
)
    ensures
        ({
            let steps = boot_steps(runtime, edition, inputs, link);
            exists|pivot: int, dev: int, farewell: int|
                #![trigger steps[pivot], steps[dev], steps[farewell]]
                {
                    &&& 0 <= pivot < dev < farewell < steps.len()
                    &&& steps[pivot] == (Action::PivotRoot { root: "."@, old: ".old_root"@ })
                    &&& steps[dev] is Mount && steps[dev]->Mount_0.target == "/dev"@
                    &&& steps[farewell] == (Action::Unmount { path: "/.old_root"@, detach: true })
                    &&& stands_between(
                        steps,
                        dev,
                        farewell,
                        shares_device("/.old_root/dev/null"@, "/dev/null"@),
                    )
                    &&& stands_between(
                        steps,
                        dev,
                        farewell,
                        shares_device("/.old_root/dev/zero"@, "/dev/zero"@),
                    )
                    &&& stands_between(
                        steps,
                        dev,
                        farewell,
                        shares_device("/.old_root/dev/full"@, "/dev/full"@),
                    )
                    &&& stands_between(
                        steps,
                        dev,
                        farewell,
                        shares_device("/.old_root/dev/random"@, "/dev/random"@),
                    )
                    &&& stands_between(
                        steps,
                        dev,
                        farewell,
                        shares_device("/.old_root/dev/urandom"@, "/dev/urandom"@),
                    )
                    &&& stands_between(
                        steps,
                        dev,
                        farewell,
                        shares_device("/.old_root/dev/tty"@, "/dev/tty"@),
                    )
                }
        }),
{
    let steps = boot_steps(runtime, edition, inputs, link);
    let (pivot, kernel_at, at, farewell) = lemma_boot_turns(runtime, edition, inputs, link);
    let tree = device_tree_steps();
    lemma_device_paths();
    assert(tree[2]->Mount_0.target == "/dev"@);
    assert(tree[6] == device_steps("null"@)[1]);
    assert(tree[8] == device_steps("zero"@)[1]);
    assert(tree[10] == device_steps("full"@)[1]);
    assert(tree[12] == device_steps("random"@)[1]);
    assert(tree[14] == device_steps("urandom"@)[1]);
    assert(tree[16] == device_steps("tty"@)[1]);
    let dev = at + 2;
    assert(steps[at + 6] == shares_device("/.old_root/dev/null"@, "/dev/null"@));
    assert(steps[at + 8] == shares_device("/.old_root/dev/zero"@, "/dev/zero"@));
    assert(steps[at + 10] == shares_device("/.old_root/dev/full"@, "/dev/full"@));
    assert(steps[at + 12] == shares_device("/.old_root/dev/random"@, "/dev/random"@));
    assert(steps[at + 14] == shares_device("/.old_root/dev/urandom"@, "/dev/urandom"@));
    assert(steps[at + 16] == shares_device("/.old_root/dev/tty"@, "/dev/tty"@));
    assert(steps[dev] is Mount);
    assert(steps[pivot] == (Action::PivotRoot { root: "."@, old: ".old_root"@ }));
    assert(steps[farewell] == (Action::Unmount { path: "/.old_root"@, detach: true }));
}

proof fn lemma_device_paths()
    ensures
        join("/.old_root/dev"@, "null"@) == "/.old_root/dev/null"@,
        join("/.old_root/dev"@, "zero"@) == "/.old_root/dev/zero"@,
        join("/.old_root/dev"@, "full"@) == "/.old_root/dev/full"@,
        join("/.old_root/dev"@, "random"@) == "/.old_root/dev/random"@,
        join("/.old_root/dev"@, "urandom"@) == "/.old_root/dev/urandom"@,
        join("/.old_root/dev"@, "tty"@) == "/.old_root/dev/tty"@,
        join("/dev"@, "null"@) == "/dev/null"@,
        join("/dev"@, "zero"@) == "/dev/zero"@,
        join("/dev"@, "full"@) == "/dev/full"@,
        join("/dev"@, "random"@) == "/dev/random"@,
        join("/dev"@, "urandom"@) == "/dev/urandom"@,
        join("/dev"@, "tty"@) == "/dev/tty"@,
{
    reveal_strlit("/.old_root/dev");
    reveal_strlit("/dev");
    reveal_strlit("null");
    reveal_strlit("zero");
    reveal_strlit("full");
    reveal_strlit("random");
    reveal_strlit("urandom");
    reveal_strlit("tty");
    reveal_strlit("/.old_root/dev/null");
    reveal_strlit("/.old_root/dev/zero");
    reveal_strlit("/.old_root/dev/full");
    reveal_strlit("/.old_root/dev/random");
    reveal_strlit("/.old_root/dev/urandom");
    reveal_strlit("/.old_root/dev/tty");
    reveal_strlit("/dev/null");
    reveal_strlit("/dev/zero");
    reveal_strlit("/dev/full");
    reveal_strlit("/dev/random");
    reveal_strlit("/dev/urandom");
    reveal_strlit("/dev/tty");
    assert(join("/.old_root/dev"@, "null"@) =~= "/.old_root/dev/null"@);
    assert(join("/.old_root/dev"@, "zero"@) =~= "/.old_root/dev/zero"@);
    assert(join("/.old_root/dev"@, "full"@) =~= "/.old_root/dev/full"@);
    assert(join("/.old_root/dev"@, "random"@) =~= "/.old_root/dev/random"@);
    assert(join("/.old_root/dev"@, "urandom"@) =~= "/.old_root/dev/urandom"@);
    assert(join("/.old_root/dev"@, "tty"@) =~= "/.old_root/dev/tty"@);
    assert(join("/dev"@, "null"@) =~= "/dev/null"@);
    assert(join("/dev"@, "zero"@) =~= "/dev/zero"@);
    assert(join("/dev"@, "full"@) =~= "/dev/full"@);
    assert(join("/dev"@, "random"@) =~= "/dev/random"@);
    assert(join("/dev"@, "urandom"@) =~= "/dev/urandom"@);
    assert(join("/dev"@, "tty"@) =~= "/dev/tty"@);
}

/// A mount of a file system.
pub open spec fn mounts_file_system(
    source: Seq<char>,
    target: Seq<char>,
    filesystem: Seq<char>,
    flags: u64,
    data: Option<Seq<char>>,
) -> Action<Seq<char>> {
    Action::Mount(
        Mount { source: Some(source), target, filesystem: Some(filesystem), flags, data },
    )
}

/// The flags of mounts as the kernel knows them.
proof fn lemma_mount_flags()
    ensures
        INERT == 0xe,
        MS_NOSUID | MS_NODEV == 0x6,
        MS_NOSUID | MS_NOEXEC == 0xa,
        MS_REC | MS_PRIVATE == 0x4_4000,
        RECURSIVE_BIND == 0x5000,
        MS_BIND | MS_REMOUNT == 0x1020,
        READ_ONLY_BIND == 0x1021,
{
    assert(0x2u64 | 0x4u64 == 0x6) by (bit_vector);
    assert(0x6u64 | 0x8u64 == 0xe) by (bit_vector);
    assert(0x2u64 | 0x8u64 == 0xa) by (bit_vector);
    assert(0x4000u64 | 0x4_0000u64 == 0x4_4000) by (bit_vector);
    assert(0x1000u64 | 0x4000u64 == 0x5000) by (bit_vector);
    assert(0x1000u64 | 0x20u64 == 0x1020) by (bit_vector);
    assert(0x1020u64 | 0x1u64 == 0x1021) by (bit_vector);
}

/// A container sees the processes and the devices of the kernel through file
/// systems of its own, from which nothing is executed and through which no
/// rights are gained, and its places for transient files are in memory. All of
/// them are mounted after the root is changed and before the old one is given
/// up.
#[verifier::rlimit(40)]
pub proof fn law_boot_mounts_file_systems(
    runtime: &Runtime,
    edition: Edition,
    inputs: &BootInputs,
    link: Seq<char>,
)
    ensures
        ({
            let steps = boot_steps(runtime, edition, inputs, link);
            exists|pivot: int, farewell: int|
                #![trigger steps[pivot], steps[farewell]]
                {
                    &&& 0 <= pivot < farewell < steps.len()
                    &&& steps[pivot] == (Action::PivotRoot { root: "."@, old: ".old_root"@ })
                    &&& steps[farewell] == (Action::Unmount { path: "/.old_root"@, detach: true })
                    &&& stands_between(
                        steps,
                        pivot,
                        farewell,
                        mounts_file_system("proc"@, "/proc"@, "proc"@, 0xe, None),
                    )
                    &&& stands_between(
                        steps,
                        pivot,
                        farewell,
                        mounts_file_system("sysfs"@, "/sys"@, "sysfs"@, 0xe, None),
                    )
                    &&& stands_between(
                        steps,
                        pivot,
                        farewell,
                        mounts_file_system("tmpfs"@, "/run"@, "tmpfs"@, 0x6, Some("mode=755"@)),
                    )
                    &&& stands_between(
                        steps,
                        pivot,
                        farewell,
                        mounts_file_system("tmpfs"@, "/tmp"@, "tmpfs"@, 0x6, Some("mode=1777"@)),
                    )
                    &&& stands_between(
                        steps,
                        pivot,
                        farewell,
                        mounts_file_system("tmpfs"@, "/dev"@, "tmpfs"@, 0xa, Some("mode=755"@)),
                    )
                    &&& stands_between(
                        steps,
                        pivot,
                        farewell,
                        mounts_file_system(
                            "devpts"@,
                            "/dev/pts"@,
                            "devpts"@,
                            0xa,
                            Some("newinstance,ptmxmode=0666,mode=0620,gid=5"@),
                        ),
                    )
                    &&& stands_between(
                        steps,
                        pivot,
                        farewell,
                        Action::Symlink { target: "pts/ptmx"@, link: "/dev/ptmx"@ },
                    )
                    &&& stands_between(
                        steps,
                        pivot,
                        farewell,
                        Action::Symlink { target: "/proc/self/fd"@, link: "/dev/fd"@ },
                    )
                    &&& stands_between(
                        steps,
                        pivot,
                        farewell,
                        Action::Symlink { target: "/proc/self/fd/0"@, link: "/dev/stdin"@ },
                    )
                    &&& stands_between(
                        steps,
                        pivot,
                        farewell,
                        Action::Symlink { target: "/proc/self/fd/1"@, link: "/dev/stdout"@ },
                    )
                    &&& stands_between(
                        steps,
                        pivot,
                        farewell,
                        Action::Symlink { target: "/proc/self/fd/2"@, link: "/dev/stderr"@ },
                    )
                }
        }),
{
    let steps = boot_steps(runtime, edition, inputs, link);
    let (pivot, kernel_at, at, farewell) = lemma_boot_turns(runtime, edition, inputs, link);
    let tree = device_tree_steps();
    let kernel = kernel_steps(inputs);
    lemma_mount_flags();
    assert(kernel[0] == mounts_file_system("proc"@, "/proc"@, "proc"@, 0xe, None));
    assert(kernel[1] == mounts_file_system("sysfs"@, "/sys"@, "sysfs"@, 0xe, None));
    assert(tree[0] == mounts_file_system("tmpfs"@, "/run"@, "tmpfs"@, 0x6, Some("mode=755"@)));
    assert(tree[1] == mounts_file_system("tmpfs"@, "/tmp"@, "tmpfs"@, 0x6, Some("mode=1777"@)));
    assert(tree[2] == mounts_file_system("tmpfs"@, "/dev"@, "tmpfs"@, 0xa, Some("mode=755"@)));
    assert(tree[4] == mounts_file_system(
        "devpts"@,
        "/dev/pts"@,
        "devpts"@,
        0xa,
        Some("newinstance,ptmxmode=0666,mode=0620,gid=5"@),
    ));
    assert(tree[17] == (Action::Symlink { target: "pts/ptmx"@, link: "/dev/ptmx"@ }));
    assert(tree[18] == (Action::Symlink { target: "/proc/self/fd"@, link: "/dev/fd"@ }));
    assert(tree[19] == (Action::Symlink { target: "/proc/self/fd/0"@, link: "/dev/stdin"@ }));
    assert(tree[20] == (Action::Symlink { target: "/proc/self/fd/1"@, link: "/dev/stdout"@ }));
    assert(tree[21] == (Action::Symlink { target: "/proc/self/fd/2"@, link: "/dev/stderr"@ }));
    assert(steps[kernel_at + 0] == kernel[0]);
    assert(steps[kernel_at + 1] == kernel[1]);
    assert(steps[at + 0] == tree[0]);
    assert(steps[at + 1] == tree[1]);
    assert(steps[at + 2] == tree[2]);
    assert(steps[at + 4] == tree[4]);
    assert(steps[at + 17] == tree[17]);
    assert(steps[at + 18] == tree[18]);
    assert(steps[at + 19] == tree[19]);
    assert(steps[at + 20] == tree[20]);
    assert(steps[at + 21] == tree[21]);
    assert(steps[pivot] == (Action::PivotRoot { root: "."@, old: ".old_root"@ }));
    assert(steps[farewell] == (Action::Unmount { path: "/.old_root"@, detach: true }));
}

/// Whether two steps are taken in this order.
pub open spec fn comes_first(
    steps: Steps,
    first: Action<Seq<char>>,
    second: Action<Seq<char>>,
) -> bool {
    exists|i: int, j: int|
        #![trigger steps[i], steps[j]]
        0 <= i < j < steps.len() && steps[i] == first && steps[j] == second
}

/// A boot configures the network first, and leaves the mounts of the host
/// before it mounts anything: from then on no mount is seen outside. Systemd on
/// a unified hierarchy also leaves the control groups of the host.
#[verifier::rlimit(40)]
pub proof fn law_boot_leaves_the_mounts_of_the_host(
    runtime: &Runtime,
    edition: Edition,
    inputs: &BootInputs,
    link: Seq<char>,
)
    ensures
        ({
            let steps = boot_steps(runtime, edition, inputs, link);
            let apart = inputs.init_system == InitSystem::Systemd && inputs.host_cgroup_v2;
            let at: int = if apart {
                2
            } else {
                1
            };
            &&& steps[0] == Action::SetupChildNetwork(link)
            &&& apart ==> steps[1] == Action::<Seq<char>>::UnshareCgroup
            &&& steps[at] == Action::<Seq<char>>::UnshareMount
            &&& steps[at + 1] == Action::Mount(
                Mount {
                    source: None,
                    target: "/"@,
                    filesystem: None,
                    flags: 0x4_4000,
                    data: None,
                },
            )
            &&& steps[at + 2] == Action::Mount(
                Mount {
                    source: Some(inputs.rootfs@),
                    target: inputs.rootfs@,
                    filesystem: None,
                    flags: 0x5000,
                    data: None,
                },
            )
            &&& edition == Edition::Kurumi ==> steps[at + 3] == Action::Mount(
                Mount {
                    source: None,
                    target: inputs.rootfs@,
                    filesystem: None,
                    flags: 0x1020,
                    data: None,
                },
            )
        }),
{
    let at = lemma_boot_layout(runtime, edition, inputs, link);
    let steps = boot_steps(runtime, edition, inputs, link);
    let isolation = isolation_steps(edition, inputs);
    lemma_mount_flags();
    assert(steps[1] == isolation[0]);
    assert(steps[2] == isolation[1]);
    assert(steps[3] == isolation[2]);
    if isolation.len() > 3 {
        assert(steps[4] == isolation[3]);
    }
    if isolation.len() > 4 {
        assert(steps[5] == isolation[4]);
    }
}

/// The root that a container changes to is the prepared one, or, for a
/// volatile container, writable layers in memory over it: what is written
/// there is gone with the container, and the prepared root is only read.
#[verifier::rlimit(40)]
pub proof fn law_boot_changes_to_its_root(
    runtime: &Runtime,
    edition: Edition,
    inputs: &BootInputs,
    link: Seq<char>,
)
    requires
        runtime.volatile_dir@.len() > 0,
        runtime.volatile_dir@.last() != '/',
        !absolute(runtime.config.container.name@),
        runtime.config.container.name@.len() > 0,
        runtime.config.container.name@.last() != '/',
    ensures
        ({
            let steps = boot_steps(runtime, edition, inputs, link);
            let base = runtime.volatile_dir@ + "/"@ + runtime.config.container.name@;
            let root = if runtime.config.container.volatile {
                base + "/merged"@
            } else {
                inputs.rootfs@
            };
            &&& exists|i: int|
                #![trigger steps[i]]
                0 < i < steps.len() - 1 && steps[i - 1] == Action::ChangeDir(root) && steps[i] == (
                Action::PivotRoot { root: "."@, old: ".old_root"@ }) && steps[i + 1]
                    == Action::ChangeDir("/"@)
            &&& runtime.config.container.volatile ==> {
                &&& comes_first(
                    steps,
                    mounts_file_system("tmpfs"@, base, "tmpfs"@, 0x6, Some("mode=700"@)),
                    mounts_file_system(
                        "overlay"@,
                        root,
                        "overlay"@,
                        0,
                        Some(
                            "lowerdir="@ + inputs.rootfs@ + ",upperdir="@ + base
                                + "/upper,workdir="@ + base + "/work"@,
                        ),
                    ),
                )
                &&& comes_first(
                    steps,
                    mounts_file_system(
                        "overlay"@,
                        root,
                        "overlay"@,
                        0,
                        Some(
                            "lowerdir="@ + inputs.rootfs@ + ",upperdir="@ + base
                                + "/upper,workdir="@ + base + "/work"@,
                        ),
                    ),
                    Action::ChangeDir(root),
                )
                &&& steps.contains(Action::CreateDirAll(base + "/upper"@))
                &&& steps.contains(Action::CreateDirAll(base + "/work"@))
                &&& steps.contains(Action::CreateDirAll(base + "/merged"@))
            }
        }),
{
    let at = lemma_boot_layout(runtime, edition, inputs, link);
    let container = runtime.config.container;
    let steps = boot_steps(runtime, edition, inputs, link);
    let base = runtime.volatile_dir@ + "/"@ + container.name@;
    lemma_mount_flags();
    reveal_strlit("/");
    reveal_strlit("upper");
    reveal_strlit("work");
    reveal_strlit("merged");
    reveal_strlit("/work");
    reveal_strlit("/merged");
    reveal_strlit("/upper");
    reveal_strlit("/upper,workdir=");
    reveal_strlit(",workdir=");
    assert(volatile_base(runtime.volatile_dir@, container.name@) =~= base);
    assert(base.last() == container.name@.last());
    assert(join(base, "upper"@) =~= base + "/upper"@);
    assert(join(base, "work"@) =~= base + "/work"@);
    assert(join(base, "merged"@) =~= base + "/merged"@);
    assert(overlay_options(inputs.rootfs@, base) =~= "lowerdir="@ + inputs.rootfs@
        + ",upperdir="@ + base + "/upper,workdir="@ + base + "/work"@);
    let pivot = pivot_steps(effective_root(runtime, inputs), container.mounts@, inputs);
    let n: int = pivot.len() as int;
    assert(pivot[n - 3] == Action::ChangeDir(effective_root(runtime, inputs)));
    assert(pivot[n - 2] == (Action::PivotRoot { root: "."@, old: ".old_root"@ }));
    assert(pivot[n - 1] == Action::ChangeDir("/"@));
    assert(steps[at.1 + (n - 3)] == pivot[n - 3]);
    assert(steps[at.1 + (n - 2)] == pivot[n - 2]);
    assert(steps[at.1 + (n - 1)] == pivot[n - 1]);
    let i = at.1 + (n - 2);
    assert(steps[i - 1] == pivot[n - 3] && steps[i + 1] == pivot[n - 1]);
    if container.volatile {
        let layers = volatile_steps(inputs.rootfs@, base);
        assert(steps[at.0 + 1] == layers[1]);
        assert(steps[at.0 + 2] == layers[2]);
        assert(steps[at.0 + 3] == layers[3]);
        assert(steps[at.0 + 4] == layers[4]);
        assert(steps[at.0 + 5] == layers[5]);
    }
}

/// Where the steps of the change of the root stand.
proof fn lemma_pivot_places(root: Seq<char>, mounts: Seq<BindMount>, inputs: &BootInputs, k: int)
    -> (at: (int, int, int))
    ensures
        ({
            let pivot = pivot_steps(root, mounts, inputs);
            let console = console_steps(root, inputs.console);
            &&& at.0 == 6 + (if inputs.android {
                1int
            } else {
                0
            })
            &&& at.1 == at.0 + mounts.len()
            &&& at.2 == pivot.len() - 2 == at.1 + console.len() + 1
            &&& forall|i: int| 0 <= i < 6 ==> pivot[i] == #[trigger] directory_steps(root)[i]
            &&& inputs.android ==> pivot[6] == Action::AndroidBeforePivot(root)
            &&& 0 <= k < mounts.len() ==> pivot[at.0 + k] == (Action::RejectSymlinks {
                root,
                target: mounts[k].target@,
            })
            &&& forall|i: int| 0 <= i < console.len() ==> pivot[at.1 + i] == #[trigger] console[i]
            &&& pivot[at.2] == (Action::PivotRoot { root: "."@, old: ".old_root"@ })
        }),
{
    let shared = steps_if(inputs.android, seq![Action::AndroidBeforePivot(root)]);
    let checks = target_checks(root, mounts);
    let console = console_steps(root, inputs.console);
    let ending = seq![
        Action::ChangeDir(root),
        Action::PivotRoot { root: "."@, old: ".old_root"@ },
        Action::ChangeDir("/"@),
    ];
    let a = directory_steps(root);
    let pivot = pivot_steps(root, mounts, inputs);
    assert(pivot == a + shared + checks + console + ending);
    let x = 6 + shared.len() as int;
    let y = x + mounts.len();
    if 0 <= k < mounts.len() {
        assert(pivot[x + k] == checks[k]);
    }
    assert(pivot[y + console.len() + 1] == ending[1]);
    (x, y, y + console.len() + 1)
}

/// Before the root is changed the directories that the boot needs are made in
/// it.
#[verifier::rlimit(40)]
pub proof fn law_boot_prepares_its_root(
    runtime: &Runtime,
    edition: Edition,
    inputs: &BootInputs,
    link: Seq<char>,
)
    requires
        effective_root(runtime, inputs).len() > 0,
        effective_root(runtime, inputs).last() != '/',
    ensures
        ({
            let steps = boot_steps(runtime, edition, inputs, link);
            let root = effective_root(runtime, inputs);
            let changed = Action::PivotRoot { root: "."@, old: ".old_root"@ };
            &&& comes_first(steps, Action::CreateDirAll(root + "/.old_root"@), changed)
            &&& comes_first(steps, Action::CreateDirAll(root + "/proc"@), changed)
            &&& comes_first(steps, Action::CreateDirAll(root + "/sys"@), changed)
            &&& comes_first(steps, Action::CreateDirAll(root + "/dev"@), changed)
            &&& comes_first(steps, Action::CreateDirAll(root + "/run"@), changed)
            &&& comes_first(steps, Action::CreateDirAll(root + "/tmp"@), changed)
        }),
{
    let steps = boot_steps(runtime, edition, inputs, link);
    let root = effective_root(runtime, inputs);
    let (start, turn) = lemma_boot_directories(runtime, edition, inputs, link);
    lemma_root_places(root);
    let made = directory_steps(root);
    assert(steps[start + 0] == made[0]);
    assert(steps[start + 1] == made[1]);
    assert(steps[start + 2] == made[2]);
    assert(steps[start + 3] == made[3]);
    assert(steps[start + 4] == made[4]);
    assert(steps[start + 5] == made[5]);
}

#[verifier::rlimit(40)]
proof fn lemma_boot_directories(
    runtime: &Runtime,
    edition: Edition,
    inputs: &BootInputs,
    link: Seq<char>,
) -> (at: (int, int))
    ensures
        ({
            let steps = boot_steps(runtime, edition, inputs, link);
            let made = directory_steps(effective_root(runtime, inputs));
            &&& 0 <= at.0
            &&& at.0 + 6 <= at.1 < steps.len()
            &&& steps[at.1] == (Action::PivotRoot { root: "."@, old: ".old_root"@ })
            &&& forall|i: int| 0 <= i < 6 ==> steps[at.0 + i] == #[trigger] made[i]
        }),
{
    let at = lemma_boot_layout(runtime, edition, inputs, link);
    let mounts = runtime.config.container.mounts@;
    let root = effective_root(runtime, inputs);
    let steps = boot_steps(runtime, edition, inputs, link);
    let pivot = pivot_steps(root, mounts, inputs);
    let made = directory_steps(root);
    let place = lemma_pivot_places(root, mounts, inputs, 0);
    assert(steps[at.1 + place.2] == pivot[place.2]);
    assert forall|i: int| 0 <= i < 6 implies steps[at.1 + i] == #[trigger] made[i] by {
        assert(steps[at.1 + i] == pivot[i]);
    }
    (at.1, at.1 + place.2)
}

/// Where the change of the root stands in a boot.
proof fn lemma_boot_pivot(runtime: &Runtime, edition: Edition, inputs: &BootInputs, link: Seq<char>)
    -> (start: int)
    ensures
        ({
            let steps = boot_steps(runtime, edition, inputs, link);
            let pivot = pivot_steps(
                effective_root(runtime, inputs),
                runtime.config.container.mounts@,
                inputs,
            );
            &&& 0 < start
            &&& start + pivot.len() < steps.len()
            &&& forall|i: int| 0 <= i < pivot.len() ==> steps[start + i] == #[trigger] pivot[i]
        }),
{
    let at = lemma_boot_layout(runtime, edition, inputs, link);
    at.1
}

proof fn lemma_in_order(steps: Steps, part: Steps, start: int, i: int, j: int)
    requires
        0 <= start,
        start + part.len() <= steps.len(),
        forall|n: int| 0 <= n < part.len() ==> steps[start + n] == #[trigger] part[n],
        0 <= i < j < part.len(),
    ensures
        comes_first(steps, part[i], part[j]),
{
    assert(steps[start + i] == part[i]);
    assert(steps[start + j] == part[j]);
}

/// Before the root is changed every bind target has been looked at for
/// symbolic links, and what an Android host shares is in place.
#[verifier::rlimit(40)]
pub proof fn law_boot_checks_its_root(
    runtime: &Runtime,
    edition: Edition,
    inputs: &BootInputs,
    link: Seq<char>,
    k: int,
)
    ensures
        ({
            let steps = boot_steps(runtime, edition, inputs, link);
            let root = effective_root(runtime, inputs);
            let mounts = runtime.config.container.mounts@;
            let changed = Action::PivotRoot { root: "."@, old: ".old_root"@ };
            &&& 0 <= k < mounts.len() ==> comes_first(
                steps,
                Action::RejectSymlinks { root, target: mounts[k].target@ },
                changed,
            )
            &&& inputs.android ==> comes_first(steps, Action::AndroidBeforePivot(root), changed)
        }),
{
    let mounts = runtime.config.container.mounts@;
    let root = effective_root(runtime, inputs);
    let steps = boot_steps(runtime, edition, inputs, link);
    let pivot = pivot_steps(root, mounts, inputs);
    let start = lemma_boot_pivot(runtime, edition, inputs, link);
    let place = lemma_pivot_places(root, mounts, inputs, k);
    if 0 <= k < mounts.len() {
        lemma_in_order(steps, pivot, start, place.0 + k, place.2);
    }
    if inputs.android {
        lemma_in_order(steps, pivot, start, 6, place.2);
    }
}

/// A container with a console finds it in its root: the device is bound to the
/// place of the console before the root is changed.
#[verifier::rlimit(40)]
pub proof fn law_boot_binds_the_console(
    runtime: &Runtime,
    edition: Edition,
    inputs: &BootInputs,
    link: Seq<char>,
)
    requires
        effective_root(runtime, inputs).len() > 0,
        effective_root(runtime, inputs).last() != '/',
        inputs.console is Some,
    ensures
        ({
            let steps = boot_steps(runtime, edition, inputs, link);
            let place = effective_root(runtime, inputs) + "/dev/console"@;
            let bound = shares_device(inputs.console->0@, place);
            &&& comes_first(steps, Action::CreateFile(place), bound)
            &&& comes_first(steps, bound, Action::PivotRoot { root: "."@, old: ".old_root"@ })
        }),
{
    let mounts = runtime.config.container.mounts@;
    let root = effective_root(runtime, inputs);
    let steps = boot_steps(runtime, edition, inputs, link);
    let pivot = pivot_steps(root, mounts, inputs);
    let start = lemma_boot_pivot(runtime, edition, inputs, link);
    let place = lemma_pivot_places(root, mounts, inputs, 0);
    lemma_root_places(root);
    let console = console_steps(root, inputs.console);
    let c: int = console.len() as int;
    assert(console[c - 2] == Action::CreateFile(root + "/dev/console"@));
    assert(console[c - 1] == shares_device(inputs.console->0@, root + "/dev/console"@));
    assert(pivot[place.1 + (c - 2)] == console[c - 2]);
    assert(pivot[place.1 + (c - 1)] == console[c - 1]);
    lemma_in_order(steps, pivot, start, place.1 + (c - 2), place.1 + (c - 1));
    lemma_in_order(steps, pivot, start, place.1 + (c - 1), place.2);
}

proof fn lemma_root_places(root: Seq<char>)
    requires
        root.len() > 0,
        root.last() != '/',
    ensures
        join(root, ".old_root"@) == root + "/.old_root"@,
        join(root, "proc"@) == root + "/proc"@,
        join(root, "sys"@) == root + "/sys"@,
        join(root, "dev"@) == root + "/dev"@,
        join(root, "run"@) == root + "/run"@,
        join(root, "tmp"@) == root + "/tmp"@,
        join(root, "dev/console"@) == root + "/dev/console"@,
{
    reveal_strlit(".old_root");
    reveal_strlit("proc");
    reveal_strlit("sys");
    reveal_strlit("dev");
    reveal_strlit("run");
    reveal_strlit("tmp");
    reveal_strlit("dev/console");
    reveal_strlit("/.old_root");
    reveal_strlit("/proc");
    reveal_strlit("/sys");
    reveal_strlit("/dev");
    reveal_strlit("/run");
    reveal_strlit("/tmp");
    reveal_strlit("/dev/console");
    assert(join(root, ".old_root"@) =~= root + "/.old_root"@);
    assert(join(root, "proc"@) =~= root + "/proc"@);
    assert(join(root, "sys"@) =~= root + "/sys"@);
    assert(join(root, "dev"@) =~= root + "/dev"@);
    assert(join(root, "run"@) =~= root + "/run"@);
    assert(join(root, "tmp"@) =~= root + "/tmp"@);
    assert(join(root, "dev/console"@) =~= root + "/dev/console"@);
}

/// The configured mounts are bound while the old root is still there, and
/// after the devices; only then the old root is given up, and its place is
/// removed. In the new root the container gets its address, its name servers
/// and its name, and the files by which it is known again.
#[verifier::rlimit(40)]
pub proof fn law_boot_settles_in_its_root(
    runtime: &Runtime,
    edition: Edition,
    inputs: &BootInputs,
    link: Seq<char>,
)
    ensures
        ({
            let steps = boot_steps(runtime, edition, inputs, link);
            let container = runtime.config.container;
            let given_up = Action::Unmount { path: "/.old_root"@, detach: true };
            let own = if edition == Edition::Gnosis {
                "/run/gnosis"@
            } else {
                "/run/kurumi-containerd"@
            };
            let transient = mounts_file_system(
                "tmpfs"@,
                "/run"@,
                "tmpfs"@,
                0x6,
                Some("mode=755"@),
            );
            &&& comes_first(steps, transient, Action::BindMounts)
            &&& comes_first(steps, Action::BindMounts, given_up)
            &&& comes_first(steps, given_up, Action::RemoveDirQuietly("/.old_root"@))
            &&& inputs.android ==> comes_first(
                steps,
                Action::AndroidAfterPivot,
                Action::BindMounts,
            )
            &&& steps.contains(Action::Dhcp) ==> edition == Edition::Kurumi
            &&& edition == Edition::Kurumi ==> comes_first(
                steps,
                Action::Dhcp,
                Action::WriteDns("/"@),
            )
            &&& comes_first(steps, given_up, Action::WriteDns("/"@))
            &&& steps.contains(Action::SetHostname(container.hostname@))
            &&& comes_first(
                steps,
                Action::CreateDirAll(own),
                Action::WriteFile { path: own + "/name"@, contents: container.name@ },
            )
            &&& comes_first(steps, given_up, Action::CreateDirAll(own))
            &&& steps.contains(
                Action::WriteFile { path: own + "/uuid"@, contents: hyphenated(inputs.uuid) },
            )
            &&& steps.contains(
                Action::WriteFile { path: own + "/version"@, contents: inputs.version@ },
            )
            &&& steps.contains(
                Action::WriteFile {
                    path: own + "/container.toml"@,
                    contents: inputs.config_text@,
                },
            )
        }),
{
    let at = lemma_boot_layout(runtime, edition, inputs, link);
    let container = runtime.config.container;
    let steps = boot_steps(runtime, edition, inputs, link);
    let tree = device_tree_steps();
    let detach = detach_steps(edition, container.hostname@, inputs);
    let identity = identity_steps(edition, container.name@, inputs);
    lemma_mount_flags();
    assert(tree[0] == mounts_file_system("tmpfs"@, "/run"@, "tmpfs"@, 0x6, Some("mode=755"@)));
    assert(steps[at.3 + 0] == tree[0]);
    let o: int = if inputs.android {
        1
    } else {
        0
    };
    if inputs.android {
        assert(detach[0] == Action::<Seq<char>>::AndroidAfterPivot);
        assert(steps[at.4 + 0] == detach[0]);
    }
    assert(detach[o] == Action::<Seq<char>>::BindMounts);
    assert(detach[o + 1] == (Action::Unmount { path: "/.old_root"@, detach: true }));
    assert(detach[o + 2] == Action::RemoveDirQuietly("/.old_root"@));
    assert(steps[at.4 + o] == detach[o]);
    assert(steps[at.4 + (o + 1)] == detach[o + 1]);
    assert(steps[at.4 + (o + 2)] == detach[o + 2]);
    let d: int = if edition == Edition::Kurumi {
        1
    } else {
        0
    };
    if edition == Edition::Kurumi {
        assert(detach[o + 3] == Action::<Seq<char>>::Dhcp);
        assert(steps[at.4 + (o + 3)] == detach[o + 3]);
    } else {
        lemma_no_address_is_asked_for(runtime, edition, inputs, link);
    }
    assert(detach[o + 3 + d] == Action::WriteDns("/"@));
    assert(detach[o + 4 + d] == Action::SetHostname(container.hostname@));
    assert(steps[at.4 + (o + 3 + d)] == detach[o + 3 + d]);
    assert(steps[at.4 + (o + 4 + d)] == detach[o + 4 + d]);
    assert(steps[at.5 + 0] == identity[0]);
    assert(steps[at.5 + 1] == identity[1]);
    assert(steps[at.5 + 2] == identity[2]);
    assert(steps[at.5 + 3] == identity[3]);
    assert(steps[at.5 + 4] == identity[4]);
}

#[verifier::rlimit(40)]
proof fn lemma_no_address_is_asked_for(
    runtime: &Runtime,
    edition: Edition,
    inputs: &BootInputs,
    link: Seq<char>,
)
    requires
        edition != Edition::Kurumi,
    ensures
        !boot_steps(runtime, edition, inputs, link).contains(Action::Dhcp),
{
    let container = runtime.config.container;
    let steps = boot_steps(runtime, edition, inputs, link);
    let root = effective_root(runtime, inputs);
    let pivot = pivot_steps(root, container.mounts@, inputs);
    let layers = steps_if(
        container.volatile,
        volatile_steps(inputs.rootfs@, volatile_base(runtime.volatile_dir@, container.name@)),
    );
    let tree = device_tree_steps();
    let dhcp = Action::<Seq<char>>::Dhcp;
    assert(!isolation_steps(edition, inputs).contains(dhcp));
    assert(!layers.contains(dhcp));
    assert(!target_checks(root, container.mounts@).contains(dhcp));
    assert(!pivot.contains(dhcp));
    assert(!kernel_steps(inputs).contains(dhcp));
    assert(!tree.contains(dhcp));
    assert(!detach_steps(edition, container.hostname@, inputs).contains(dhcp));
    assert(!identity_steps(edition, container.name@, inputs).contains(dhcp));
    assert(!final_steps(container.init@).contains(dhcp));
}

/// Only systemd gets control groups of its own, after the file system that
/// they are in: the unified hierarchy, or on older hosts one without
/// controllers.
#[verifier::rlimit(40)]
pub proof fn law_systemd_gets_control_groups(
    runtime: &Runtime,
    edition: Edition,
    inputs: &BootInputs,
    link: Seq<char>,
)
    ensures
        ({
            let steps = boot_steps(runtime, edition, inputs, link);
            let system = mounts_file_system("sysfs"@, "/sys"@, "sysfs"@, 0xe, None);
            let base = mounts_file_system(
                "none"@,
                "/sys/fs/cgroup"@,
                "tmpfs"@,
                0xe,
                Some("mode=755,size=16M"@),
            );
            inputs.init_system == InitSystem::Systemd ==> {
                &&& comes_first(steps, system, base)
                &&& comes_first(steps, Action::CreateDirAll("/sys/fs/cgroup"@), base)
                &&& inputs.host_cgroup_v2 ==> comes_first(
                    steps,
                    base,
                    mounts_file_system("cgroup2"@, "/sys/fs/cgroup"@, "cgroup2"@, 0xe, None),
                )
                &&& !inputs.host_cgroup_v2 ==> comes_first(
                    steps,
                    Action::CreateDirAll("/sys/fs/cgroup/systemd"@),
                    mounts_file_system(
                        "cgroup"@,
                        "/sys/fs/cgroup/systemd"@,
                        "cgroup"@,
                        0xe,
                        Some("none,name=systemd"@),
                    ),
                )
            }
        }),
{
    let at = lemma_boot_layout(runtime, edition, inputs, link);
    let steps = boot_steps(runtime, edition, inputs, link);
    let kernel = kernel_steps(inputs);
    lemma_mount_flags();
    assert(steps[at.2 + 1] == kernel[1]);
    if inputs.init_system == InitSystem::Systemd {
        assert(steps[at.2 + 2] == kernel[2]);
        assert(steps[at.2 + 3] == kernel[3]);
        assert(steps[at.2 + 4] == kernel[4]);
        if !inputs.host_cgroup_v2 {
            assert(steps[at.2 + 5] == kernel[5]);
        }
    }
}

// ---------------------------------------------------------------------------
// Bind mounts
// ---------------------------------------------------------------------------
/// The kinds of components in the order in which paths are compared.
pub open spec fn kind_rank(component: Component<Seq<char>>) -> int {
    match component {
        Component::RootDir => 0,
        Component::CurDir => 1,
        Component::ParentDir => 2,
        Component::Normal(name) => 3,
    }
}

/// Whether a component comes before another.
pub open spec fn component_before(a: Component<Seq<char>>, b: Component<Seq<char>>) -> bool {
    match (a, b) {
        (Component::Normal(x), Component::Normal(y)) => precedes(x, y),
        _ => kind_rank(a) < kind_rank(b),
    }
}

/// Whether a list of components comes before another of the same length, or
/// is the same, from position `i` on.
pub open spec fn components_no_later(
    a: Seq<Component<Seq<char>>>,
    b: Seq<Component<Seq<char>>>,
    i: int,
) -> bool
    decreases a.len() - i,
{
    if i < 0 || i >= a.len() {
        true
    } else if component_before(a[i], b[i]) {
        true
    } else if component_before(b[i], a[i]) {
        false
    } else {
        components_no_later(a, b, i + 1)
    }
}

/// Whether a bind target is mounted before another, or ties with it: shorter
/// targets first, and those of one length in the order of their components.
pub open spec fn target_no_later(
    a: Seq<Component<Seq<char>>>,
    b: Seq<Component<Seq<char>>>,
) -> bool {
    a.len() < b.len() || (a.len() == b.len() && components_no_later(a, b, 0))
}

proof fn lemma_component_total(a: Component<Seq<char>>, b: Component<Seq<char>>)
    ensures
        a == b || component_before(a, b) || component_before(b, a),
        !(component_before(a, b) && component_before(b, a)),
        a == b ==> !component_before(a, b),
{
    match (a, b) {
        (Component::Normal(x), Component::Normal(y)) => {
            lemma_precedes_total(x, y);
        },
        _ => {},
    }
}

proof fn lemma_component_transitive(
    a: Component<Seq<char>>,
    b: Component<Seq<char>>,
    c: Component<Seq<char>>,
)
    requires
        component_before(a, b),
        component_before(b, c),
    ensures
        component_before(a, c),
{
    match (a, b, c) {
        (Component::Normal(x), Component::Normal(y), Component::Normal(z)) => {
            lemma_precedes_transitive(x, y, z);
        },
        _ => {},
    }
}

proof fn lemma_components_total(
    a: Seq<Component<Seq<char>>>,
    b: Seq<Component<Seq<char>>>,
    i: int,
)
    requires
        a.len() == b.len(),
        0 <= i,
    ensures
        components_no_later(a, b, i) || components_no_later(b, a, i),
    decreases a.len() - i,
{
    if i < a.len() {
        lemma_component_total(a[i], b[i]);
        lemma_components_total(a, b, i + 1);
    }
}

proof fn lemma_components_transitive(
    a: Seq<Component<Seq<char>>>,
    b: Seq<Component<Seq<char>>>,
    c: Seq<Component<Seq<char>>>,
    i: int,
)
    requires
        a.len() == b.len() == c.len(),
        0 <= i,
        components_no_later(a, b, i),
        components_no_later(b, c, i),
    ensures
        components_no_later(a, c, i),
    decreases a.len() - i,
{
    if i < a.len() {
        lemma_component_total(a[i], b[i]);
        lemma_component_total(b[i], c[i]);
        lemma_component_total(a[i], c[i]);
        if component_before(a[i], b[i]) && component_before(b[i], c[i]) {
            lemma_component_transitive(a[i], b[i], c[i]);
        } else if a[i] == b[i] && b[i] == c[i] {
            lemma_components_transitive(a, b, c, i + 1);
        }
    }
}

/// A bind target by its components.
pub struct TargetRank {
    pub components: Vec<Component<String>>,
}

fn component_is_before(a: &Component<String>, b: &Component<String>) -> (result: bool)
    ensures
        result == component_before(a@, b@),
{
    match (a, b) {
        (Component::Normal(x), Component::Normal(y)) => match compare_texts(x, y) {
            Side::Before => true,
            _ => false,
        },
        (Component::RootDir, Component::RootDir) => false,
        (Component::RootDir, _) => true,
        (Component::CurDir, Component::RootDir) => false,
        (Component::CurDir, Component::CurDir) => false,
        (Component::CurDir, _) => true,
        (Component::ParentDir, Component::Normal(_)) => true,
        _ => false,
    }
}

impl Ranked for TargetRank {
    open spec fn no_later(&self, other: &Self) -> bool {
        target_no_later(views(self.components@), views(other.components@))
    }

    fn is_no_later(&self, other: &Self) -> (result: bool) {
        let ghost a = views(self.components@);
        let ghost b = views(other.components@);
        if self.components.len() != other.components.len() {
            return self.components.len() < other.components.len();
        }
        let mut i: usize = 0;
        while i < self.components.len()
            invariant
                i <= self.components@.len(),
                self.components@.len() == other.components@.len(),
                a == views(self.components@),
                b == views(other.components@),
                components_no_later(a, b, 0) == components_no_later(a, b, i as int),
            decreases self.components.len() - i,
        {
            assert(a[i as int] == self.components@[i as int]@);
            assert(b[i as int] == other.components@[i as int]@);
            if component_is_before(&self.components[i], &other.components[i]) {
                return true;
            }
            if component_is_before(&other.components[i], &self.components[i]) {
                return false;
            }
            i += 1;
        }
        true
    }

    proof fn lemma_total(&self, other: &Self) {
        let a = views(self.components@);
        let b = views(other.components@);
        if a.len() == b.len() {
            lemma_components_total(a, b, 0);
        }
    }

    proof fn lemma_transitive(&self, middle: &Self, other: &Self) {
        let a = views(self.components@);
        let b = views(middle.components@);
        let c = views(other.components@);
        if a.len() == b.len() && b.len() == c.len() {
            lemma_components_transitive(a, b, c, 0);
        }
    }
}

/// Whether `order` lists the bind mounts in the order in which they are made.
pub open spec fn bind_ordered(mounts: Seq<BindMount>, order: Seq<usize>) -> bool {
    &&& lists_all(order, mounts.len() as int)
    &&& forall|i: int, j: int|
        #![trigger order[i], order[j]]
        0 <= i < j < order.len() ==> {
            let first = components(mounts[order[i] as int].target@);
            let second = components(mounts[order[j] as int].target@);
            &&& target_no_later(first, second)
            &&& target_no_later(second, first) ==> order[i] < order[j]
        }
}

/// The order in which bind mounts are made.
pub fn bind_order(mounts: &Vec<BindMount>) -> (order: Vec<usize>)
    ensures
        bind_ordered(mounts@, order@),
{
    let mut ranks: Vec<TargetRank> = Vec::new();
    let mut i: usize = 0;
    while i < mounts.len()
        invariant
            i <= mounts@.len(),
            ranks@.len() == i,
            forall|k: int|
                #![trigger ranks@[k]]
                0 <= k < i ==> views(ranks@[k].components@) == components(mounts@[k].target@),
        decreases mounts.len() - i,
    {
        ranks.push(TargetRank { components: path_components(&mounts[i].target) });
        i += 1;
    }
    let order = stable_order(&ranks);
    proof {
        assert forall|i: int, j: int|
            #![trigger order@[i], order@[j]]
            0 <= i < j < order@.len() implies {
            let first = components(mounts@[order@[i] as int].target@);
            let second = components(mounts@[order@[j] as int].target@);
            &&& target_no_later(first, second)
            &&& target_no_later(second, first) ==> order@[i] < order@[j]
        } by {
            assert(in_order(ranks@, order@[i], order@[j]));
            let a = ranks@[order@[i] as int];
            let b = ranks@[order@[j] as int];
        }
    }
    order
}

/// A bind mount below another one is made after it, so that it is not hidden.
pub proof fn law_parents_are_bound_first(mounts: Seq<BindMount>, order: Seq<usize>, i: int, j: int)
    requires
        bind_ordered(mounts, order),
        0 <= i < order.len(),
        0 <= j < order.len(),
        components(mounts[order[i] as int].target@).len() < components(
            mounts[order[j] as int].target@,
        ).len(),
        components(mounts[order[j] as int].target@).take(
            components(mounts[order[i] as int].target@).len() as int,
        ) == components(mounts[order[i] as int].target@),
    ensures
        i < j,
{
    if j < i {
        assert(order[j] != order[i]);
    }
}

/// Where the source of a bind mount is while the old root is still there.
pub open spec fn bind_source(mount: BindMount) -> Seq<char> {
    join("/.old_root"@, below_root(mount.source@))
}

/// Where a bind mount is seen.
pub open spec fn bind_place(mount: BindMount) -> Seq<char> {
    join("/"@, below_root(mount.target@))
}

/// Where the source of a bind mount is while the old root is still there.
pub fn bind_source_path(mount: &BindMount) -> (path: String)
    ensures
        path@ == bind_source(*mount),
{
    join_paths("/.old_root", &strip_root(&mount.source))
}

/// The steps of one bind mount, where `presence` says what its source is.
pub open spec fn bind_mount_steps(edition: Edition, mount: BindMount, presence: Presence) -> Steps {
    let source = bind_source(mount);
    let target = bind_place(mount);
    seq![Action::RejectSymlinks { root: "/"@, target: mount.target@ }] + (match presence {
        Presence::Missing => seq![Action::ReportMissing { source, target }],
        Presence::Directory => seq![Action::CreateDirAll(target)],
        Presence::File => (match parent(target) {
            Some(directory) => seq![Action::CreateDirAll(directory)],
            None => Seq::empty(),
        }).push(
            if edition == Edition::Kurumi {
                Action::CreateMissingFile(target)
            } else {
                Action::CreateFile(target)
            },
        ),
    }) + seq![mount_step(Some(source), target, None, RECURSIVE_BIND, None)] + steps_if(
        mount.read_only,
        seq![seal_step(target)],
    )
}

/// The steps of the first `count` bind mounts in this order.
pub open spec fn bind_steps(
    edition: Edition,
    mounts: Seq<BindMount>,
    presences: Seq<Presence>,
    order: Seq<usize>,
    count: int,
) -> Steps
    decreases count,
{
    if count <= 0 {
        Seq::empty()
    } else {
        let index = order[count - 1] as int;
        bind_steps(edition, mounts, presences, order, count - 1) + bind_mount_steps(
            edition,
            mounts[index],
            presences[index],
        )
    }
}

fn push_bind_mount(
    plan: &mut Vec<Action<String>>,
    edition: Edition,
    bind_mount: &BindMount,
    presence: Presence,
)
    ensures
        views(final(plan)@) == views(old(plan)@) + bind_mount_steps(
            edition,
            *bind_mount,
            presence,
        ),
{
    broadcast use {lemma_views_push, lemma_views_empty};

    let source = bind_source_path(bind_mount);
    let target = join_paths("/", &strip_root(&bind_mount.target));
    plan.push(
        Action::RejectSymlinks { root: "/".to_owned(), target: bind_mount.target.clone() },
    );
    match presence {
        Presence::Missing => {
            plan.push(Action::ReportMissing { source: source.clone(), target: target.clone() });
        },
        Presence::Directory => {
            plan.push(create_dir_all(&target));
        },
        Presence::File => {
            if let Some(directory) = parent_path(&target) {
                plan.push(create_dir_all(&directory));
            }
            if edition == Edition::Kurumi {
                plan.push(Action::CreateMissingFile(target.clone()));
            } else {
                plan.push(create_file(&target));
            }
        },
    }
    plan.push(mount(Some(&source), &target, None, RECURSIVE_BIND, None));
    if bind_mount.read_only {
        plan.push(seal(&target));
    }
    assert(views(plan@) =~= views(old(plan)@) + bind_mount_steps(edition, *bind_mount, presence));
}

/// The steps that bind the configured mounts, where `presences` says what the
/// source of each is.
pub fn mount_binds_inside(
    edition: Edition,
    mounts: &Vec<BindMount>,
    presences: &Vec<Presence>,
) -> (plan: Vec<Action<String>>)
    requires
        presences@.len() == mounts@.len(),
    ensures
        exists|order: Seq<usize>|
            #[trigger] bind_ordered(mounts@, order) && views(plan@) == bind_steps(
                edition,
                mounts@,
                presences@,
                order,
                mounts@.len() as int,
            ),
{
    broadcast use {lemma_views_push, lemma_views_empty};

    let order = bind_order(mounts);
    let mut plan: Vec<Action<String>> = Vec::new();
    let mut i: usize = 0;
    assert(views(plan@) =~= bind_steps(edition, mounts@, presences@, order@, 0));
    while i < order.len()
        invariant
            i <= order@.len(),
            presences@.len() == mounts@.len(),
            bind_ordered(mounts@, order@),
            views(plan@) == bind_steps(edition, mounts@, presences@, order@, i as int),
        decreases order.len() - i,
    {
        let index: usize = order[i];
        assert(order@[i as int] < mounts@.len());
        push_bind_mount(&mut plan, edition, &mounts[index], presences[index]);
        i += 1;
    }
    plan
}

/// Whether a path is absolute and names something in plain words: nothing in it
/// needs to be settled.
pub open spec fn plain_absolute(path: Seq<char>) -> bool {
    &&& path.len() > 1
    &&& path[0] == '/'
    &&& path[1] != '/'
    &&& path[1] != '.'
    &&& path.last() != '/'
    &&& path.last() != '.'
}

/// A bind mount is seen where its target says, and its source is found below
/// the old root where it was on the host.
pub proof fn law_bind_paths(mount: BindMount)
    requires
        plain_absolute(mount.source@),
        plain_absolute(mount.target@),
    ensures
        bind_source(mount) == "/.old_root"@ + mount.source@,
        bind_place(mount) == mount.target@,
{
    let source = mount.source@;
    let target = mount.target@;
    let a = source.skip(1);
    let b = target.skip(1);
    assert(source =~= seq!['/'] + a);
    assert(target =~= seq!['/'] + b);
    law_absolute_paths_lose_their_root(a);
    law_absolute_paths_lose_their_root(b);
    reveal_strlit("/.old_root");
    reveal_strlit("/");
    assert(join("/.old_root"@, a) =~= "/.old_root"@ + source);
    assert(join("/"@, b) =~= target);
}

/// Where the steps of one bind mount stand among those of all.
proof fn lemma_bind_steps(
    edition: Edition,
    mounts: Seq<BindMount>,
    presences: Seq<Presence>,
    order: Seq<usize>,
    count: int,
    n: int,
) -> (at: int)
    requires
        0 <= n < count <= order.len(),
    ensures
        ({
            let all = bind_steps(edition, mounts, presences, order, count);
            let own = bind_mount_steps(
                edition,
                mounts[order[n] as int],
                presences[order[n] as int],
            );
            &&& 0 <= at
            &&& at + own.len() <= all.len()
            &&& forall|i: int| 0 <= i < own.len() ==> all[at + i] == #[trigger] own[i]
            &&& at + own.len() < all.len() ==> all[at + own.len()] is RejectSymlinks
        }),
    decreases count,
{
    let index = order[count - 1] as int;
    let before = bind_steps(edition, mounts, presences, order, count - 1);
    let last = bind_mount_steps(edition, mounts[index], presences[index]);
    assert(last[0] is RejectSymlinks);
    if n == count - 1 {
        before.len() as int
    } else {
        let at = lemma_bind_steps(edition, mounts, presences, order, count - 1, n);
        let own = bind_mount_steps(edition, mounts[order[n] as int], presences[order[n] as int]);
        assert forall|i: int| 0 <= i < own.len() implies (before + last)[at + i]
            == #[trigger] own[i] by {
            assert(before[at + i] == own[i]);
        }
        at
    }
}

/// Every configured mount is made: its target is looked at for symbolic links,
/// a place for it is made or its missing source reported, and what the host
/// has at its source is shown at its target, with everything below. It is made
/// read-only exactly where the configuration says so.
pub proof fn law_every_bind_mount_is_made(
    edition: Edition,
    mounts: Seq<BindMount>,
    presences: Seq<Presence>,
    order: Seq<usize>,
    k: int,
)
    requires
        bind_ordered(mounts, order),
        0 <= k < mounts.len() <= usize::MAX,
        plain_absolute(mounts[k].source@),
        plain_absolute(mounts[k].target@),
    ensures
        ({
            let steps = bind_steps(edition, mounts, presences, order, mounts.len() as int);
            let source = "/.old_root"@ + mounts[k].source@;
            let target = mounts[k].target@;
            exists|i: int|
                #![trigger steps[i]]
                {
                    &&& 1 < i + 1 <= steps.len()
                    &&& steps[i] == Action::Mount(
                        Mount {
                            source: Some(source),
                            target,
                            filesystem: None,
                            flags: 0x5000,
                            data: None,
                        },
                    )
                    &&& match presences[k] {
                        Presence::Missing => steps[i - 1] == (Action::ReportMissing {
                            source,
                            target,
                        }),
                        Presence::Directory => steps[i - 1] == Action::CreateDirAll(target),
                        Presence::File => steps[i - 1] == (if edition == Edition::Kurumi {
                            Action::CreateMissingFile(target)
                        } else {
                            Action::CreateFile(target)
                        }),
                    }
                    &&& exists|j: int|
                        0 <= j < i && #[trigger] steps[j] == (Action::RejectSymlinks {
                            root: "/"@,
                            target,
                        })
                    &&& if mounts[k].read_only {
                        i + 1 < steps.len() && steps[i + 1] == Action::Mount(
                            Mount {
                                source: None,
                                target,
                                filesystem: None,
                                flags: 0x1021,
                                data: None,
                            },
                        )
                    } else {
                        i + 1 == steps.len() || steps[i + 1] is RejectSymlinks
                    }
                }
        }),
{
    let steps = bind_steps(edition, mounts, presences, order, mounts.len() as int);
    lemma_all_listed(order, mounts.len() as int);
    assert(order.contains(k as usize));
    let n = choose|n: int| 0 <= n < order.len() && order[n] == k as usize;
    let at = lemma_bind_steps(edition, mounts, presences, order, mounts.len() as int, n);
    law_bind_paths(mounts[k]);
    lemma_mount_flags();
    let own = bind_mount_steps(edition, mounts[k], presences[k]);
    let sealed: int = if mounts[k].read_only {
        1
    } else {
        0
    };
    let m = own.len() - 1 - sealed;
    assert(own[0] == (Action::RejectSymlinks { root: "/"@, target: mounts[k].target@ }));
    assert(steps[at + 0] == own[0]);
    assert(steps[at + m] == own[m]);
    assert(steps[at + (m - 1)] == own[m - 1]);
    if mounts[k].read_only {
        assert(steps[at + (m + 1)] == own[m + 1]);
    }
    let i = at + m;
    assert(steps[i - 1] == own[m - 1]);
    assert(steps[i + 1] == steps[at + (m + 1)]);
}

// ---------------------------------------------------------------------------
// Symbolic links
// ---------------------------------------------------------------------------
/// A component as text.
pub open spec fn component_text(component: Component<Seq<char>>) -> Seq<char> {
    match component {
        Component::RootDir => "/"@,
        Component::CurDir => "."@,
        Component::ParentDir => ".."@,
        Component::Normal(name) => name,
    }
}

/// The path that `count` components lead to from a root.
pub open spec fn path_along(root: Seq<char>, parts: Seq<Component<Seq<char>>>, count: int) -> Seq<
    char,
>
    decreases count,
{
    if count <= 0 {
        root
    } else {
        join(path_along(root, parts, count - 1), component_text(parts[count - 1]))
    }
}

/// The paths on the way from a root to a target.
pub open spec fn paths_along(root: Seq<char>, target: Seq<char>) -> Seq<Seq<char>> {
    let parts = components(below_root(target));
    Seq::new(parts.len(), |i: int| path_along(root, parts, i + 1))
}

/// The paths on the way from a root to a target, in the order in which they
/// are looked at.
pub fn symlink_probes(root: &str, target: &str) -> (paths: Vec<String>)
    ensures
        views(paths@) == paths_along(root@, target@),
{
    broadcast use {lemma_views_push, lemma_views_empty};

    let stripped = strip_root(target);
    let parts = path_components(&stripped);
    let ghost model = components(below_root(target@));
    assert(model.len() == parts@.len());
    let mut current = root.to_owned();
    let mut paths: Vec<String> = Vec::new();
    let mut i: usize = 0;
    while i < parts.len()
        invariant
            i <= parts@.len(),
            model == views(parts@),
            model == components(below_root(target@)),
            current@ == path_along(root@, model, i as int),
            views(paths@) == paths_along(root@, target@).take(i as int),
        decreases parts.len() - i,
    {
        broadcast use {lemma_views_push, lemma_views_empty};

        assert(model[i as int] == parts@[i as int]@);
        let next = match &parts[i] {
            Component::RootDir => join_paths(&current, "/"),
            Component::CurDir => join_paths(&current, "."),
            Component::ParentDir => join_paths(&current, ".."),
            Component::Normal(name) => join_paths(&current, name),
        };
        assert(next@ == path_along(root@, model, i + 1));
        paths.push(next.clone());
        current = next;
        i += 1;
        assert(paths_along(root@, target@).take(i as int) =~= paths_along(root@, target@).take(
            i - 1,
        ).push(current@));
    }
    assert(paths_along(root@, target@).take(i as int) =~= paths_along(root@, target@));
    paths
}

/// The way to a target leads from the root one component at a time, and ends
/// after the last one.
pub proof fn law_way_is_looked_at_step_by_step(root: Seq<char>, target: Seq<char>, i: int)
    requires
        0 <= i < paths_along(root, target).len(),
    ensures
        paths_along(root, target).len() == components(below_root(target)).len(),
        ({
            let before = if i == 0 {
                root
            } else {
                paths_along(root, target)[i - 1]
            };
            paths_along(root, target)[i] == match components(below_root(target))[i] {
                Component::RootDir => join(before, "/"@),
                Component::CurDir => join(before, "."@),
                Component::ParentDir => join(before, ".."@),
                Component::Normal(name) => join(before, name),
            }
        }),
{
    reveal_with_fuel(path_along, 2);
}

/// What stands at a path on the way.
#[derive(Clone, Copy, Debug, PartialEq, Eq, Structural)]
pub enum NodeKind {
    Missing,
    Symlink,
    Other,
    /// It could not be looked at.
    Unknown,
}

/// Why a bind target is refused, with the position on the way.
#[derive(Clone, Copy, Debug, PartialEq, Eq, Structural)]
pub enum SymlinkError {
    Symlink(usize),
    Unknown(usize),
}

/// What is wrong with the way from position `i` on: the look ends where
/// nothing stands.
pub open spec fn symlink_error(kinds: Seq<NodeKind>, i: int) -> Option<SymlinkError>
    decreases kinds.len() - i,
{
    if i < 0 || i >= kinds.len() {
        None
    } else {
        match kinds[i] {
            NodeKind::Missing => None,
            NodeKind::Symlink => Some(SymlinkError::Symlink(i as usize)),
            NodeKind::Unknown => Some(SymlinkError::Unknown(i as usize)),
            NodeKind::Other => symlink_error(kinds, i + 1),
        }
    }
}

/// A way is clear exactly where no symbolic link, and nothing that could not be
/// looked at, stands on it before its end or the first place where nothing is.
pub proof fn law_clear_ways_have_no_links(kinds: Seq<NodeKind>, i: int)
    requires
        0 <= i <= kinds.len(),
        kinds.len() <= usize::MAX,
    ensures
        symlink_error(kinds, i) is None <==> forall|k: int|
            i <= k < kinds.len() && (#[trigger] kinds[k] == NodeKind::Symlink || kinds[k]
                == NodeKind::Unknown) ==> exists|n: int|
                i <= n < k && #[trigger] kinds[n] == NodeKind::Missing,
        symlink_error(kinds, i) matches Some(SymlinkError::Symlink(at)) ==> i <= at < kinds.len()
            && kinds[at as int] == NodeKind::Symlink,
        symlink_error(kinds, i) matches Some(SymlinkError::Unknown(at)) ==> i <= at < kinds.len()
            && kinds[at as int] == NodeKind::Unknown,
    decreases kinds.len() - i,
{
    if i < kinds.len() {
        law_clear_ways_have_no_links(kinds, i + 1);
        match kinds[i] {
            NodeKind::Missing => {
                assert forall|k: int|
                    i <= k < kinds.len() && (#[trigger] kinds[k] == NodeKind::Symlink || kinds[k]
                        == NodeKind::Unknown) implies exists|n: int|
                    i <= n < k && #[trigger] kinds[n] == NodeKind::Missing by {
                    assert(kinds[i] == NodeKind::Missing);
                }
            },
            NodeKind::Symlink => {
                assert(kinds[i] == NodeKind::Symlink);
            },
            NodeKind::Unknown => {
                assert(kinds[i] == NodeKind::Unknown);
            },
            NodeKind::Other => {
                if symlink_error(kinds, i + 1) is Some {
                    let k = choose|k: int|
                        i + 1 <= k < kinds.len() && (#[trigger] kinds[k] == NodeKind::Symlink
                            || kinds[k] == NodeKind::Unknown) && !(exists|n: int|
                            i + 1 <= n < k && #[trigger] kinds[n] == NodeKind::Missing);
                    assert(kinds[k] == NodeKind::Symlink || kinds[k] == NodeKind::Unknown);
                    assert(!(exists|n: int|
                        i <= n < k && #[trigger] kinds[n] == NodeKind::Missing));
                }
            },
        }
    }
}

/// Whether the way to a bind target leads over no symbolic link.
pub fn ensure_no_symlink_components(kinds: &Vec<NodeKind>) -> (result: Result<(), SymlinkError>)
    ensures
        match result {
            Ok(()) => symlink_error(kinds@, 0) is None,
            Err(error) => symlink_error(kinds@, 0) == Some(error),
        },
{
    let mut i: usize = 0;
    while i < kinds.len()
        invariant
            i <= kinds@.len(),
            symlink_error(kinds@, 0) == symlink_error(kinds@, i as int),
        decreases kinds.len() - i,
    {
        match kinds[i] {
            NodeKind::Missing => {
                return Ok(());
            },
            NodeKind::Symlink => {
                return Err(SymlinkError::Symlink(i));
            },
            NodeKind::Unknown => {
                return Err(SymlinkError::Unknown(i));
            },
            NodeKind::Other => {},
        }
        i += 1;
    }
    Ok(())
}

} // verus!
