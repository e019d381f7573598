//! What a container shares with an Android host: storage, devices, sockets,
//! and the mode of SELinux.
use vstd::prelude::*;

use crate::config::model::AndroidConfig;
use crate::container::security::Presence;
use crate::helper::fs::{Mount, MS_BIND, RECURSIVE_BIND};
use crate::host::lease::{CountedLease, Release};
use crate::path::{join, join_paths, parent, parent_path};
use crate::plan::{create_dir_all, create_file, mount, mount_step, steps_if, Action, Steps};
use crate::text::{
    chars_of, has_prefix, lemma_views_empty, lemma_views_push, starts_with, views,
};

verus! {

/// Whether anything of the host is shared.
pub open spec fn shares(config: AndroidConfig) -> bool {
    config.storage || config.gpu || config.binder || config.termux_x11 || config.virgl
        || config.pulse_audio || config.selinux_permissive
}

/// Whether anything of the host is shared.
pub fn requested(config: &AndroidConfig) -> (result: bool)
    ensures
        result == shares(*config),
{
    config.storage || config.gpu || config.binder || config.termux_x11 || config.virgl
        || config.pulse_audio || config.selinux_permissive
}

/// The steps that show a path of the host at another place; `directory` says
/// that it is a directory.
pub open spec fn bind_path_steps(
    source: Seq<char>,
    target: Seq<char>,
    directory: bool,
    recursive: bool,
) -> Steps {
    (if directory {
        seq![Action::CreateDirAll(target)]
    } else {
        (match parent(target) {
            Some(above) => seq![Action::CreateDirAll(above)],
            None => Seq::empty(),
        }).push(Action::CreateFile(target))
    }) + seq![
        mount_step(
            Some(source),
            target,
            None,
            if recursive {
                RECURSIVE_BIND
            } else {
                MS_BIND
            },
            None,
        ),
    ]
}

fn bind_path(
    plan: &mut Vec<Action<String>>,
    source: &str,
    target: &str,
    directory: bool,
    recursive: bool,
)
    ensures
        views(final(plan)@) == views(old(plan)@) + bind_path_steps(
            source@,
            target@,
            directory,
            recursive,
        ),
{
    broadcast use {lemma_views_push, lemma_views_empty};

    if directory {
        plan.push(create_dir_all(target));
    } else {
        if let Some(above) = parent_path(target) {
            plan.push(create_dir_all(&above));
        }
        plan.push(create_file(target));
    }
    let flags: u64 = if recursive {
        RECURSIVE_BIND
    } else {
        MS_BIND
    };
    plan.push(mount(Some(source), target, None, flags, None));
    assert(views(plan@) =~= views(old(plan)@) + bind_path_steps(
        source@,
        target@,
        directory,
        recursive,
    ));
}

/// The steps before the root is changed: the storage of the host.
pub open spec fn before_pivot_steps(
    rootfs: Seq<char>,
    config: AndroidConfig,
    directory: bool,
) -> Steps {
    if config.storage {
        bind_path_steps(
            "/storage/emulated/0"@,
            join(rootfs, "storage/emulated/0"@),
            directory,
            true,
        )
    } else {
        Seq::empty()
    }
}

/// The steps before the root is changed; `directory` says that the storage of
/// the host is a directory.
pub fn setup_before_pivot(rootfs: &str, config: &AndroidConfig, directory: bool) -> (plan: Vec<
    Action<String>,
>)
    ensures
        views(plan@) == before_pivot_steps(rootfs@, *config, directory),
{
    broadcast use {lemma_views_push, lemma_views_empty};

    let mut plan: Vec<Action<String>> = Vec::new();
    if requested(config) && config.storage {
        bind_path(
            &mut plan,
            "/storage/emulated/0",
            &join_paths(rootfs, "storage/emulated/0"),
            directory,
            true,
        );
    }
    assert(views(plan@) =~= before_pivot_steps(rootfs@, *config, directory));
    plan
}

/// An entry of a directory of the host.
#[derive(Debug, PartialEq, Eq)]
pub struct DeviceEntry {
    pub name: String,
    pub directory: bool,
}

impl View for DeviceEntry {
    type V = (Seq<char>, bool);

    open spec fn view(&self) -> (Seq<char>, bool) {
        (self.name@, self.directory)
    }
}

/// What the host says of the things that may be shared.
pub struct AndroidFacts {
    /// The entries of the directories of graphics devices; none where a
    /// directory cannot be read.
    pub graphics: Vec<Vec<DeviceEntry>>,
    /// What the binder devices are.
    pub binder: Vec<Presence>,
    pub x11_socket: Presence,
    pub virgl_socket: Presence,
    pub pulse_socket: Presence,
}

/// The directories that hold graphics devices.
pub open spec fn graphics_directories() -> Seq<Seq<char>> {
    seq!["/dev/dri"@, "/dev"@, "/dev"@, "/dev"@]
}

/// Where those directories are while the old root is there.
pub open spec fn graphics_sources() -> Seq<Seq<char>> {
    seq!["/.old_root/dev/dri"@, "/.old_root/dev"@, "/.old_root/dev"@, "/.old_root/dev"@]
}

/// What the names of graphics devices begin with.
pub open spec fn graphics_prefixes() -> Seq<Seq<char>> {
    seq!["renderD"@, "kgsl"@, "mali"@, "video"@]
}

/// The steps that share the first `count` entries of a directory whose names
/// begin with `prefix`.
pub open spec fn matching_steps(
    source: Seq<char>,
    directory: Seq<char>,
    prefix: Seq<char>,
    entries: Seq<(Seq<char>, bool)>,
    count: int,
) -> Steps
    decreases count,
{
    if count <= 0 {
        Seq::empty()
    } else {
        let before = matching_steps(source, directory, prefix, entries, count - 1);
        let entry = entries[count - 1];
        if starts_with(entry.0, prefix) {
            before + bind_path_steps(
                join(source, entry.0),
                join(directory, entry.0),
                entry.1,
                false,
            )
        } else {
            before
        }
    }
}

fn mirror_matching(
    plan: &mut Vec<Action<String>>,
    source: &str,
    directory: &str,
    prefix: &str,
    entries: &Vec<DeviceEntry>,
)
    ensures
        views(final(plan)@) == views(old(plan)@) + matching_steps(
            source@,
            directory@,
            prefix@,
            views(entries@),
            entries@.len() as int,
        ),
{
    let ghost before = views(plan@);
    let ghost all = views(entries@);
    let wanted = chars_of(prefix);
    let mut i: usize = 0;
    assert(before + matching_steps(source@, directory@, prefix@, all, 0) =~= before);
    while i < entries.len()
        invariant
            i <= entries@.len(),
            all == views(entries@),
            wanted@ == prefix@,
            views(plan@) == before + matching_steps(source@, directory@, prefix@, all, i as int),
        decreases entries.len() - i,
    {
        let entry = &entries[i];
        assert(all[i as int] == entry@);
        if has_prefix(&chars_of(&entry.name), &wanted) {
            bind_path(
                plan,
                &join_paths(source, &entry.name),
                &join_paths(directory, &entry.name),
                entry.directory,
                false,
            );
        }
        i += 1;
        assert(views(plan@) =~= before + matching_steps(
            source@,
            directory@,
            prefix@,
            all,
            i as int,
        ));
    }
}

/// The steps that share the graphics devices.
pub open spec fn graphics_steps(graphics: Seq<Vec<DeviceEntry>>, count: int) -> Steps
    decreases count,
{
    if count <= 0 {
        Seq::empty()
    } else {
        let i = count - 1;
        let entries = views(graphics[i]@);
        graphics_steps(graphics, i) + matching_steps(
            graphics_sources()[i],
            graphics_directories()[i],
            graphics_prefixes()[i],
            entries,
            entries.len() as int,
        )
    }
}

/// The step for a binder device that the host may have.
pub open spec fn device_steps(name: Seq<char>, presence: Presence) -> Steps {
    if presence == Presence::Missing {
        Seq::empty()
    } else {
        bind_path_steps(
            join("/.old_root"@, name),
            join("/"@, name),
            presence == Presence::Directory,
            false,
        )
    }
}

fn mirror_device(plan: &mut Vec<Action<String>>, name: &str, presence: Presence)
    ensures
        views(final(plan)@) == views(old(plan)@) + device_steps(name@, presence),
{
    let ghost before = views(plan@);
    if presence != Presence::Missing {
        bind_path(
            plan,
            &join_paths("/.old_root", name),
            &join_paths("/", name),
            presence == Presence::Directory,
            false,
        );
    }
    assert(views(plan@) =~= before + device_steps(name@, presence));
}

/// The steps for a socket that the host must have.
pub open spec fn socket_steps(source: Seq<char>, target: Seq<char>, presence: Presence) -> Steps {
    if presence == Presence::Missing {
        seq![Action::ReportMissing { source, target }]
    } else {
        bind_path_steps(source, target, presence == Presence::Directory, false)
    }
}

fn bind_socket(plan: &mut Vec<Action<String>>, source: &str, target: &str, presence: Presence)
    ensures
        views(final(plan)@) == views(old(plan)@) + socket_steps(source@, target@, presence),
{
    broadcast use {lemma_views_push, lemma_views_empty};

    let ghost before = views(plan@);
    if presence == Presence::Missing {
        plan.push(
            Action::ReportMissing { source: source.to_owned(), target: target.to_owned() },
        );
    } else {
        bind_path(plan, source, target, presence == Presence::Directory, false);
    }
    assert(views(plan@) =~= before + socket_steps(source@, target@, presence));
}

/// The steps after the root is changed, while the old root is still there.
pub open spec fn after_pivot_steps(config: AndroidConfig, facts: &AndroidFacts) -> Steps {
    steps_if(config.gpu, graphics_steps(facts.graphics@, 4)) + steps_if(
        config.binder,
        device_steps("dev/binder"@, facts.binder@[0]) + device_steps(
            "dev/hwbinder"@,
            facts.binder@[1],
        ) + device_steps("dev/vndbinder"@, facts.binder@[2]),
    ) + steps_if(
        config.termux_x11,
        socket_steps(
            "/.old_root/data/data/com.termux/files/usr/tmp/.X11-unix/X5"@,
            "/tmp/.X11-unix/X5"@,
            facts.x11_socket,
        ),
    ) + steps_if(
        config.virgl,
        socket_steps(
            "/.old_root/data/data/com.termux/files/usr/tmp/.virgl_test"@,
            "/tmp/.virgl_test"@,
            facts.virgl_socket,
        ),
    ) + steps_if(
        config.pulse_audio,
        socket_steps(
            "/.old_root/data/data/com.termux/files/usr/tmp/.pulse-socket"@,
            "/tmp/.pulse-socket"@,
            facts.pulse_socket,
        ),
    )
}

fn mirror_graphics(plan: &mut Vec<Action<String>>, graphics: &Vec<Vec<DeviceEntry>>)
    requires
        graphics@.len() == 4,
    ensures
        views(final(plan)@) == views(old(plan)@) + graphics_steps(graphics@, 4),
{
    let ghost before = views(plan@);
    assert(before + graphics_steps(graphics@, 0) =~= before);
    mirror_matching(plan, "/.old_root/dev/dri", "/dev/dri", "renderD", &graphics[0]);
    assert(views(plan@) =~= before + graphics_steps(graphics@, 1));
    mirror_matching(plan, "/.old_root/dev", "/dev", "kgsl", &graphics[1]);
    assert(views(plan@) =~= before + graphics_steps(graphics@, 2));
    mirror_matching(plan, "/.old_root/dev", "/dev", "mali", &graphics[2]);
    assert(views(plan@) =~= before + graphics_steps(graphics@, 3));
    mirror_matching(plan, "/.old_root/dev", "/dev", "video", &graphics[3]);
    assert(views(plan@) =~= before + graphics_steps(graphics@, 4));
}

/// The steps after the root is changed, while the old root is still there.
pub fn setup_after_pivot(config: &AndroidConfig, facts: &AndroidFacts) -> (plan: Vec<
    Action<String>,
>)
    requires
        facts.graphics@.len() == 4,
        facts.binder@.len() == 3,
    ensures
        views(plan@) == after_pivot_steps(*config, facts),
{
    broadcast use {lemma_views_push, lemma_views_empty};

    let mut plan: Vec<Action<String>> = Vec::new();
    let ghost none = Seq::<Action<Seq<char>>>::empty();
    assert(views(plan@) =~= none);
    if !requested(config) {
        assert(after_pivot_steps(*config, facts) =~= none);
        return plan;
    }
    if config.gpu {
        mirror_graphics(&mut plan, &facts.graphics);
    }
    let ghost first = steps_if(config.gpu, graphics_steps(facts.graphics@, 4));
    assert(views(plan@) =~= first);
    if config.binder {
        mirror_device(&mut plan, "dev/binder", facts.binder[0]);
        mirror_device(&mut plan, "dev/hwbinder", facts.binder[1]);
        mirror_device(&mut plan, "dev/vndbinder", facts.binder[2]);
    }
    let ghost second = first + steps_if(
        config.binder,
        device_steps("dev/binder"@, facts.binder@[0]) + device_steps(
            "dev/hwbinder"@,
            facts.binder@[1],
        ) + device_steps("dev/vndbinder"@, facts.binder@[2]),
    );
    assert(views(plan@) =~= second);
    if config.termux_x11 {
        bind_socket(
            &mut plan,
            "/.old_root/data/data/com.termux/files/usr/tmp/.X11-unix/X5",
            "/tmp/.X11-unix/X5",
            facts.x11_socket,
        );
    }
    if config.virgl {
        bind_socket(
            &mut plan,
            "/.old_root/data/data/com.termux/files/usr/tmp/.virgl_test",
            "/tmp/.virgl_test",
            facts.virgl_socket,
        );
    }
    if config.pulse_audio {
        bind_socket(
            &mut plan,
            "/.old_root/data/data/com.termux/files/usr/tmp/.pulse-socket",
            "/tmp/.pulse-socket",
            facts.pulse_socket,
        );
    }
    assert(views(plan@) =~= after_pivot_steps(*config, facts));
    plan
}

// ---------------------------------------------------------------------------
// SELinux
// ---------------------------------------------------------------------------
/// A hold on the permissive mode of SELinux, which ends with the container.
pub struct SelinuxGuard {
    workdir: Option<String>,
}

/// What is to be done to get a hold.
#[derive(Debug, PartialEq, Eq)]
pub struct SelinuxChange {
    /// The lease that is written back.
    pub lease: CountedLease,
    /// SELinux is to be made permissive.
    pub make_permissive: bool,
}

/// Why there is no hold.
#[derive(Clone, Copy, Debug, PartialEq, Eq, Structural)]
pub enum SelinuxError {
    /// The host has no control for the mode.
    Unavailable,
}

impl SelinuxGuard {
    /// The directory that holds the lease; none where there is no hold.
    pub closed spec fn held_in(&self) -> Option<Seq<char>> {
        crate::helper::fs::optional_view(self.workdir)
    }

    /// Gets a hold on the permissive mode where it is configured. `available`
    /// says that the host has a control for it, and `enforcing` that SELinux
    /// enforces its rules now.
    pub fn apply(
        config: &AndroidConfig,
        workdir: &str,
        available: bool,
        lease: CountedLease,
        enforcing: bool,
    ) -> (result: Result<(SelinuxGuard, Option<SelinuxChange>), SelinuxError>)
        requires
            lease.users < u64::MAX,
        ensures
            match result {
                Ok((guard, None)) => !config.selinux_permissive && guard.held_in() is None,
                Ok((guard, Some(change))) => {
                    &&& config.selinux_permissive
                    &&& available
                    &&& guard.held_in() == Some(workdir@)
                    &&& change.lease == lease.acquired(enforcing)
                    &&& change.make_permissive == (lease.users == 0 && enforcing)
                },
                Err(error) => config.selinux_permissive && !available && error
                    == SelinuxError::Unavailable,
            },
    {
        if !config.selinux_permissive {
            return Ok((SelinuxGuard { workdir: None }, None));
        }
        if !available {
            return Err(SelinuxError::Unavailable);
        }
        let mut taken = lease;
        let make_permissive = taken.acquire(enforcing);
        Ok(
            (
                SelinuxGuard { workdir: Some(workdir.to_owned()) },
                Some(SelinuxChange { lease: taken, make_permissive }),
            ),
        )
    }

    /// The directory that holds the lease, taken out of the guard: a hold is
    /// given up once.
    pub fn take(&mut self) -> (workdir: Option<String>)
        ensures
            crate::helper::fs::optional_view(workdir) == old(self).held_in(),
            final(self).held_in() is None,
    {
        self.workdir.take()
    }

    /// What to do with the lease when a hold is given up.
    pub fn release(lease: CountedLease) -> (decision: Release)
        ensures
            decision == lease.released(),
    {
        lease.release()
    }
}

// ---------------------------------------------------------------------------
// What holds of everything that is shared
// ---------------------------------------------------------------------------
/// A path of the host that is shown in the container.
pub open spec fn shows_at(
    source: Seq<char>,
    target: Seq<char>,
    recursive: bool,
) -> Action<Seq<char>> {
    Action::Mount(
        Mount {
            source: Some(source),
            target,
            filesystem: None,
            flags: if recursive {
                0x5000
            } else {
                0x1000
            },
            data: None,
        },
    )
}

proof fn lemma_shown_last(
    source: Seq<char>,
    target: Seq<char>,
    directory: bool,
    recursive: bool,
)
    ensures
        ({
            let steps = bind_path_steps(source, target, directory, recursive);
            &&& steps.len() >= 2
            &&& steps.last() == shows_at(source, target, recursive)
            &&& steps.contains(shows_at(source, target, recursive))
            &&& steps[steps.len() - 2] == if directory {
                Action::CreateDirAll(target)
            } else {
                Action::CreateFile(target)
            }
            &&& forall|i: int| 0 <= i < steps.len() - 1 ==> !((#[trigger] steps[i]) is Mount)
        }),
{
    assert(0x1000u64 | 0x4000u64 == 0x5000) by (bit_vector);
    let steps = bind_path_steps(source, target, directory, recursive);
    assert(steps[steps.len() - 1] == shows_at(source, target, recursive));
}

/// Whether steps make a place ready for what their last shows there: a
/// directory, or a file.
pub open spec fn made_ready(steps: Steps, target: Seq<char>, directory: bool) -> bool {
    steps.len() >= 2 && steps[steps.len() - 2] == if directory {
        Action::CreateDirAll(target)
    } else {
        Action::CreateFile(target)
    }
}

/// Something of the host is shared exactly where one of the settings asks for
/// it.
pub proof fn law_sharing_is_asked_for(config: AndroidConfig)
    ensures
        !shares(config) <==> !config.storage && !config.gpu && !config.binder
            && !config.termux_x11 && !config.virgl && !config.pulse_audio
            && !config.selinux_permissive,
{
}

/// The storage of the host is shown in the root, with everything below it,
/// exactly where that is configured; nothing else is shown before the root is
/// changed.
pub proof fn law_storage_is_shared(rootfs: Seq<char>, config: AndroidConfig, directory: bool)
    requires
        rootfs.len() > 0,
        rootfs.last() != '/',
    ensures
        !config.storage ==> before_pivot_steps(rootfs, config, directory).len() == 0,
        config.storage ==> before_pivot_steps(rootfs, config, directory).last() == shows_at(
            "/storage/emulated/0"@,
            rootfs + "/storage/emulated/0"@,
            true,
        ),
        config.storage ==> made_ready(
            before_pivot_steps(rootfs, config, directory),
            rootfs + "/storage/emulated/0"@,
            directory,
        ),
{
    reveal_strlit("storage/emulated/0");
    reveal_strlit("/storage/emulated/0");
    assert(join(rootfs, "storage/emulated/0"@) =~= rootfs + "/storage/emulated/0"@);
    lemma_shown_last("/storage/emulated/0"@, rootfs + "/storage/emulated/0"@, directory, true);
}

proof fn lemma_matching(
    source: Seq<char>,
    directory: Seq<char>,
    prefix: Seq<char>,
    entries: Seq<(Seq<char>, bool)>,
    count: int,
)
    requires
        0 <= count <= entries.len(),
    ensures
        ({
            let steps = matching_steps(source, directory, prefix, entries, count);
            &&& forall|k: int|
                #![trigger entries[k]]
                0 <= k < count && starts_with(entries[k].0, prefix) ==> steps.contains(
                    shows_at(join(source, entries[k].0), join(directory, entries[k].0), false),
                )
            &&& forall|i: int|
                #![trigger steps[i]]
                0 <= i < steps.len() && steps[i] is Mount ==> exists|k: int|
                    #![trigger entries[k]]
                    0 <= k < count && starts_with(entries[k].0, prefix) && steps[i] == shows_at(
                        join(source, entries[k].0),
                        join(directory, entries[k].0),
                        false,
                    )
        }),
    decreases count,
{
    if count > 0 {
        lemma_matching(source, directory, prefix, entries, count - 1);
        let before = matching_steps(source, directory, prefix, entries, count - 1);
        let steps = matching_steps(source, directory, prefix, entries, count);
        let entry = entries[count - 1];
        if starts_with(entry.0, prefix) {
            let from = join(source, entry.0);
            let to = join(directory, entry.0);
            lemma_shown_last(from, to, entry.1, false);
            let own = bind_path_steps(from, to, entry.1, false);
            assert(steps == before + own);
            assert(steps[steps.len() - 1] == own[own.len() - 1]);
            assert forall|k: int|
                #![trigger entries[k]]
                0 <= k < count && starts_with(entries[k].0, prefix) implies steps.contains(
                shows_at(join(source, entries[k].0), join(directory, entries[k].0), false),
            ) by {
                let shown = shows_at(
                    join(source, entries[k].0),
                    join(directory, entries[k].0),
                    false,
                );
                if k < count - 1 {
                    let n = choose|n: int| 0 <= n < before.len() && before[n] == shown;
                    assert(steps[n] == shown);
                } else {
                    assert(steps[steps.len() - 1] == shown);
                }
            }
            assert forall|i: int|
                #![trigger steps[i]]
                0 <= i < steps.len() && steps[i] is Mount implies exists|k: int|
                #![trigger entries[k]]
                0 <= k < count && starts_with(entries[k].0, prefix) && steps[i] == shows_at(
                    join(source, entries[k].0),
                    join(directory, entries[k].0),
                    false,
                ) by {
                if i < before.len() {
                    assert(steps[i] == before[i]);
                    let k = choose|k: int|
                        #![trigger entries[k]]
                        0 <= k < count - 1 && starts_with(entries[k].0, prefix) && before[i]
                            == shows_at(
                            join(source, entries[k].0),
                            join(directory, entries[k].0),
                            false,
                        );
                    assert(entries[k].0 == entries[k].0);
                } else {
                    assert(steps[i] == own[i - before.len()]);
                    assert(entries[count - 1] == entry);
                }
            }
        } else {
            assert(steps == before);
            assert forall|i: int|
                #![trigger steps[i]]
                0 <= i < steps.len() && steps[i] is Mount implies exists|k: int|
                #![trigger entries[k]]
                0 <= k < count && starts_with(entries[k].0, prefix) && steps[i] == shows_at(
                    join(source, entries[k].0),
                    join(directory, entries[k].0),
                    false,
                ) by {
                let k = choose|k: int|
                    #![trigger entries[k]]
                    0 <= k < count - 1 && starts_with(entries[k].0, prefix) && before[i]
                        == shows_at(
                        join(source, entries[k].0),
                        join(directory, entries[k].0),
                        false,
                    );
                assert(entries[k].0 == entries[k].0);
            }
        }
    }
}

/// Of a directory of the host exactly those entries are shown whose names begin
/// as asked for, each under its own name.
pub proof fn law_matching_devices_are_shared(
    source: Seq<char>,
    directory: Seq<char>,
    prefix: Seq<char>,
    entries: Seq<(Seq<char>, bool)>,
    k: int,
)
    requires
        0 <= k < entries.len(),
    ensures
        ({
            let steps = matching_steps(source, directory, prefix, entries, entries.len() as int);
            &&& starts_with(entries[k].0, prefix) ==> steps.contains(
                shows_at(join(source, entries[k].0), join(directory, entries[k].0), false),
            )
            &&& forall|i: int|
                #![trigger steps[i]]
                0 <= i < steps.len() && steps[i] is Mount ==> exists|n: int|
                    #![trigger entries[n]]
                    0 <= n < entries.len() && starts_with(entries[n].0, prefix) && steps[i]
                        == shows_at(
                        join(source, entries[n].0),
                        join(directory, entries[n].0),
                        false,
                    )
        }),
{
    lemma_matching(source, directory, prefix, entries, entries.len() as int);
}

/// Whether steps hold others, one after the other.
pub open spec fn holds_run(steps: Steps, part: Steps) -> bool {
    exists|at: int| #[trigger] run_at(steps, part, at)
}

/// Whether steps hold others from a position on.
pub open spec fn run_at(steps: Steps, part: Steps, at: int) -> bool {
    0 <= at && at + part.len() <= steps.len() && steps.subrange(at, at + part.len()) == part
}

proof fn lemma_run_inside(front: Steps, part: Steps, back: Steps)
    ensures
        holds_run(front + part + back, part),
{
    let steps = front + part + back;
    assert(steps.subrange(front.len() as int, (front.len() + part.len()) as int) =~= part);
    assert(run_at(steps, part, front.len() as int));
}

proof fn lemma_run_extended(steps: Steps, part: Steps, front: Steps, back: Steps)
    requires
        holds_run(steps, part),
    ensures
        holds_run(front + steps + back, part),
{
    let at = choose|at: int| #[trigger] run_at(steps, part, at);
    let all = front + steps + back;
    let place = front.len() + at;
    assert(all.subrange(place, place + part.len()) =~= steps.subrange(at, at + part.len()));
    assert(run_at(all, part, place));
}

/// The graphics devices of a host are looked for by the beginnings of their
/// names, and shown in the container where the host has them.
pub proof fn law_graphics_are_shared(config: AndroidConfig, facts: &AndroidFacts)
    requires
        facts.graphics@.len() == 4,
        config.gpu,
    ensures
        ({
            let steps = after_pivot_steps(config, facts);
            let entries = |i: int| views(facts.graphics@[i]@);
            &&& holds_run(
                steps,
                matching_steps(
                    "/.old_root/dev/dri"@,
                    "/dev/dri"@,
                    "renderD"@,
                    entries(0),
                    entries(0).len() as int,
                ),
            )
            &&& holds_run(
                steps,
                matching_steps(
                    "/.old_root/dev"@,
                    "/dev"@,
                    "kgsl"@,
                    entries(1),
                    entries(1).len() as int,
                ),
            )
            &&& holds_run(
                steps,
                matching_steps(
                    "/.old_root/dev"@,
                    "/dev"@,
                    "mali"@,
                    entries(2),
                    entries(2).len() as int,
                ),
            )
            &&& holds_run(
                steps,
                matching_steps(
                    "/.old_root/dev"@,
                    "/dev"@,
                    "video"@,
                    entries(3),
                    entries(3).len() as int,
                ),
            )
        }),
{
    let graphics = facts.graphics@;
    let steps = after_pivot_steps(config, facts);
    let d = graphics_steps(graphics, 4);
    lemma_graphics_parts(graphics);
    let none = Seq::<Action<Seq<char>>>::empty();
    let rest = steps.skip(d.len() as int);
    assert(steps =~= none + d + rest);
    lemma_run_extended(d, graphics_part(graphics, 0), none, rest);
    lemma_run_extended(d, graphics_part(graphics, 1), none, rest);
    lemma_run_extended(d, graphics_part(graphics, 2), none, rest);
    lemma_run_extended(d, graphics_part(graphics, 3), none, rest);
}

spec fn graphics_part(graphics: Seq<Vec<DeviceEntry>>, i: int) -> Steps {
    matching_steps(
        graphics_sources()[i],
        graphics_directories()[i],
        graphics_prefixes()[i],
        views(graphics[i]@),
        views(graphics[i]@).len() as int,
    )
}

proof fn lemma_graphics_parts(graphics: Seq<Vec<DeviceEntry>>)
    requires
        graphics.len() == 4,
    ensures
        holds_run(graphics_steps(graphics, 4), graphics_part(graphics, 0)),
        holds_run(graphics_steps(graphics, 4), graphics_part(graphics, 1)),
        holds_run(graphics_steps(graphics, 4), graphics_part(graphics, 2)),
        holds_run(graphics_steps(graphics, 4), graphics_part(graphics, 3)),
{
    reveal_with_fuel(graphics_steps, 5);
    assert(graphics_steps(graphics, 4) == Seq::<Action<Seq<char>>>::empty() + graphics_part(
        graphics,
        0,
    ) + graphics_part(graphics, 1) + graphics_part(graphics, 2) + graphics_part(graphics, 3));
    lemma_four_inside(
        graphics_part(graphics, 0),
        graphics_part(graphics, 1),
        graphics_part(graphics, 2),
        graphics_part(graphics, 3),
    );
}

proof fn lemma_four_inside(a: Steps, b: Steps, c: Steps, d: Steps)
    ensures
        ({
            let whole = Seq::<Action<Seq<char>>>::empty() + a + b + c + d;
            holds_run(whole, a) && holds_run(whole, b) && holds_run(whole, c) && holds_run(whole, d)
        }),
{
    let none = Seq::<Action<Seq<char>>>::empty();
    let whole = none + a + b + c + d;
    lemma_run_inside(none, a, b + c + d);
    assert(whole =~= none + a + (b + c + d));
    lemma_run_inside(none + a, b, c + d);
    assert(whole =~= none + a + b + (c + d));
    lemma_run_inside(none + a + b, c, d);
    lemma_run_inside(none + a + b + c, d, none);
    assert(whole =~= none + a + b + c + d + none);
}

/// An entry that is shown gets a place of its own kind: a directory where it is
/// one, and otherwise a file.
pub proof fn law_devices_get_places_of_their_kind(
    source: Seq<char>,
    directory: Seq<char>,
    prefix: Seq<char>,
    entries: Seq<(Seq<char>, bool)>,
    k: int,
)
    requires
        0 <= k < entries.len(),
        starts_with(entries[k].0, prefix),
    ensures
        made_ready(
            matching_steps(source, directory, prefix, entries, k + 1),
            join(directory, entries[k].0),
            entries[k].1,
        ),
{
    let before = matching_steps(source, directory, prefix, entries, k);
    let own = bind_path_steps(
        join(source, entries[k].0),
        join(directory, entries[k].0),
        entries[k].1,
        false,
    );
    lemma_shown_last(
        join(source, entries[k].0),
        join(directory, entries[k].0),
        entries[k].1,
        false,
    );
    let steps = matching_steps(source, directory, prefix, entries, k + 1);
    assert(steps == before + own);
    assert(steps[steps.len() - 2] == own[own.len() - 2]);
}

/// A device that the host has is shown at its own place.
pub proof fn law_present_devices_are_shared(name: Seq<char>, presence: Presence)
    requires
        name.len() > 0,
        name[0] != '/',
    ensures
        presence == Presence::Missing ==> device_steps(name, presence).len() == 0,
        presence != Presence::Missing ==> device_steps(name, presence).last() == shows_at(
            "/.old_root/"@ + name,
            "/"@ + name,
            false,
        ),
        presence != Presence::Missing ==> made_ready(
            device_steps(name, presence),
            "/"@ + name,
            presence == Presence::Directory,
        ),
{
    reveal_strlit("/.old_root");
    reveal_strlit("/.old_root/");
    reveal_strlit("/");
    assert(join("/.old_root"@, name) =~= "/.old_root/"@ + name);
    assert(join("/"@, name) =~= "/"@ + name);
    lemma_shown_last(
        "/.old_root/"@ + name,
        "/"@ + name,
        presence == Presence::Directory,
        false,
    );
}

/// A socket that is asked for is shown where the container looks for it, and
/// reported where the host does not have it.
pub proof fn law_sockets_are_shared(source: Seq<char>, target: Seq<char>, presence: Presence)
    ensures
        presence == Presence::Missing ==> socket_steps(source, target, presence) == seq![
            Action::ReportMissing { source, target },
        ],
        presence != Presence::Missing ==> socket_steps(source, target, presence).last()
            == shows_at(source, target, false),
        presence != Presence::Missing ==> made_ready(
            socket_steps(source, target, presence),
            target,
            presence == Presence::Directory,
        ),
{
    lemma_shown_last(source, target, presence == Presence::Directory, false);
}

/// Exactly what is configured is shared after the root is changed: the binder
/// devices, and the sockets of the display, of the graphics server and of the
/// sound server.
pub proof fn law_configured_parts_are_shared(config: AndroidConfig, facts: &AndroidFacts)
    requires
        facts.graphics@.len() == 4,
        facts.binder@.len() == 3,
    ensures
        ({
            let steps = after_pivot_steps(config, facts);
            let home = "/.old_root/data/data/com.termux/files/usr/tmp/"@;
            &&& config.binder ==> {
                &&& holds_run(steps, device_steps("dev/binder"@, facts.binder@[0]))
                &&& holds_run(steps, device_steps("dev/hwbinder"@, facts.binder@[1]))
                &&& holds_run(steps, device_steps("dev/vndbinder"@, facts.binder@[2]))
            }
            &&& config.termux_x11 ==> holds_run(
                steps,
                socket_steps(home + ".X11-unix/X5"@, "/tmp/.X11-unix/X5"@, facts.x11_socket),
            )
            &&& config.virgl ==> holds_run(
                steps,
                socket_steps(home + ".virgl_test"@, "/tmp/.virgl_test"@, facts.virgl_socket),
            )
            &&& config.pulse_audio ==> holds_run(
                steps,
                socket_steps(home + ".pulse-socket"@, "/tmp/.pulse-socket"@, facts.pulse_socket),
            )
            &&& !config.gpu && !config.binder && !config.termux_x11 && !config.virgl
                && !config.pulse_audio ==> steps.len() == 0
        }),
{
    lemma_socket_homes();
    let home = "/.old_root/data/data/com.termux/files/usr/tmp/"@;
    lemma_parts_inside(
        config,
        steps_if(config.gpu, graphics_steps(facts.graphics@, 4)),
        device_steps("dev/binder"@, facts.binder@[0]),
        device_steps("dev/hwbinder"@, facts.binder@[1]),
        device_steps("dev/vndbinder"@, facts.binder@[2]),
        socket_steps(home + ".X11-unix/X5"@, "/tmp/.X11-unix/X5"@, facts.x11_socket),
        socket_steps(home + ".virgl_test"@, "/tmp/.virgl_test"@, facts.virgl_socket),
        socket_steps(home + ".pulse-socket"@, "/tmp/.pulse-socket"@, facts.pulse_socket),
    );
}

proof fn lemma_parts_inside(
    config: AndroidConfig,
    a: Steps,
    b1: Steps,
    b2: Steps,
    b3: Steps,
    x: Steps,
    y: Steps,
    z: Steps,
)
    ensures
        ({
            let steps = a + steps_if(config.binder, b1 + b2 + b3) + steps_if(config.termux_x11, x)
                + steps_if(config.virgl, y) + steps_if(config.pulse_audio, z);
            &&& config.binder ==> holds_run(steps, b1) && holds_run(steps, b2) && holds_run(
                steps,
                b3,
            )
            &&& config.termux_x11 ==> holds_run(steps, x)
            &&& config.virgl ==> holds_run(steps, y)
            &&& config.pulse_audio ==> holds_run(steps, z)
        }),
{
    let none = Seq::<Action<Seq<char>>>::empty();
    let b = steps_if(config.binder, b1 + b2 + b3);
    let c = steps_if(config.termux_x11, x);
    let d = steps_if(config.virgl, y);
    let e = steps_if(config.pulse_audio, z);
    let steps = a + b + c + d + e;
    if config.binder {
        lemma_run_inside(none, b1, b2 + b3);
        assert(none + b1 + (b2 + b3) =~= b);
        lemma_run_inside(b1, b2, b3);
        lemma_run_inside(b1 + b2, b3, none);
        assert(b1 + b2 + b3 + none =~= b);
        assert(steps =~= a + b + (c + d + e));
        lemma_run_extended(b, b1, a, c + d + e);
        lemma_run_extended(b, b2, a, c + d + e);
        lemma_run_extended(b, b3, a, c + d + e);
    }
    if config.termux_x11 {
        lemma_run_inside(a + b, x, d + e);
        assert(steps =~= a + b + x + (d + e));
    }
    if config.virgl {
        lemma_run_inside(a + b + c, y, e);
    }
    if config.pulse_audio {
        lemma_run_inside(a + b + c + d, z, none);
        assert(steps =~= a + b + c + d + z + none);
    }
}

proof fn lemma_socket_homes()
    ensures
        "/.old_root/data/data/com.termux/files/usr/tmp/"@ + ".X11-unix/X5"@
            == "/.old_root/data/data/com.termux/files/usr/tmp/.X11-unix/X5"@,
        "/.old_root/data/data/com.termux/files/usr/tmp/"@ + ".virgl_test"@
            == "/.old_root/data/data/com.termux/files/usr/tmp/.virgl_test"@,
        "/.old_root/data/data/com.termux/files/usr/tmp/"@ + ".pulse-socket"@
            == "/.old_root/data/data/com.termux/files/usr/tmp/.pulse-socket"@,
{
    reveal_strlit("/.old_root/data/data/com.termux/files/usr/tmp/");
    reveal_strlit(".X11-unix/X5");
    reveal_strlit(".virgl_test");
    reveal_strlit(".pulse-socket");
    reveal_strlit("/.old_root/data/data/com.termux/files/usr/tmp/.X11-unix/X5");
    reveal_strlit("/.old_root/data/data/com.termux/files/usr/tmp/.virgl_test");
    reveal_strlit("/.old_root/data/data/com.termux/files/usr/tmp/.pulse-socket");
    assert("/.old_root/data/data/com.termux/files/usr/tmp/"@ + ".X11-unix/X5"@
        =~= "/.old_root/data/data/com.termux/files/usr/tmp/.X11-unix/X5"@);
    assert("/.old_root/data/data/com.termux/files/usr/tmp/"@ + ".virgl_test"@
        =~= "/.old_root/data/data/com.termux/files/usr/tmp/.virgl_test"@);
    assert("/.old_root/data/data/com.termux/files/usr/tmp/"@ + ".pulse-socket"@
        =~= "/.old_root/data/data/com.termux/files/usr/tmp/.pulse-socket"@);
}

} // verus!
