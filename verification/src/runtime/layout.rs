//! A configured runtime, and where it keeps what it knows.
use vstd::prelude::*;

use crate::config::identity::{hyphenated, uuid_text};
use crate::config::model::Config;
use crate::container::init::Init;
use crate::helper::fs::optional_view;
use crate::host::rootfs::Rootfs;
use crate::host::terminal::Platform;
use crate::path::{absolute, is_absolute, join, join_paths};
use crate::text::joined;

verus! {

/// Why there is no directory for the state of the runtime.
#[derive(Clone, Copy, Debug, PartialEq, Eq, Structural)]
pub enum WorkdirError {
    /// `TMPDIR` is not set.
    Unset,
    /// `TMPDIR` is not absolute.
    Relative,
}

/// The one directory of the host for the state of all containers: below
/// `TMPDIR` on Android, and at a fixed place elsewhere.
pub fn runtime_workdir(platform: Platform, temporary: Option<&str>) -> (result: Result<
    String,
    WorkdirError,
>)
    ensures
        match (platform, temporary, result) {
            (Platform::Linux, _, Ok(path)) => path@ == "/run/kurumi-containerd"@,
            (Platform::Android, None, Err(error)) => error == WorkdirError::Unset,
            (Platform::Android, Some(directory), Err(error)) => error == WorkdirError::Relative
                && !absolute(directory@),
            (Platform::Android, Some(directory), Ok(path)) => absolute(directory@) && path@
                == join(directory@, "kurumi-containerd"@),
            _ => false,
        },
{
    match platform {
        Platform::Linux => Ok("/run/kurumi-containerd".to_owned()),
        Platform::Android => match temporary {
            None => Err(WorkdirError::Unset),
            Some(directory) => if is_absolute(directory) {
                Ok(join_paths(directory, "kurumi-containerd"))
            } else {
                Err(WorkdirError::Relative)
            },
        },
    }
}

/// A configured container runtime.
pub struct Runtime {
    pub config: Config,
    pub init: Init,
    pub rootfs: Rootfs,
    pub workdir: String,
    pub state_dir: String,
    pub recovery_dir: String,
    pub volatile_dir: String,
    pub lock_path: String,
}

/// The file in a directory that holds a record by its name.
pub open spec fn record_path(directory: Seq<char>, name: Seq<char>) -> Seq<char> {
    join(directory, name + ".json"@)
}

impl Runtime {
    /// Whether the paths are those below the work directory.
    pub open spec fn laid_out(&self) -> bool {
        &&& self.state_dir@ == join(self.workdir@, "state"@)
        &&& self.recovery_dir@ == join(self.workdir@, "recovery"@)
        &&& self.volatile_dir@ == join(self.workdir@, "volatile"@)
        &&& self.lock_path@ == join(self.workdir@, self.config.container.name@ + ".lock"@)
        &&& self.init.path@ == self.config.container.init@
        &&& self.rootfs.directory() == optional_view(self.config.container.rootfs)
        &&& self.rootfs.image_path() == optional_view(self.config.container.rootfs_image)
        &&& self.rootfs.mount_path() == join(
            join(self.workdir@, "mounts"@),
            self.config.container.name@,
        )
    }

    /// Creates a runtime for one validated container configuration.
    pub fn new(config: Config, workdir: String) -> (runtime: Runtime)
        ensures
            runtime.config == config,
            runtime.workdir@ == workdir@,
            runtime.laid_out(),
    {
        let state_dir = join_paths(&workdir, "state");
        let recovery_dir = join_paths(&workdir, "recovery");
        let mount_dir = join_paths(&workdir, "mounts");
        let volatile_dir = join_paths(&workdir, "volatile");
        let lock_path = join_paths(&workdir, &joined(&config.container.name, ".lock"));
        let init = Init::new(&config);
        let rootfs = Rootfs::new(&config, &mount_dir);
        Runtime {
            config,
            init,
            rootfs,
            workdir,
            state_dir,
            recovery_dir,
            volatile_dir,
            lock_path,
        }
    }

    /// The state file of the container with this name.
    pub fn state_path_for(&self, name: &str) -> (path: String)
        ensures
            path@ == record_path(self.state_dir@, name@),
    {
        join_paths(&self.state_dir, &joined(name, ".json"))
    }

    /// The state file of the configured container.
    pub fn state_path(&self) -> (path: String)
        ensures
            path@ == record_path(self.state_dir@, self.config.container.name@),
    {
        self.state_path_for(&self.config.container.name)
    }

    /// The recovery record of the container with this identity.
    pub fn recovery_path(&self, uuid: u128) -> (path: String)
        ensures
            path@ == record_path(self.recovery_dir@, hyphenated(uuid)),
    {
        join_paths(&self.recovery_dir, &joined(&uuid_text(uuid), ".json"))
    }
}

/// What a runtime keeps is below its work directory, each kind in a directory
/// of its own, and the container has a lock and a mount point that carry its
/// name.
pub proof fn law_runtime_keeps_to_its_directory(runtime: &Runtime)
    requires
        runtime.laid_out(),
        runtime.workdir@.len() > 0,
        runtime.workdir@.last() != '/',
        !absolute(runtime.config.container.name@),
        runtime.config.container.name@.len() > 0,
    ensures
        runtime.state_dir@ == runtime.workdir@ + "/state"@,
        runtime.recovery_dir@ == runtime.workdir@ + "/recovery"@,
        runtime.volatile_dir@ == runtime.workdir@ + "/volatile"@,
        runtime.lock_path@ == runtime.workdir@ + "/"@ + runtime.config.container.name@ + ".lock"@,
        runtime.rootfs.mount_path() == runtime.workdir@ + "/mounts/"@
            + runtime.config.container.name@,
        runtime.init.path@ == runtime.config.container.init@,
        runtime.config.container.rootfs matches Some(path) ==> runtime.rootfs.directory() == Some(
            path@,
        ),
        runtime.config.container.rootfs is None ==> runtime.rootfs.directory() is None,
        runtime.config.container.rootfs_image matches Some(path) ==> runtime.rootfs.image_path()
            == Some(path@),
        runtime.config.container.rootfs_image is None ==> runtime.rootfs.image_path() is None,
{
    let name = runtime.config.container.name@;
    reveal_strlit("/");
    reveal_strlit("state");
    reveal_strlit("/state");
    reveal_strlit("recovery");
    reveal_strlit("/recovery");
    reveal_strlit("volatile");
    reveal_strlit("/volatile");
    reveal_strlit("mounts");
    reveal_strlit("/mounts/");
    reveal_strlit(".lock");
    assert((name + ".lock"@)[0] == name[0]);
    assert(join(runtime.workdir@, "state"@) =~= runtime.workdir@ + "/state"@);
    assert(join(runtime.workdir@, "recovery"@) =~= runtime.workdir@ + "/recovery"@);
    assert(join(runtime.workdir@, "volatile"@) =~= runtime.workdir@ + "/volatile"@);
    assert(join(runtime.workdir@, name + ".lock"@) =~= runtime.workdir@ + "/"@ + name
        + ".lock"@);
    assert(join(join(runtime.workdir@, "mounts"@), name) =~= runtime.workdir@ + "/mounts/"@
        + name);
}

/// The record of a name is the file of that name in its directory, and two
/// names have two records.
pub proof fn law_records_are_named(directory: Seq<char>, name: Seq<char>, other: Seq<char>)
    requires
        directory.len() > 0,
        directory.last() != '/',
        !absolute(name),
        !absolute(other),
    ensures
        record_path(directory, name) == directory + "/"@ + name + ".json"@,
        record_path(directory, name) == record_path(directory, other) ==> name == other,
{
    reveal_strlit("/");
    reveal_strlit(".json");
    assert(".json"@[0] == '.');
    assert(!absolute(name + ".json"@)) by {
        if name.len() > 0 {
            assert((name + ".json"@)[0] == name[0]);
        } else {
            assert((name + ".json"@)[0] == ".json"@[0]);
        }
    }
    assert(!absolute(other + ".json"@)) by {
        if other.len() > 0 {
            assert((other + ".json"@)[0] == other[0]);
        } else {
            assert((other + ".json"@)[0] == ".json"@[0]);
        }
    }
    let first = record_path(directory, name);
    let second = record_path(directory, other);
    assert(first =~= directory + "/"@ + name + ".json"@);
    assert(second =~= directory + "/"@ + other + ".json"@);
    if first == second {
        assert(first.len() == second.len());
        let n: int = directory.len() as int + 1;
        assert(name =~= first.subrange(n, n + name.len()));
        assert(other =~= second.subrange(n, n + other.len()));
    }
}

} // verus!
