//! Plans: the steps that the runtime takes on the host and in the container,
//! in order. A plan ends at the first step that fails.
use vstd::prelude::*;

use crate::helper::fs::{owned, Mount};

verus! {

/// One step.
#[derive(Debug, PartialEq, Eq)]
pub enum Action<T> {
    Mount(Mount<T>),
    Unmount { path: T, detach: bool },
    /// Leaves the control group namespace of the host.
    UnshareCgroup,
    /// Leaves the mount namespace of the host.
    UnshareMount,
    /// Creates a directory and those above it.
    CreateDirAll(T),
    /// Creates a file, or empties it.
    CreateFile(T),
    /// Creates a file unless it exists.
    CreateMissingFile(T),
    WriteFile { path: T, contents: T },
    /// Writes a file that exists, and does nothing otherwise.
    WriteExisting { path: T, contents: T },
    Symlink { target: T, link: T },
    /// Removes a file unless it is missing.
    RemoveFile(T),
    /// Removes a directory; a failure is of no account.
    RemoveDirQuietly(T),
    ChangeDir(T),
    PivotRoot { root: T, old: T },
    SetHostname(T),
    /// Configures the network inside the container, whose link has this name.
    SetupChildNetwork(T),
    /// Looks for symbolic links on the way from `root` to `target`.
    RejectSymlinks { root: T, target: T },
    /// Fails: the source of a bind mount does not exist.
    ReportMissing { source: T, target: T },
    /// Shares the storage of an Android host with the root at this path.
    AndroidBeforePivot(T),
    /// Shares devices and sockets of an Android host.
    AndroidAfterPivot,
    /// Binds the configured mounts.
    BindMounts,
    /// Asks for an address.
    Dhcp,
    /// Writes the name servers below this root.
    WriteDns(T),
    /// Prepares `/run` for the init system.
    PrepareInit,
    /// Writes the environment for login shells.
    WriteProfile,
    /// Covers what the container must not see.
    HardenMounts,
    /// Gives up the capabilities that a container must not have.
    DropCapabilities,
    /// Installs the system call filter.
    InstallSeccomp,
    /// Becomes the init program.
    ExecuteInit(T),
}

impl View for Action<String> {
    type V = Action<Seq<char>>;

    open spec fn view(&self) -> Action<Seq<char>> {
        match self {
            Action::Mount(mount) => Action::Mount(mount@),
            Action::Unmount { path, detach } => Action::Unmount { path: path@, detach: *detach },
            Action::UnshareCgroup => Action::UnshareCgroup,
            Action::UnshareMount => Action::UnshareMount,
            Action::CreateDirAll(path) => Action::CreateDirAll(path@),
            Action::CreateFile(path) => Action::CreateFile(path@),
            Action::CreateMissingFile(path) => Action::CreateMissingFile(path@),
            Action::WriteFile { path, contents } => Action::WriteFile {
                path: path@,
                contents: contents@,
            },
            Action::WriteExisting { path, contents } => Action::WriteExisting {
                path: path@,
                contents: contents@,
            },
            Action::Symlink { target, link } => Action::Symlink { target: target@, link: link@ },
            Action::RemoveFile(path) => Action::RemoveFile(path@),
            Action::RemoveDirQuietly(path) => Action::RemoveDirQuietly(path@),
            Action::ChangeDir(path) => Action::ChangeDir(path@),
            Action::PivotRoot { root, old } => Action::PivotRoot { root: root@, old: old@ },
            Action::SetHostname(name) => Action::SetHostname(name@),
            Action::SetupChildNetwork(link) => Action::SetupChildNetwork(link@),
            Action::RejectSymlinks { root, target } => Action::RejectSymlinks {
                root: root@,
                target: target@,
            },
            Action::ReportMissing { source, target } => Action::ReportMissing {
                source: source@,
                target: target@,
            },
            Action::AndroidBeforePivot(root) => Action::AndroidBeforePivot(root@),
            Action::AndroidAfterPivot => Action::AndroidAfterPivot,
            Action::BindMounts => Action::BindMounts,
            Action::Dhcp => Action::Dhcp,
            Action::WriteDns(root) => Action::WriteDns(root@),
            Action::PrepareInit => Action::PrepareInit,
            Action::WriteProfile => Action::WriteProfile,
            Action::HardenMounts => Action::HardenMounts,
            Action::DropCapabilities => Action::DropCapabilities,
            Action::InstallSeccomp => Action::InstallSeccomp,
            Action::ExecuteInit(path) => Action::ExecuteInit(path@),
        }
    }
}

/// A plan as it is written down in contracts.
pub type Steps = Seq<Action<Seq<char>>>;

/// A mount with all its arguments.
pub open spec fn mount_step(
    source: Option<Seq<char>>,
    target: Seq<char>,
    filesystem: Option<Seq<char>>,
    flags: u64,
    data: Option<Seq<char>>,
) -> Action<Seq<char>> {
    Action::Mount(Mount { source, target, filesystem, flags, data })
}

/// The view of an optional string slice.
pub open spec fn slice_view(text: Option<&str>) -> Option<Seq<char>> {
    match text {
        Some(text) => Some(text@),
        None => None,
    }
}

/// A mount with all its arguments.
pub fn mount(
    source: Option<&str>,
    target: &str,
    filesystem: Option<&str>,
    flags: u64,
    data: Option<&str>,
) -> (action: Action<String>)
    ensures
        action@ == mount_step(
            slice_view(source),
            target@,
            slice_view(filesystem),
            flags,
            slice_view(data),
        ),
{
    Action::Mount(
        Mount {
            source: owned(source),
            target: target.to_owned(),
            filesystem: owned(filesystem),
            flags,
            data: owned(data),
        },
    )
}

/// One path at another place.
pub open spec fn bind_step(source: Seq<char>, target: Seq<char>) -> Action<Seq<char>> {
    mount_step(Some(source), target, None, crate::helper::fs::MS_BIND, None)
}

/// One path at another place.
pub fn bind(source: &str, target: &str) -> (action: Action<String>)
    ensures
        action@ == bind_step(source@, target@),
{
    mount(Some(source), target, None, crate::helper::fs::MS_BIND, None)
}

/// A bind mount made read-only.
pub open spec fn seal_step(target: Seq<char>) -> Action<Seq<char>> {
    mount_step(None, target, None, crate::helper::fs::READ_ONLY_BIND, None)
}

/// A bind mount made read-only.
pub fn seal(target: &str) -> (action: Action<String>)
    ensures
        action@ == seal_step(target@),
{
    mount(None, target, None, crate::helper::fs::READ_ONLY_BIND, None)
}

/// Creates a directory and those above it.
pub fn create_dir_all(path: &str) -> (action: Action<String>)
    ensures
        action@ == Action::CreateDirAll(path@),
{
    Action::CreateDirAll(path.to_owned())
}

/// Creates a file, or empties it.
pub fn create_file(path: &str) -> (action: Action<String>)
    ensures
        action@ == Action::CreateFile(path@),
{
    Action::CreateFile(path.to_owned())
}

/// Writes a file.
pub fn write_file(path: &str, contents: &str) -> (action: Action<String>)
    ensures
        action@ == (Action::WriteFile { path: path@, contents: contents@ }),
{
    Action::WriteFile { path: path.to_owned(), contents: contents.to_owned() }
}

/// Makes a symbolic link.
pub fn symlink(target: &str, link: &str) -> (action: Action<String>)
    ensures
        action@ == (Action::Symlink { target: target@, link: link@ }),
{
    Action::Symlink { target: target.to_owned(), link: link.to_owned() }
}

/// Some steps under a condition.
pub open spec fn steps_if(condition: bool, steps: Steps) -> Steps {
    if condition {
        steps
    } else {
        Seq::empty()
    }
}

} // verus!
