//! Whether the host can run containers.
use vstd::prelude::*;

use crate::host::cgroup::MountEntry;
use crate::text::{contains_text, occurs_in, same};

verus! {

/// The namespaces that a container needs, in the order in which they are
/// probed.
#[derive(Clone, Copy, Debug, PartialEq, Eq, Structural)]
pub enum Namespace {
    Mount,
    Pid,
    Uts,
    Ipc,
    Network,
}

/// Which namespaces a process could enter.
#[derive(Clone, Copy, Debug, PartialEq, Eq, Structural)]
pub struct NamespaceProbes {
    pub mount: bool,
    pub pid: bool,
    pub uts: bool,
    pub ipc: bool,
    pub network: bool,
}

impl NamespaceProbes {
    /// Whether a namespace could be entered.
    pub open spec fn available(self, namespace: Namespace) -> bool {
        match namespace {
            Namespace::Mount => self.mount,
            Namespace::Pid => self.pid,
            Namespace::Uts => self.uts,
            Namespace::Ipc => self.ipc,
            Namespace::Network => self.network,
        }
    }

    /// The first namespace that could not be entered: with one of them missing
    /// the host cannot run a container.
    pub fn missing(&self) -> (missing: Option<Namespace>)
        ensures
            missing is None <==> forall|n: Namespace| #[trigger] self.available(n),
            match missing {
                Some(Namespace::Mount) => !self.mount,
                Some(Namespace::Pid) => self.mount && !self.pid,
                Some(Namespace::Uts) => self.mount && self.pid && !self.uts,
                Some(Namespace::Ipc) => self.mount && self.pid && self.uts && !self.ipc,
                Some(Namespace::Network) => self.mount && self.pid && self.uts && self.ipc
                    && !self.network,
                None => true,
            },
    {
        assert(self.available(Namespace::Mount) == self.mount);
        assert(self.available(Namespace::Pid) == self.pid);
        assert(self.available(Namespace::Uts) == self.uts);
        assert(self.available(Namespace::Ipc) == self.ipc);
        assert(self.available(Namespace::Network) == self.network);
        if !self.mount {
            Some(Namespace::Mount)
        } else if !self.pid {
            Some(Namespace::Pid)
        } else if !self.uts {
            Some(Namespace::Uts)
        } else if !self.ipc {
            Some(Namespace::Ipc)
        } else if !self.network {
            Some(Namespace::Network)
        } else {
            None
        }
    }
}

impl Namespace {
    pub open spec fn text(self) -> Seq<char> {
        match self {
            Namespace::Mount => "mount"@,
            Namespace::Pid => "PID"@,
            Namespace::Uts => "UTS"@,
            Namespace::Ipc => "IPC"@,
            Namespace::Network => "network"@,
        }
    }

    /// What the namespace is called.
    pub fn name(self) -> (name: &'static str)
        ensures
            name@ == self.text(),
    {
        match self {
            Namespace::Mount => "mount",
            Namespace::Pid => "PID",
            Namespace::Uts => "UTS",
            Namespace::Ipc => "IPC",
            Namespace::Network => "network",
        }
    }
}

/// Whether the kernel has overlay file systems, by the list of those it has.
pub fn overlay_supported(filesystems: &str) -> (result: bool)
    ensures
        result == occurs_in(filesystems@, "overlay"@),
{
    contains_text(filesystems, "overlay")
}

/// Whether a hierarchy of the first version of control groups is mounted.
pub fn legacy_cgroups(mounts: &Vec<MountEntry>) -> (result: bool)
    ensures
        result == exists|i: int|
            0 <= i < mounts@.len() && (#[trigger] mounts@[i]).fs_type@ == "cgroup"@,
{
    let mut i: usize = 0;
    while i < mounts.len()
        invariant
            i <= mounts.len(),
            forall|k: int| 0 <= k < i ==> (#[trigger] mounts@[k]).fs_type@ != "cgroup"@,
        decreases mounts.len() - i,
    {
        if same(&mounts[i].fs_type, "cgroup") {
            assert(mounts@[i as int].fs_type@ == "cgroup"@);
            return true;
        }
        i += 1;
    }
    false
}

} // verus!
