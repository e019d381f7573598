//! Host paths of a configuration, which are relative to the directory that
//! holds the configuration file until they are resolved.
use vstd::prelude::*;

use crate::config::model::{BindMount, Config, ContainerConfig};
use crate::path::{
    join, join_paths, law_parent_of_a_joined_path, parent, parent_path, plain_name, up_to_slash,
};
use crate::text::{lemma_views_empty, lemma_views_push, views};

verus! {

/// The directory that relative paths are taken from.
pub open spec fn base_of(config_path: Seq<char>) -> Seq<char> {
    match parent(config_path) {
        Some(directory) => if directory.len() == 0 {
            "."@
        } else {
            directory
        },
        None => "."@,
    }
}

/// The directory that relative paths are taken from.
pub fn resolution_base(config_path: &str) -> (base: String)
    ensures
        base@ == base_of(config_path@),
{
    match parent_path(config_path) {
        Some(directory) => if directory.as_str().is_empty() {
            ".".to_owned()
        } else {
            directory
        },
        None => ".".to_owned(),
    }
}

/// A host path as it is handed to the host for resolution.
pub fn absolute_from(base: &str, path: &str) -> (result: String)
    ensures
        result@ == join(base@, path@),
{
    join_paths(base, path)
}

/// The directory for the state of the runtime, which need not exist: only
/// `base`, the resolved directory of the configuration, was looked at.
pub fn absolute_workdir(base: &str, path: &str) -> (result: String)
    ensures
        result@ == join(base@, path@),
{
    join_paths(base, path)
}

/// The optional path as a list.
pub open spec fn optional(path: Option<String>) -> Seq<Seq<char>> {
    match path {
        Some(path) => seq![path@],
        None => Seq::empty(),
    }
}

/// The host paths of a container that have to exist, in the order in which
/// they are resolved.
pub open spec fn written_paths(container: ContainerConfig) -> Seq<Seq<char>> {
    optional(container.rootfs) + optional(container.rootfs_image) + container.mounts@.map_values(
        |mount: BindMount| mount.source@,
    ) + optional(container.environment_file)
}

/// The position of the first bind mount among the host paths.
pub open spec fn first_mount(container: ContainerConfig) -> nat {
    optional(container.rootfs).len() + optional(container.rootfs_image).len()
}

impl Config {
    /// The host paths that have to be resolved, in order: the root, the
    /// sources of the bind mounts and the environment file.
    pub fn host_paths(&self, base: &str) -> (paths: Vec<String>)
        ensures
            views(paths@) == written_paths(self.container).map_values(
                |path: Seq<char>| join(base@, path),
            ),
    {
        broadcast use {lemma_views_push, lemma_views_empty};

        let ghost taken = |path: Seq<char>| join(base@, path);
        let ghost sources = self.container.mounts@.map_values(|mount: BindMount| mount.source@);
        let mut paths: Vec<String> = Vec::new();
        let ghost mut listed = Seq::<Seq<char>>::empty();
        if let Some(rootfs) = &self.container.rootfs {
            paths.push(absolute_from(base, rootfs));
        }
        proof {
            listed = optional(self.container.rootfs);
            assert(views(paths@) =~= listed.map_values(taken));
        }
        if let Some(image) = &self.container.rootfs_image {
            paths.push(absolute_from(base, image));
        }
        proof {
            listed = listed + optional(self.container.rootfs_image);
            assert(views(paths@) =~= listed.map_values(taken));
        }
        let mut i: usize = 0;
        assert(listed + sources.take(0) =~= listed);
        while i < self.container.mounts.len()
            invariant
                i <= self.container.mounts.len(),
                sources == self.container.mounts@.map_values(|mount: BindMount| mount.source@),
                taken == (|path: Seq<char>| join(base@, path)),
                views(paths@) == (listed + sources.take(i as int)).map_values(taken),
            decreases self.container.mounts.len() - i,
        {
            broadcast use {lemma_views_push, lemma_views_empty};

            paths.push(absolute_from(base, &self.container.mounts[i].source));
            i += 1;
            assert((listed + sources.take(i as int)).map_values(taken) =~= (listed + sources.take(
                i - 1,
            )).map_values(taken).push(taken(sources[i - 1])));
        }
        assert(sources.take(i as int) =~= sources);
        if let Some(file) = &self.container.environment_file {
            paths.push(absolute_from(base, file));
        }
        assert(views(paths@) =~= written_paths(self.container).map_values(taken));
        paths
    }

    /// Takes over the resolved host paths, in the order of `host_paths`.
    pub fn resolve_paths(&mut self, workdir: String, resolved: &Vec<String>)
        requires
            resolved@.len() == written_paths(old(self).container).len(),
        ensures
            final(self).runtime.workdir@ == workdir@,
            final(self).runtime.stop_timeout_seconds == old(self).runtime.stop_timeout_seconds,
            written_paths(final(self).container) == views(resolved@),
            final(self).container == (ContainerConfig {
                rootfs: final(self).container.rootfs,
                rootfs_image: final(self).container.rootfs_image,
                mounts: final(self).container.mounts,
                environment_file: final(self).container.environment_file,
                ..old(self).container
            }),
            final(self).container.rootfs is Some == old(self).container.rootfs is Some,
            final(self).container.rootfs_image is Some == old(self).container.rootfs_image is Some,
            final(self).container.environment_file is Some == old(self).container.environment_file
                is Some,
            final(self).container.mounts@.len() == old(self).container.mounts@.len(),
            forall|i: int|
                #![trigger final(self).container.mounts@[i]]
                0 <= i < old(self).container.mounts@.len() ==> final(self).container.mounts@[i].target@
                    == old(self).container.mounts@[i].target@
                    && final(self).container.mounts@[i].read_only
                    == old(self).container.mounts@[i].read_only,
    {
        let ghost before = self.container;
        let ghost given = views(resolved@);
        let total: usize = resolved.len();
        let mut at: usize = 0;
        self.runtime.workdir = workdir;
        let rootfs = if self.container.rootfs.is_some() {
            at = 1;
            Some(resolved[0].clone())
        } else {
            None
        };
        let image = if self.container.rootfs_image.is_some() {
            let path = resolved[at].clone();
            at += 1;
            Some(path)
        } else {
            None
        };
        assert(at == first_mount(before));
        let mut mounts: Vec<BindMount> = Vec::new();
        let mut i: usize = 0;
        let count: usize = self.container.mounts.len();
        while i < count
            invariant
                i <= count,
                count == self.container.mounts@.len(),
                at + count <= total == resolved@.len(),
                mounts@.len() == i,
                forall|k: int|
                    #![trigger mounts@[k]]
                    0 <= k < i ==> mounts@[k].source@ == resolved@[at + k]@ && mounts@[k].target@
                        == self.container.mounts@[k].target@ && mounts@[k].read_only
                        == self.container.mounts@[k].read_only,
            decreases count - i,
        {
            mounts.push(
                BindMount {
                    source: resolved[at + i].clone(),
                    target: self.container.mounts[i].target.clone(),
                    read_only: self.container.mounts[i].read_only,
                },
            );
            i += 1;
        }
        let file = if self.container.environment_file.is_some() {
            Some(resolved[at + count].clone())
        } else {
            None
        };
        let ghost sources = mounts@.map_values(|mount: BindMount| mount.source@);
        assert(optional(rootfs) + optional(image) + sources + optional(file) =~= given);
        self.container.rootfs = rootfs;
        self.container.rootfs_image = image;
        self.container.mounts = mounts;
        self.container.environment_file = file;
    }
}

/// Paths are taken from the directory that the configuration is in; a
/// configuration without a directory is taken from the current one.
pub proof fn law_paths_are_taken_from_the_configuration(directory: Seq<char>, name: Seq<char>)
    requires
        plain_name(name),
        directory.len() > 0,
        directory.last() != '/',
        directory.last() != '.',
        name[0] != '.',
        name.last() != '.',
    ensures
        base_of(join(directory, name)) == directory,
        base_of(name) == "."@,
        forall|path: Seq<char>|
            parent(path) is None ==> #[trigger] base_of(path) == "."@,
{
    law_parent_of_a_joined_path(directory, name);
    assert(name[0] != '/' && name[name.len() - 1] != '/');
    lemma_no_slash(name);
}

proof fn lemma_no_slash(name: Seq<char>)
    requires
        forall|i: int| 0 <= i < name.len() ==> #[trigger] name[i] != '/',
    ensures
        up_to_slash(name, 0).len() == 0,
    decreases name.len(),
{
    if name.len() > 0 {
        let shorter = name.drop_last();
        assert(name[name.len() - 1] != '/');
        assert forall|i: int| 0 <= i < shorter.len() implies #[trigger] shorter[i] != '/' by {
            assert(shorter[i] == name[i]);
        }
        lemma_no_slash(shorter);
    }
}

/// The host paths of a container are its root or its image, the sources of its
/// mounts in their order, and its environment file.
pub proof fn law_host_paths_of_a_container(container: ContainerConfig, k: int)
    ensures
        ({
            let paths = written_paths(container);
            &&& container.rootfs matches Some(path) ==> paths[0] == path@
            &&& container.rootfs is None && container.rootfs_image is Some ==> paths[0]
                == container.rootfs_image->0@
            &&& container.rootfs is None && container.rootfs_image is Some && 0 <= k
                < container.mounts@.len() ==> paths[1 + k] == container.mounts@[k].source@
            &&& container.rootfs is Some && container.rootfs_image is None && 0 <= k
                < container.mounts@.len() ==> paths[1 + k] == container.mounts@[k].source@
            &&& container.environment_file matches Some(path) ==> paths.len() > 0 && paths.last()
                == path@
        }),
{
}

} // verus!
