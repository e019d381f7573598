//! The root file system of a container: a directory, or an image that is
//! mounted for as long as the container lives.
use vstd::prelude::*;

use crate::config::model::Config;
use crate::helper::fs::{optional_view, Mount, MS_NOATIME, MS_NODIRATIME};
use crate::path::{join, join_paths};
use crate::plan::{mount, mount_step, Action};

verus! {

/// Where the root of a container comes from.
pub struct Rootfs {
    configured: Option<String>,
    image: Option<String>,
    mountpoint: String,
}

/// The file systems that an image may hold.
#[derive(Clone, Copy, Debug, PartialEq, Eq, Structural)]
pub enum Filesystem {
    Ext4,
    Btrfs,
}

impl Filesystem {
    pub open spec fn text(self) -> Seq<char> {
        match self {
            Filesystem::Ext4 => "ext4"@,
            Filesystem::Btrfs => "btrfs"@,
        }
    }

    /// The name by which it is mounted.
    pub fn name(self) -> (name: &'static str)
        ensures
            name@ == self.text(),
    {
        match self {
            Filesystem::Ext4 => "ext4",
            Filesystem::Btrfs => "btrfs",
        }
    }
}

/// How much of an image is read to tell its file system.
pub const HEADER_BYTES: usize = 0x10048;

/// The magic number of ext4 at its place.
pub open spec fn ext4_magic(header: Seq<u8>) -> bool {
    header.len() >= 0x43a && header[0x438] == 0x53 && header[0x439] == 0xef
}

/// The magic number of btrfs at its place: `_BHRfS_M`.
pub open spec fn btrfs_magic(header: Seq<u8>) -> bool {
    header.len() >= 0x10048 && header.subrange(0x10040, 0x10048) == seq![
        0x5fu8,
        0x42,
        0x48,
        0x52,
        0x66,
        0x53,
        0x5f,
        0x4d,
    ]
}

/// The file system of an image that begins with these bytes.
pub open spec fn filesystem_of(header: Seq<u8>) -> Option<Filesystem> {
    if ext4_magic(header) {
        Some(Filesystem::Ext4)
    } else if btrfs_magic(header) {
        Some(Filesystem::Btrfs)
    } else {
        None
    }
}

/// The file system of an image that begins with these bytes.
pub fn detect_filesystem(header: &[u8]) -> (filesystem: Option<Filesystem>)
    ensures
        filesystem == filesystem_of(header@),
{
    if header.len() >= 0x43a && header[0x438] == 0x53 && header[0x439] == 0xef {
        return Some(Filesystem::Ext4);
    }
    if header.len() >= 0x10048 {
        let found = header[0x10040] == 0x5f && header[0x10041] == 0x42 && header[0x10042] == 0x48
            && header[0x10043] == 0x52 && header[0x10044] == 0x66 && header[0x10045] == 0x53
            && header[0x10046] == 0x5f && header[0x10047] == 0x4d;
        let ghost magic = header@.subrange(0x10040, 0x10048);
        let ghost wanted = seq![0x5fu8, 0x42, 0x48, 0x52, 0x66, 0x53, 0x5f, 0x4d];
        if found {
            assert(magic =~= wanted);
            return Some(Filesystem::Btrfs);
        }
        assert(magic != wanted) by {
            if magic == wanted {
                assert(magic[0] == wanted[0] && magic[1] == wanted[1] && magic[2] == wanted[2]
                    && magic[3] == wanted[3] && magic[4] == wanted[4] && magic[5] == wanted[5]
                    && magic[6] == wanted[6] && magic[7] == wanted[7]);
            }
        }
    }
    None
}

/// How the root of a container is got ready.
#[derive(Debug, PartialEq, Eq)]
pub enum RootfsPlan {
    /// The directory is used as it is.
    Directory(String),
    /// The image is mounted at the mount point.
    Image { image: String, mountpoint: String },
}

/// A step in letting go of a root.
#[derive(Clone, Copy, Debug, PartialEq, Eq, Structural)]
pub enum ReleaseStep {
    /// Detaches the mount.
    Unmount,
    /// Lets go of the loop device.
    ClearLoop,
    /// Removes the mount point.
    RemoveMountpoint,
}

impl Rootfs {
    pub closed spec fn directory(&self) -> Option<Seq<char>> {
        optional_view(self.configured)
    }

    pub closed spec fn image_path(&self) -> Option<Seq<char>> {
        optional_view(self.image)
    }

    pub closed spec fn mount_path(&self) -> Seq<char> {
        self.mountpoint@
    }

    /// The root of a container, whose image is mounted below `mount_dir`.
    pub fn new(config: &Config, mount_dir: &str) -> (rootfs: Rootfs)
        ensures
            rootfs.directory() == optional_view(config.container.rootfs),
            rootfs.image_path() == optional_view(config.container.rootfs_image),
            rootfs.mount_path() == join(mount_dir@, config.container.name@),
    {
        Rootfs {
            configured: match &config.container.rootfs {
                Some(path) => Some(path.clone()),
                None => None,
            },
            image: match &config.container.rootfs_image {
                Some(path) => Some(path.clone()),
                None => None,
            },
            mountpoint: join_paths(mount_dir, &config.container.name),
        }
    }

    /// How the root is got ready; nothing where none is configured.
    pub fn prepare(&self) -> (plan: Option<RootfsPlan>)
        ensures
            match plan {
                Some(RootfsPlan::Directory(path)) => self.directory() == Some(path@),
                Some(RootfsPlan::Image { image, mountpoint }) => self.directory() is None
                    && self.image_path() == Some(image@) && mountpoint@ == self.mount_path(),
                None => self.directory() is None && self.image_path() is None,
            },
    {
        match &self.configured {
            Some(path) => Some(RootfsPlan::Directory(path.clone())),
            None => match &self.image {
                Some(image) => Some(
                    RootfsPlan::Image {
                        image: image.clone(),
                        mountpoint: self.mountpoint.clone(),
                    },
                ),
                None => None,
            },
        }
    }
}

/// The mount of an image, or of the device that stands for it.
pub open spec fn image_step(
    source: Seq<char>,
    mountpoint: Seq<char>,
    filesystem: Filesystem,
) -> Action<Seq<char>> {
    mount_step(
        Some(source),
        mountpoint,
        Some(filesystem.text()),
        MS_NOATIME | MS_NODIRATIME,
        None,
    )
}

/// The mount of an image, or of the device that stands for it.
pub fn mount_image(source: &str, mountpoint: &str, filesystem: Filesystem) -> (action: Action<
    String,
>)
    ensures
        action@ == image_step(source@, mountpoint@, filesystem),
        action@ == mount_step(
            Some(source@),
            mountpoint@,
            Some(filesystem.text()),
            MS_NOATIME | MS_NODIRATIME,
            None,
        ),
{
    mount(
        Some(source),
        mountpoint,
        Some(filesystem.name()),
        MS_NOATIME | MS_NODIRATIME,
        None,
    )
}

/// What is left to let go of once the container is gone.
pub open spec fn release_order(mounted: bool, looped: bool) -> Seq<ReleaseStep> {
    (if mounted {
        seq![ReleaseStep::Unmount]
    } else {
        Seq::empty()
    }) + (if looped {
        seq![ReleaseStep::ClearLoop]
    } else {
        Seq::empty()
    }) + (if mounted {
        seq![ReleaseStep::RemoveMountpoint]
    } else {
        Seq::empty()
    })
}

/// What is left to let go of once the container is gone: first the mount, so
/// that the device is free, then the device, then the mount point.
pub fn release_steps(mounted: bool, looped: bool) -> (steps: Vec<ReleaseStep>)
    ensures
        steps@ == release_order(mounted, looped),
        steps@ == (if mounted {
            seq![ReleaseStep::Unmount]
        } else {
            Seq::empty()
        }) + (if looped {
            seq![ReleaseStep::ClearLoop]
        } else {
            Seq::empty()
        }) + (if mounted {
            seq![ReleaseStep::RemoveMountpoint]
        } else {
            Seq::empty()
        }),
{
    let mut steps: Vec<ReleaseStep> = Vec::new();
    if mounted {
        steps.push(ReleaseStep::Unmount);
    }
    if looped {
        steps.push(ReleaseStep::ClearLoop);
    }
    if mounted {
        steps.push(ReleaseStep::RemoveMountpoint);
    }
    steps
}

/// An image is of the file system whose magic number it holds, at the place
/// where that file system keeps it; of no other it is told.
pub proof fn law_images_are_told_by_their_magic(header: Seq<u8>)
    ensures
        filesystem_of(header) == Some(Filesystem::Ext4) <==> header.len() > 0x439
            && header[0x438] == 0x53 && header[0x439] == 0xef,
        filesystem_of(header) == Some(Filesystem::Btrfs) ==> header.len() > 0x10047
            && header[0x10040] == '_' as u8 && header[0x10041] == 'B' as u8 && header[0x10042]
            == 'H' as u8 && header[0x10043] == 'R' as u8 && header[0x10044] == 'f' as u8
            && header[0x10045] == 'S' as u8 && header[0x10046] == '_' as u8 && header[0x10047]
            == 'M' as u8,
        !(header.len() > 0x439 && header[0x438] == 0x53 && header[0x439] == 0xef)
            && header.len() > 0x10047 && header[0x10040] == '_' as u8 && header[0x10041] == 'B' as u8
            && header[0x10042] == 'H' as u8 && header[0x10043] == 'R' as u8 && header[0x10044]
            == 'f' as u8 && header[0x10045] == 'S' as u8 && header[0x10046] == '_' as u8
            && header[0x10047] == 'M' as u8 ==> filesystem_of(header) == Some(Filesystem::Btrfs),
        HEADER_BYTES == 0x10048,
        Filesystem::Ext4.text() == "ext4"@,
        Filesystem::Btrfs.text() == "btrfs"@,
{
    if header.len() > 0x10047 {
        let magic = header.subrange(0x10040, 0x10048);
        let wanted = seq![0x5fu8, 0x42, 0x48, 0x52, 0x66, 0x53, 0x5f, 0x4d];
        assert(magic[0] == header[0x10040] && magic[1] == header[0x10041] && magic[2]
            == header[0x10042] && magic[3] == header[0x10043] && magic[4] == header[0x10044]
            && magic[5] == header[0x10045] && magic[6] == header[0x10046] && magic[7]
            == header[0x10047]);
        if magic == wanted {
            assert(wanted[0] == 0x5f && wanted[1] == 0x42 && wanted[2] == 0x48 && wanted[3] == 0x52
                && wanted[4] == 0x66 && wanted[5] == 0x53 && wanted[6] == 0x5f && wanted[7]
                == 0x4d);
        }
        if header[0x10040] == '_' as u8 && header[0x10041] == 'B' as u8 && header[0x10042]
            == 'H' as u8 && header[0x10043] == 'R' as u8 && header[0x10044] == 'f' as u8
            && header[0x10045] == 'S' as u8 && header[0x10046] == '_' as u8 && header[0x10047]
            == 'M' as u8 {
            assert(magic =~= wanted);
        }
    }
}

/// An image is mounted as the file system that it holds, without keeping
/// account of who reads it.
pub proof fn law_images_are_mounted(
    source: Seq<char>,
    mountpoint: Seq<char>,
    filesystem: Filesystem,
)
    ensures
        image_step(source, mountpoint, filesystem) == Action::Mount(
            Mount {
                source: Some(source),
                target: mountpoint,
                filesystem: Some(
                    if filesystem == Filesystem::Ext4 {
                        "ext4"@
                    } else {
                        "btrfs"@
                    },
                ),
                flags: 0xc00,
                data: None,
            },
        ),
{
    assert(0x400u64 | 0x800u64 == 0xc00) by (bit_vector);
}

/// What was mounted is unmounted first, and its mount point removed last; a
/// loop device is let go of in between, so that it is no longer in use.
pub proof fn law_roots_are_released_in_order(mounted: bool, looped: bool)
    ensures
        ({
            let steps = release_order(mounted, looped);
            &&& mounted ==> steps[0] == ReleaseStep::Unmount && steps.last()
                == ReleaseStep::RemoveMountpoint
            &&& looped && mounted ==> steps.len() == 3 && steps[1] == ReleaseStep::ClearLoop
            &&& looped && !mounted ==> steps == seq![ReleaseStep::ClearLoop]
            &&& !looped && mounted ==> steps.len() == 2
            &&& !looped && !mounted ==> steps.len() == 0
        }),
{
    if looped && !mounted {
        assert(release_order(mounted, looped) =~= seq![ReleaseStep::ClearLoop]);
    }
}

} // verus!
