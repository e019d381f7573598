use std::io::Write;

use kurumi_containerd::config::model::{
    default_init, AndroidConfig, Config, ContainerConfig, NetworkConfig, NetworkMode,
    ResourceConfig, RuntimeConfig, SecurityConfig,
};
use kurumi_containerd::container::security::Presence;
use kurumi_containerd::env::Environment;
use kurumi_containerd::helper::fs::{Mount, MS_BIND, MS_NOATIME, MS_NODIRATIME};
use kurumi_containerd::host::android::{
    requested, setup_after_pivot, setup_before_pivot, AndroidFacts, DeviceEntry, SelinuxError,
    SelinuxGuard,
};
use kurumi_containerd::host::archive::{
    archive_kind, ensure_safe_link, ensure_safe_path, entry_probes, supported_tar_entry,
    valid_tar_header, zip_entry, ArchiveKind, EntryError, LinkError, ZipEntry,
};
use kurumi_containerd::host::lease::{CountedLease, Release};
use kurumi_containerd::host::rootfs::{
    detect_filesystem, mount_image, release_steps, Filesystem, ReleaseStep, Rootfs, RootfsPlan,
};
use kurumi_containerd::plan::Action;
use kurumi_containerd::runtime::boot::{NodeKind, SymlinkError};

fn tar_data() -> Vec<u8> {
    let mut data = Vec::new();
    {
        let mut archive = tar::Builder::new(&mut data);
        let mut header = tar::Header::new_gnu();
        header.set_size(4);
        header.set_mode(0o755);
        header.set_uid(0);
        header.set_gid(0);
        header.set_cksum();
        archive.append_data(&mut header, "sbin/init", &b"init"[..]).unwrap();
        archive.finish().unwrap();
    }
    data
}

fn kind_of(data: &[u8]) -> Option<ArchiveKind> {
    archive_kind(&data[..data.len().min(512)])
}

#[test]
fn rejects_zip_parent_traversal() {
    assert!(ensure_safe_path("../escape", &Vec::new()).is_err());
}

#[test]
fn rejects_zip_symlink_escape() {
    assert!(ensure_safe_link("link", "../escape").is_err());
    assert!(ensure_safe_link("usr/link", "../lib").is_ok());
    assert!(ensure_safe_link("usr/link", "../../escape").is_err());
}

#[test]
fn recognizes_tar_header_without_extension() {
    let data = tar_data();
    assert!(valid_tar_header(&data[..512]));
    assert_eq!(kind_of(&data), Some(ArchiveKind::Tar));
}

#[test]
fn extracts_tar_and_compressed_tar_aliases() {
    let data = tar_data();
    let mut gzip = flate2::write::GzEncoder::new(Vec::new(), flate2::Compression::default());
    gzip.write_all(&data).unwrap();
    assert_eq!(kind_of(&gzip.finish().unwrap()), Some(ArchiveKind::Gzip));
    let mut xz = xz2::write::XzEncoder::new(Vec::new(), 1);
    xz.write_all(&data).unwrap();
    assert_eq!(kind_of(&xz.finish().unwrap()), Some(ArchiveKind::Xz));
    let zstd = zstd::stream::encode_all(&data[..], 1).unwrap();
    assert_eq!(kind_of(&zstd), Some(ArchiveKind::Zstd));
}

#[test]
fn rejects_unknown_archive_format() {
    assert_eq!(kind_of(b"not an archive"), None);
}

#[test]
fn zip_archives_are_recognized() {
    let mut archive = zip::ZipWriter::new(std::io::Cursor::new(Vec::new()));
    archive
        .start_file("sbin/init", zip::write::SimpleFileOptions::default().unix_permissions(0o755))
        .unwrap();
    archive.write_all(b"init").unwrap();
    let data = archive.finish().unwrap().into_inner();
    assert_eq!(kind_of(&data), Some(ArchiveKind::Zip));
    let empty = zip::ZipWriter::new(std::io::Cursor::new(Vec::new())).finish().unwrap();
    assert_eq!(kind_of(&empty.into_inner()), Some(ArchiveKind::Zip));
}

#[test]
fn broken_tar_headers_are_refused() {
    let mut data = tar_data();
    data[0] ^= 1;
    assert!(!valid_tar_header(&data[..512]));
    assert!(!valid_tar_header(&data[..511]));
    assert!(!valid_tar_header(&[0; 512]));
    let whole = tar_data();
    assert!(whole.len() > 512);
    assert!(!valid_tar_header(&whole));
    let mut padded = whole[..512].to_vec();
    padded.extend([0; 512]);
    assert!(valid_tar_header(&padded));
    assert_eq!(archive_kind(&padded), Some(ArchiveKind::Tar));
}

#[test]
fn extracts_zip_file_with_mode() {
    assert_eq!(zip_entry(Some(0o100755), false), ZipEntry::File(0o755));
    assert_eq!(zip_entry(Some(0o755), false), ZipEntry::File(0o755));
}

#[test]
fn rejects_tar_special_files() {
    assert!(!supported_tar_entry(tar::EntryType::fifo().as_byte()));
    assert!(!supported_tar_entry(tar::EntryType::character_special().as_byte()));
    assert!(!supported_tar_entry(tar::EntryType::block_special().as_byte()));
    assert!(supported_tar_entry(tar::EntryType::file().as_byte()));
    assert!(supported_tar_entry(tar::EntryType::dir().as_byte()));
    assert!(supported_tar_entry(tar::EntryType::symlink().as_byte()));
    assert!(supported_tar_entry(tar::EntryType::hard_link().as_byte()));
}

#[test]
fn zip_file_cannot_overwrite_symlink() {
    assert_eq!(entry_probes("/root", "bin/tool"), ["/root/bin", "/root/bin/tool"]);
    assert_eq!(
        ensure_safe_path("bin/tool", &vec![NodeKind::Other, NodeKind::Symlink]),
        Err(EntryError::Way(SymlinkError::Symlink(1)))
    );
    assert_eq!(
        ensure_safe_path("bin/tool", &vec![NodeKind::Other, NodeKind::Missing]),
        Ok(())
    );
}

#[test]
fn zip_directory_cannot_overwrite_symlink() {
    assert_eq!(
        ensure_safe_path("usr/", &vec![NodeKind::Symlink]),
        Err(EntryError::Way(SymlinkError::Symlink(0)))
    );
    assert_eq!(
        ensure_safe_path("usr", &vec![NodeKind::Unknown]),
        Err(EntryError::Way(SymlinkError::Unknown(0)))
    );
}

#[test]
fn zip_entries_are_told_apart_by_their_mode() {
    assert_eq!(zip_entry(Some(0o040700), true), ZipEntry::Directory(0o700));
    assert_eq!(zip_entry(Some(0o120777), false), ZipEntry::Symlink);
    assert_eq!(zip_entry(Some(0o010644), false), ZipEntry::Special);
}

#[test]
fn links_and_paths_stay_inside() {
    assert_eq!(ensure_safe_link("a/b/link", "/etc"), Err(LinkError::Absolute));
    assert_eq!(ensure_safe_link("a/b/link", "../../../x"), Err(LinkError::Escapes));
    assert_eq!(ensure_safe_link("a/b/link", "../../x"), Ok(()));
    assert_eq!(ensure_safe_link("a/link", "b/../../c"), Ok(()));
    assert_eq!(ensure_safe_path("/etc/passwd", &Vec::new()), Err(EntryError::Path));
    assert_eq!(ensure_safe_path("a/../b", &Vec::new()), Err(EntryError::Path));
}

// ---------------------------------------------------------------------------
// Root file systems
// ---------------------------------------------------------------------------
fn config() -> Config {
    Config {
        runtime: RuntimeConfig { workdir: "/run/x".to_owned(), stop_timeout_seconds: 15 },
        container: ContainerConfig {
            name: "box".to_owned(),
            uuid: None,
            rootfs: None,
            rootfs_image: Some("/srv/image".to_owned()),
            hostname: String::new(),
            init: default_init(),
            foreground: false,
            volatile: false,
            network: NetworkMode::Host,
            network_options: NetworkConfig::default(),
            android: AndroidConfig::default(),
            resources: ResourceConfig::default(),
            security: SecurityConfig::default(),
            mounts: Vec::new(),
            environment: Environment::new(),
            environment_file: None,
        },
    }
}

#[test]
fn roots_are_directories_or_images() {
    let mut config = config();
    assert_eq!(
        Rootfs::new(&config, "/run/m").prepare(),
        Some(RootfsPlan::Image {
            image: "/srv/image".to_owned(),
            mountpoint: "/run/m/box".to_owned(),
        })
    );
    config.container.rootfs = Some("/srv/root".to_owned());
    assert_eq!(
        Rootfs::new(&config, "/run/m").prepare(),
        Some(RootfsPlan::Directory("/srv/root".to_owned()))
    );
    config.container.rootfs = None;
    config.container.rootfs_image = None;
    assert_eq!(Rootfs::new(&config, "/run/m").prepare(), None);
}

#[test]
fn file_systems_are_told_by_their_magic() {
    let mut image = vec![0u8; 0x10048];
    assert_eq!(detect_filesystem(&image), None);
    image[0x10040..0x10048].copy_from_slice(b"_BHRfS_M");
    assert_eq!(detect_filesystem(&image), Some(Filesystem::Btrfs));
    assert_eq!(detect_filesystem(&image[..0x10047]), None);
    image[0x438] = 0x53;
    image[0x439] = 0xef;
    assert_eq!(detect_filesystem(&image), Some(Filesystem::Ext4));
    assert_eq!(detect_filesystem(&image[..0x43a]), Some(Filesystem::Ext4));
    assert_eq!(detect_filesystem(&image[..0x439]), None);
    assert_eq!(Filesystem::Btrfs.name(), "btrfs");
}

#[test]
fn images_are_mounted_and_released() {
    assert_eq!(
        mount_image("/dev/loop0", "/run/m/box", Filesystem::Ext4),
        Action::Mount(Mount {
            source: Some("/dev/loop0".to_owned()),
            target: "/run/m/box".to_owned(),
            filesystem: Some("ext4".to_owned()),
            flags: MS_NOATIME | MS_NODIRATIME,
            data: None,
        })
    );
    assert_eq!(
        release_steps(true, true),
        [ReleaseStep::Unmount, ReleaseStep::ClearLoop, ReleaseStep::RemoveMountpoint]
    );
    assert_eq!(
        release_steps(true, false),
        [ReleaseStep::Unmount, ReleaseStep::RemoveMountpoint]
    );
    assert_eq!(release_steps(false, false), []);
}

// ---------------------------------------------------------------------------
// Android
// ---------------------------------------------------------------------------
fn nothing() -> AndroidFacts {
    AndroidFacts {
        graphics: vec![Vec::new(), Vec::new(), Vec::new(), Vec::new()],
        binder: vec![Presence::Missing; 3],
        x11_socket: Presence::Missing,
        virgl_socket: Presence::Missing,
        pulse_socket: Presence::Missing,
    }
}

#[test]
fn android_shares_what_is_asked_for() {
    let mut android = AndroidConfig::default();
    assert!(!requested(&android));
    assert!(setup_before_pivot("/root", &android, true).is_empty());
    assert!(setup_after_pivot(&android, &nothing()).is_empty());
    android.storage = true;
    assert!(requested(&android));
    assert!(!setup_before_pivot("/root", &android, true).is_empty());
    android.gpu = true;
    let mut facts = nothing();
    facts.graphics[1].push(DeviceEntry { name: "null".to_owned(), directory: false });
    facts.graphics[1].push(DeviceEntry { name: "kgsl-3d0".to_owned(), directory: false });
    facts.graphics[0].push(DeviceEntry { name: "renderD128".to_owned(), directory: false });
    let bind = |source: &str, target: &str| {
        Action::Mount(Mount {
            source: Some(source.to_owned()),
            target: target.to_owned(),
            filesystem: None,
            flags: MS_BIND,
            data: None,
        })
    };
    assert_eq!(
        setup_after_pivot(&android, &facts),
        [
            Action::CreateDirAll("/dev/dri".to_owned()),
            Action::CreateFile("/dev/dri/renderD128".to_owned()),
            bind("/.old_root/dev/dri/renderD128", "/dev/dri/renderD128"),
            Action::CreateDirAll("/dev".to_owned()),
            Action::CreateFile("/dev/kgsl-3d0".to_owned()),
            bind("/.old_root/dev/kgsl-3d0", "/dev/kgsl-3d0"),
        ]
    );
    android.gpu = false;
    android.binder = true;
    android.virgl = true;
    facts.binder[1] = Presence::File;
    assert_eq!(
        setup_after_pivot(&android, &facts),
        [
            Action::CreateDirAll("/dev".to_owned()),
            Action::CreateFile("/dev/hwbinder".to_owned()),
            bind("/.old_root/dev/hwbinder", "/dev/hwbinder"),
            Action::ReportMissing {
                source: "/.old_root/data/data/com.termux/files/usr/tmp/.virgl_test".to_owned(),
                target: "/tmp/.virgl_test".to_owned(),
            },
        ]
    );
}

#[test]
fn selinux_is_left_as_it_was_found() {
    let mut android = AndroidConfig::default();
    let none = CountedLease { users: 0, restore: false };
    let (mut guard, change) =
        SelinuxGuard::apply(&android, "/run/k", true, none, true).unwrap();
    assert!(change.is_none());
    assert_eq!(guard.take(), None);
    android.selinux_permissive = true;
    assert!(matches!(
        SelinuxGuard::apply(&android, "/run/k", false, none, true),
        Err(SelinuxError::Unavailable)
    ));
    let (mut guard, change) = SelinuxGuard::apply(&android, "/run/k", true, none, true).unwrap();
    let change = change.unwrap();
    assert!(change.make_permissive);
    assert_eq!(change.lease.users, 1);
    assert_eq!(guard.take().as_deref(), Some("/run/k"));
    assert_eq!(guard.take(), None);
    assert_eq!(SelinuxGuard::release(change.lease), Release::Remove { restore: true });
}
