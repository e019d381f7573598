//! What the runtime does on the host: processes, terminals, root file systems,
//! control groups, networking and archives.
pub mod android;
pub mod archive;
pub mod cgroup;
pub mod check;
pub mod lease;
pub mod network;
pub mod process;
pub mod rootfs;
pub mod terminal;
