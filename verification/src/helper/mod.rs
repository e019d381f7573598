//! What stands between the runtime and the kernel: mounts, signals, process
//! status, passed descriptors and system call filters, as plain values.
pub mod fs;
pub mod security;
pub mod process;
pub mod signal;
pub mod terminal;
