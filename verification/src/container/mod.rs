//! What happens inside the container: its init system, its environment and
//! what it is kept from.
pub mod environment;
pub mod init;
pub mod security;
