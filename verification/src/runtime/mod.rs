//! The life of a container: booting, supervising, stopping and describing it.
pub mod boot;
pub mod execute;
pub mod info;
pub mod install;
pub mod layout;
pub mod lifecycle;
pub mod state;
pub mod supervisor;
