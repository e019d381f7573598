//! Configuration: its schema, environment files, path resolution and
//! validation.
pub mod environment_file;
pub mod identity;
pub mod model;
pub mod names;
pub mod resolve;
pub mod validate;
