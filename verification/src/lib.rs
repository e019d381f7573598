use vstd::prelude::*;

pub mod config;
pub mod container;
pub mod edition;
pub mod env;
pub mod helper;
pub mod host;
pub mod order;
pub mod path;
pub mod plan;
pub mod runtime;
pub mod text;

verus! {

} // verus!
