//! Bringing a Meridian deployment up where there is a terminal.
use vstd::prelude::*;

pub mod arguments;
pub mod catalogue;
pub mod commands;
pub mod connect;
pub mod digest;
pub mod doctor;
pub mod label;
pub mod machine;
pub mod number;
pub mod order;
pub mod path;
pub mod percent;
pub mod plugin;
pub mod request;
pub mod sessions;
pub mod text;
pub mod tree;
pub mod up;
pub mod yaml;

verus! {

} // verus!
