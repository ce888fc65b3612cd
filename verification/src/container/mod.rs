//! Sub-processes inside native containers.

pub mod exec;
pub mod tenant;
