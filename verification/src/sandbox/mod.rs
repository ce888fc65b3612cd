//! Containers, as the sandbox service sees them.

pub mod local;
pub mod spec;
pub mod stub;
