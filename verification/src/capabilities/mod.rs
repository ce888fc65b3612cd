//! Capabilities that the host offers to components.

pub mod module_loader;
pub mod module_server;
pub mod registry;
pub mod sandbox_router;
pub mod store;
