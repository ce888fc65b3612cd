//! Rules and state of a WebAssembly sandbox host.

pub mod capabilities;
pub mod config;
pub mod container;
pub mod error;
pub mod instance;
pub mod sandbox;
pub mod string_map;
pub mod sync;
pub mod text;
