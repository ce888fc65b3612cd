//! Configuration of instances and of the sub-processes inside them.

use std::path::PathBuf;

use vstd::prelude::*;

use crate::config::Config;

verus! {

/// `std::path::PathBuf`.
#[verifier::external_type_specification]
#[verifier::external_body]
pub struct ExPathBuf(std::path::PathBuf);

/// `<PathBuf as Clone>::clone` of the standard library: the copy is the same path.
pub assume_specification[ <PathBuf as Clone>::clone ](path: &PathBuf) -> (res: PathBuf)
    ensures
        res == *path,
;

/// Configuration for an exec sub-process inside a running container.
#[derive(Clone, Debug, Default)]
pub struct ExecConfig {
    pub stdin: Option<PathBuf>,
    pub stdout: Option<PathBuf>,
    pub stderr: Option<PathBuf>,
    /// OCI Process spec as raw JSON bytes.
    pub spec: Vec<u8>,
}

/// Generic options for creating a wasm instance.
#[derive(Clone, Debug, Default)]
pub struct InstanceConfig {
    /// Optional stdin named pipe path.
    pub stdin: PathBuf,
    /// Optional stdout named pipe path.
    pub stdout: PathBuf,
    /// Optional stderr named pipe path.
    pub stderr: PathBuf,
    /// Path to the OCI bundle directory.
    pub bundle: PathBuf,
    /// Namespace for containerd
    pub namespace: String,
    /// GRPC address back to main containerd
    pub containerd_address: String,
    /// containerd runtime options config
    pub config: Config,
}

} // verus!
