[package]
name = "runwasi_sandbox"
version = "0.1.0"
edition = "2021"
publish = false

[dependencies]
anyhow = "1"
chrono = { version = "0.4", default-features = false, features = ["clock", "std"] }
containerd-shim = { version = "*", features = ["async"] }
futures = "0.3"
libc = "0.2"
libcontainer = { version = "0.5", default-features = false, features = ["v1", "v2"] }
log = "0.4"
nix = { version = "0.29", features = ["signal", "process"] }
protobuf = "3"
serde = { version = "1", features = ["derive"] }
serde_json = "1"
tempfile = "3"
tokio = { version = "1", features = ["full"] }
tokio-async-drop = "0.1"
tokio-util = { version = "0.7", features = ["rt"] }
toml = "0.8"
trait-variant = "0.1"
wasmtime = { version = "36", default-features = false, features = ["runtime", "cranelift", "component-model", "async", "std"] }
wasmtime-wasi = "36"
wasmtime-wasi-http = "36"
