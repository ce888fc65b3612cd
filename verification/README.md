# runwasi_sandbox

The rules by which a containerd shim runs WebAssembly components and the native
sub-processes of containers, proved with Verus.

- `src/capabilities/`: which host interfaces a component gets, the modules that a
  guest loads through `sandbox:router/sandbox-host`, and how their servers are
  restarted.
- `src/container/`: the exec sub-processes of a container, and how they are spawned.
- `src/sandbox/`: the tasks of a sandbox with in-memory instances, and CRI
  annotations.
- `src/config.rs`: runtime options, from their protobuf message and its TOML body.
- `src/text.rs`, `src/string_map.rs`, `src/sync.rs`, `src/error.rs`,
  `src/instance.rs`: what the others build on.
- `app/`: the asynchronous host around the library. It does the I/O that the library
  asks for and tells it what came of it.

Decisions that alternate with I/O are functions from a state and an event to the next
state and an action. Proof functions named `law_…` state what holds of several
operations together.
