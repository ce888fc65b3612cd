//! Loading the components of modules, and what their servers are run with.

use vstd::prelude::*;
use wasmtime::component::Component;
use wasmtime::Engine;

use crate::capabilities::sandbox_router::SandboxPermissions;

verus! {

/// `wasmtime::Engine`.
#[verifier::external_type_specification]
#[verifier::external_body]
pub struct ExEngine(wasmtime::Engine);

/// `wasmtime::component::Component`.
#[verifier::external_type_specification]
#[verifier::external_body]
pub struct ExComponent(wasmtime::component::Component);

/// What precompiled code looks like.
#[derive(Clone, Copy, Debug, PartialEq, Eq, Structural)]
pub enum PrecompiledKind {
    Module,
    Component,
}

/// What `wasmtime::Engine::detect_precompiled` says of bytes.
pub uninterp spec fn precompiled_kind(bytes: Seq<u8>) -> Option<PrecompiledKind>;

/// `wasmtime::Engine::detect_precompiled`: whether bytes look like code that was
/// compiled ahead of time, and of which kind. It reads nothing but the bytes: the
/// header of an ELF file.
#[verifier::external_body]
fn detect_precompiled(bytes: &[u8]) -> (res: Option<PrecompiledKind>)
    ensures
        res == precompiled_kind(bytes@),
{
    match Engine::detect_precompiled(bytes) {
        Some(wasmtime::Precompiled::Module) => Some(PrecompiledKind::Module),
        Some(wasmtime::Precompiled::Component) => Some(PrecompiledKind::Component),
        None => None,
    }
}

/// The ids of the interfaces that a component in the binary format imports.
pub uninterp spec fn binary_imports(bytes: Seq<u8>) -> Seq<Seq<char>>;

/// Compiling the bytes with the engine can end like this: with the component, or with
/// none.
pub uninterp spec fn compile_gives(
    engine: Engine,
    bytes: Seq<u8>,
    outcome: Option<Component>,
) -> bool;

/// `wasmtime::component::Component::from_binary`: compiles a component. The outcome is
/// one that compiling these bytes with this engine can have, and what was compiled
/// imports what the bytes say. Whether they can be compiled rests on the machine too, so
/// nothing is said of which outcome it is.
#[verifier::external_body]
fn component_from_binary(engine: &Engine, bytes: &[u8]) -> (res: Result<Component, String>)
    ensures
        compile_gives(
            *engine,
            bytes@,
            match res {
                Ok(component) => Some(component),
                Err(_) => None,
            },
        ),
        res matches Ok(component) ==> crate::capabilities::registry::component_imports(component)
            == binary_imports(bytes@),
{
    Component::from_binary(engine, bytes).map_err(|e| format!("{e:#}"))
}

/// What happened while a module's component is loaded.
#[derive(Clone, Copy, Debug, PartialEq, Eq, Structural)]
pub enum LoadEvent {
    /// The file could not be read.
    ReadFailed,
    /// The file was read. It looks like this.
    Read(Option<PrecompiledKind>),
    /// Precompiled code was taken over, or could not be.
    Deserialized(bool),
}

/// What is to be done next to load a component.
#[derive(Clone, Copy, Debug, PartialEq, Eq, Structural)]
pub enum LoadAction {
    /// Take over the precompiled code.
    Deserialize,
    /// Compile the bytes.
    Compile,
    /// The component is loaded.
    Done,
    /// There is no component.
    Fail,
}

/// Precompiled components are taken over; all else, and what cannot be taken over,
/// is compiled.
pub open spec fn load_step_spec(event: LoadEvent) -> LoadAction {
    match event {
        LoadEvent::ReadFailed => LoadAction::Fail,
        LoadEvent::Read(kind) => if kind == Some(PrecompiledKind::Component) {
            LoadAction::Deserialize
        } else {
            LoadAction::Compile
        },
        LoadEvent::Deserialized(ok) => if ok {
            LoadAction::Done
        } else {
            LoadAction::Compile
        },
    }
}

/// Decides how the loading of a component goes on.
pub fn load_step(event: LoadEvent) -> (res: LoadAction)
    ensures
        res == load_step_spec(event),
{
    match event {
        LoadEvent::ReadFailed => LoadAction::Fail,
        LoadEvent::Read(Some(PrecompiledKind::Component)) => LoadAction::Deserialize,
        LoadEvent::Read(_) => LoadAction::Compile,
        LoadEvent::Deserialized(true) => LoadAction::Done,
        LoadEvent::Deserialized(false) => LoadAction::Compile,
    }
}

/// Decides what is done with the bytes of a module's file, or with their absence.
pub fn module_read(bytes: Option<&Vec<u8>>) -> (res: LoadAction)
    ensures
        res == load_step_spec(
            match bytes {
                Some(b) => LoadEvent::Read(precompiled_kind(b@)),
                None => LoadEvent::ReadFailed,
            },
        ),
{
    match bytes {
        Some(b) => load_step(LoadEvent::Read(detect_precompiled(b.as_slice()))),
        None => load_step(LoadEvent::ReadFailed),
    }
}

/// The component that compiling gave, if it gave one.
pub fn compiled_component<C>(outcome: Result<C, String>) -> (res: Option<C>)
    ensures
        res == match outcome {
            Ok(component) => Some(component),
            Err(_) => None,
        },
{
    match outcome {
        Ok(component) => Some(component),
        Err(_) => None,
    }
}

/// The component of a module: the precompiled code where it was taken over, and
/// what compiling the bytes with the engine gave otherwise, which imports what the bytes
/// say. Whether they can be compiled is left open.
pub fn load_module_component(engine: &Engine, bytes: &Vec<u8>, aot: Option<Component>) -> (res:
    Option<Component>)
    ensures
        aot is Some ==> res == aot,
        aot is None ==> compile_gives(*engine, bytes@, res),
        aot is None ==> (res matches Some(component)
            ==> crate::capabilities::registry::component_imports(component) == binary_imports(
            bytes@,
        )),
{
    match aot {
        Some(component) => Some(component),
        None => compiled_component(component_from_binary(engine, bytes.as_slice())),
    }
}

/// What the component of a module is run with.
#[derive(Clone, Debug, PartialEq, Eq)]
pub struct ServerPlan {
    pub args: Vec<String>,
    pub inherit_stdio: bool,
    pub allow_tcp: bool,
    pub inherit_network: bool,
    pub allow_ip_name_lookup: bool,
}

/// The plan by which the component of a module is run: it is told its name and the
/// address to listen at, and has the host's streams and the host's network as far as
/// it is permitted. Without permissions it has neither.
pub fn run_component_server(name: &str, addr: &str, perms: SandboxPermissions) -> (res: ServerPlan)
    ensures
        res.args@.len() == 5,
        res.args@[0]@ == name@,
        res.args@[1]@ == "--addr"@,
        res.args@[2]@ == addr@,
        res.args@[3]@ == "--name"@,
        res.args@[4]@ == name@,
        res.inherit_stdio == perms.stdio,
        res.allow_tcp == perms.network,
        res.inherit_network == perms.network,
        res.allow_ip_name_lookup == perms.network,
{
    let mut args: Vec<String> = Vec::new();
    args.push(name.to_owned());
    args.push("--addr".to_owned());
    args.push(addr.to_owned());
    args.push("--name".to_owned());
    args.push(name.to_owned());
    ServerPlan {
        args,
        inherit_stdio: perms.stdio,
        allow_tcp: perms.network,
        inherit_network: perms.network,
        allow_ip_name_lookup: perms.network,
    }
}

/// The exit code of a component that ran to its end.
pub fn component_exit_code(run: Result<(), ()>) -> (res: i32)
    ensures
        res == if run is Ok {
            0i32
        } else {
            1i32
        },
{
    match run {
        Ok(()) => 0,
        Err(()) => 1,
    }
}

/// Only a precompiled component is taken over; what cannot be taken over, and all else
/// that could be read, is compiled; and there is nothing only where nothing could be
/// read.
pub proof fn law_all_that_is_read_is_taken_over_or_compiled(
    kind: Option<PrecompiledKind>,
    event: LoadEvent,
)
    ensures
        load_step_spec(LoadEvent::Read(kind)) is Deserialize <==> kind == Some(
            PrecompiledKind::Component,
        ),
        load_step_spec(LoadEvent::Read(kind)) is Deserialize || load_step_spec(
            LoadEvent::Read(kind),
        ) is Compile,
        load_step_spec(LoadEvent::Deserialized(true)) is Done,
        load_step_spec(LoadEvent::Deserialized(false)) is Compile,
        load_step_spec(event) is Fail <==> event is ReadFailed,
{
}

} // verus!
