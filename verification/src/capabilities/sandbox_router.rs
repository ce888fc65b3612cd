//! The `sandbox:router/sandbox-host` interface: a guest loads, unloads and allows
//! modules by name.

use std::marker::PhantomData;

use vstd::hash_set::StringHashSet;
use vstd::prelude::*;

use crate::capabilities::module_server::RestartPolicy;
use crate::capabilities::registry::WitCapability;
use crate::capabilities::store::CapabilityStore;
use crate::string_map::StringMap;
use crate::text::text_eq;

verus! {

/// The full id of the interface.
pub const INTERFACE_ID: &'static str = "sandbox:router/sandbox-host@0.1.0";

pub const DEFAULT_MAX_MODULE_RESTARTS: u32 = 5;

pub const DEFAULT_RESTART_BACKOFF_INITIAL_MS: u64 = 500;

pub const DEFAULT_MAX_RESTART_BACKOFF_MS: u64 = 30_000;

/// Permissions for a spawned module. The zero value is maximum isolation: all is denied.
#[derive(Clone, Copy, Debug, PartialEq, Eq)]
pub struct SandboxPermissions {
    pub network: bool,
    pub stdio: bool,
}

/// How module servers are restarted.
#[derive(Clone, Copy, Debug, PartialEq, Eq)]
pub struct SandboxRouterConfig {
    pub max_module_restarts: u32,
    pub restart_backoff_initial_ms: u64,
    pub max_restart_backoff_ms: u64,
}

impl Default for SandboxRouterConfig {
    fn default() -> (res: Self)
        ensures
            res.max_module_restarts == 5,
            res.restart_backoff_initial_ms == 500,
            res.max_restart_backoff_ms == 30_000,
    {
        SandboxRouterConfig {
            max_module_restarts: DEFAULT_MAX_MODULE_RESTARTS,
            restart_backoff_initial_ms: DEFAULT_RESTART_BACKOFF_INITIAL_MS,
            max_restart_backoff_ms: DEFAULT_MAX_RESTART_BACKOFF_MS,
        }
    }
}

impl SandboxRouterConfig {
    /// The policy that the servers of the router's modules are restarted by.
    pub fn restart_policy(&self) -> (res: RestartPolicy)
        ensures
            res.max_restarts == self.max_module_restarts,
            res.backoff_initial_ms == self.restart_backoff_initial_ms,
            res.max_backoff_ms == self.max_restart_backoff_ms,
    {
        RestartPolicy {
            max_restarts: self.max_module_restarts,
            backoff_initial_ms: self.restart_backoff_initial_ms,
            max_backoff_ms: self.max_restart_backoff_ms,
        }
    }
}

/// A loaded module: where its server listens, and what its task is cancelled and
/// aborted by.
pub struct ActiveModule<H> {
    pub addr: String,
    pub handle: H,
}

/// The modules of one execution: those that are loaded, and the names that were
/// unloaded and may not be loaded again.
#[verifier::reject_recursive_types(H)]
pub struct RouterState<H> {
    active: StringMap<ActiveModule<H>>,
    denied: StringHashSet,
}

/// What a router's state holds.
#[verifier::reject_recursive_types(H)]
pub struct RouterView<H> {
    pub active: Map<Seq<char>, ActiveModule<H>>,
    pub denied: Set<Seq<char>>,
}

impl<H> View for RouterState<H> {
    type V = RouterView<H>;

    closed spec fn view(&self) -> RouterView<H> {
        RouterView { active: self.active@, denied: self.denied@ }
    }
}

impl<H> RouterView<H> {
    /// The state of a router that nothing was asked of yet.
    pub open spec fn initial() -> RouterView<H> {
        RouterView { active: Map::empty(), denied: Set::empty() }
    }

    /// What a request to add a module is answered at once: nothing for a name that
    /// is denied, the address for one that is loaded. `None`: it has to be loaded.
    pub open spec fn answer(self, name: Seq<char>) -> Option<Seq<char>> {
        if self.denied.contains(name) {
            Some(Seq::empty())
        } else if self.active.contains_key(name) {
            Some(self.active[name].addr@)
        } else {
            None
        }
    }

    /// The state once a module has been started.
    pub open spec fn started(self, name: Seq<char>, module: ActiveModule<H>) -> RouterView<H> {
        RouterView { active: self.active.insert(name, module), ..self }
    }

    /// The state once a module has been removed.
    pub open spec fn removed(self, name: Seq<char>) -> RouterView<H> {
        RouterView { active: self.active.remove(name), denied: self.denied.insert(name) }
    }

    /// The state once a name has been allowed again.
    pub open spec fn allowed(self, name: Seq<char>) -> RouterView<H> {
        RouterView { denied: self.denied.remove(name), ..self }
    }
}

/// What happened to a request to add a module.
pub enum AddModuleEvent {
    /// The guest asks for the module.
    Requested,
    /// The component was loaded, or could not be.
    Loaded(bool),
    /// A free port was found, at this address, or none.
    Bound(Option<String>),
}

/// What is to be done next for a request to add a module.
#[derive(Debug, PartialEq, Eq)]
pub enum AddModuleAction {
    /// Answer the guest: the module's address, or nothing.
    Reply(String),
    /// Load the component.
    Load,
    /// Find a free port on the loopback interface.
    Bind,
    /// Start the module's server at this address, and record it.
    Start(String),
}

/// Decides how a request to add a module goes on.
pub fn host_add_module<H>(state: &RouterState<H>, name: &str, event: AddModuleEvent) -> (res:
    AddModuleAction)
    ensures
        match event {
            AddModuleEvent::Requested => match state@.answer(name@) {
                Some(text) => res matches AddModuleAction::Reply(reply) && reply@ == text,
                None => res is Load,
            },
            AddModuleEvent::Loaded(true) => res is Bind,
            AddModuleEvent::Loaded(false) => res matches AddModuleAction::Reply(reply) && reply@
                == Seq::<char>::empty(),
            AddModuleEvent::Bound(Some(addr)) => res == AddModuleAction::Start(addr),
            AddModuleEvent::Bound(None) => res matches AddModuleAction::Reply(reply) && reply@
                == Seq::<char>::empty(),
        },
{
    match event {
        AddModuleEvent::Requested => {
            if state.denied.contains(name) {
                return AddModuleAction::Reply(String::new());
            }
            match state.active.get(name) {
                Some(module) => AddModuleAction::Reply(module.addr.clone()),
                None => AddModuleAction::Load,
            }
        },
        AddModuleEvent::Loaded(loaded) => if loaded {
            AddModuleAction::Bind
        } else {
            AddModuleAction::Reply(String::new())
        },
        AddModuleEvent::Bound(addr) => match addr {
            Some(addr) => AddModuleAction::Start(addr),
            None => AddModuleAction::Reply(String::new()),
        },
    }
}

/// Records a module whose server was started. Returns the address that the guest
/// is answered, and the module that this one takes the place of.
pub fn module_started<H>(state: &mut RouterState<H>, name: String, addr: String, handle: H) -> (res:
    (String, Option<ActiveModule<H>>))
    ensures
        final(state)@ == old(state)@.started(name@, (ActiveModule { addr, handle })),
        res.0@ == addr@,
        res.1 == (if old(state)@.active.contains_key(name@) {
            Some(old(state)@.active[name@])
        } else {
            None
        }),
{
    let reply = addr.clone();
    let replaced = state.active.insert(name, ActiveModule { addr, handle });
    (reply, replaced)
}

/// Unloads a module, and denies its name until it is allowed again. Returns the
/// module whose server is to be cancelled.
pub fn host_remove_module<H>(state: &mut RouterState<H>, name: String) -> (res: Option<
    ActiveModule<H>,
>)
    ensures
        final(state)@ == old(state)@.removed(name@),
        res == (if old(state)@.active.contains_key(name@) {
            Some(old(state)@.active[name@])
        } else {
            None
        }),
{
    let module = state.active.remove(name.as_str());
    state.denied.insert(name);
    module
}

/// Lets a name be loaded again.
pub fn host_allow_module<H>(state: &mut RouterState<H>, name: &str)
    ensures
        final(state)@ == old(state)@.allowed(name@),
{
    state.denied.remove(name);
}

impl<H> RouterState<H> {
    /// A router that nothing was asked of yet.
    pub fn new() -> (res: Self)
        ensures
            res@ == RouterView::<H>::initial(),
    {
        RouterState { active: StringMap::new(), denied: StringHashSet::new() }
    }
}

/// Offers the interface to components. `H` is what the tasks of its modules are
/// cancelled and aborted by.
#[verifier::reject_recursive_types(H)]
pub struct SandboxRouterCapability<H> {
    pub config: SandboxRouterConfig,
    pub handles: PhantomData<H>,
}

impl<H> SandboxRouterCapability<H> {
    /// The capability with the default configuration: five restarts, the first after
    /// half a second, and none after more than half a minute.
    pub open spec fn with_defaults() -> Self {
        SandboxRouterCapability {
            config: SandboxRouterConfig {
                max_module_restarts: 5,
                restart_backoff_initial_ms: 500,
                max_restart_backoff_ms: 30_000,
            },
            handles: PhantomData,
        }
    }

    /// The capability with the default configuration.
    pub fn new() -> (res: Self)
        ensures
            res == Self::with_defaults(),
    {
        SandboxRouterCapability { config: SandboxRouterConfig::default(), handles: PhantomData }
    }
}

impl<H> WitCapability for SandboxRouterCapability<H> {
    type State = RouterState<H>;

    open spec fn id(&self) -> Seq<char> {
        INTERFACE_ID@
    }

    open spec fn function_names(&self) -> Seq<Seq<char>> {
        seq!["add-module"@, "remove-module"@, "allow-module"@]
    }

    open spec fn is_initial(&self, state: RouterState<H>) -> bool {
        state@ == RouterView::<H>::initial()
    }

    fn interface_id(&self) -> (res: &str) {
        INTERFACE_ID
    }

    fn functions(&self) -> (res: Vec<String>) {
        let mut res: Vec<String> = Vec::new();
        res.push("add-module".to_owned());
        res.push("remove-module".to_owned());
        res.push("allow-module".to_owned());
        assert(crate::capabilities::registry::texts(res@) =~= self.function_names());
        res
    }

    fn init_store(&self, store: &mut CapabilityStore<RouterState<H>>) {
        store.set_ext(self.interface_id(), RouterState::new());
    }
}

/// A host function of the interface.
#[derive(Clone, Copy, Debug, PartialEq, Eq, Structural)]
pub enum HostFunction {
    AddModule,
    RemoveModule,
    AllowModule,
}

/// The host function that a name of the interface stands for.
pub open spec fn host_function_spec(name: Seq<char>) -> Option<HostFunction> {
    if name == "add-module"@ {
        Some(HostFunction::AddModule)
    } else if name == "remove-module"@ {
        Some(HostFunction::RemoveModule)
    } else if name == "allow-module"@ {
        Some(HostFunction::AllowModule)
    } else {
        None
    }
}

/// The host function that a name of the interface stands for.
pub fn host_function(name: &str) -> (res: Option<HostFunction>)
    ensures
        res == host_function_spec(name@),
{
    if text_eq(name, "add-module") {
        Some(HostFunction::AddModule)
    } else if text_eq(name, "remove-module") {
        Some(HostFunction::RemoveModule)
    } else if text_eq(name, "allow-module") {
        Some(HostFunction::AllowModule)
    } else {
        None
    }
}

/// Each function that is registered stands for a host function of its own, and no other
/// name stands for one.
pub proof fn law_registered_functions_are_known<H>(cap: SandboxRouterCapability<H>, name: Seq<char>)
    ensures
        cap.function_names().map_values(|f: Seq<char>| host_function_spec(f)) == seq![
            Some(HostFunction::AddModule),
            Some(HostFunction::RemoveModule),
            Some(HostFunction::AllowModule),
        ],
        host_function_spec(name) is Some <==> cap.function_names().contains(name),
{
    reveal_strlit("add-module");
    reveal_strlit("remove-module");
    reveal_strlit("allow-module");
    let names = cap.function_names();
    assert("add-module"@.len() != "remove-module"@.len());
    assert("add-module"@.len() != "allow-module"@.len());
    assert("remove-module"@.len() != "allow-module"@.len());
    assert(names[0] == "add-module"@ && names[1] == "remove-module"@ && names[2]
        == "allow-module"@);
}

/// Something that changes a router's state.
#[verifier::reject_recursive_types(H)]
pub enum RouterChange<H> {
    Started(Seq<char>, ActiveModule<H>),
    Removed(Seq<char>),
    Allowed(Seq<char>),
}

impl<H> RouterView<H> {
    /// The state after one change.
    pub open spec fn after(self, change: RouterChange<H>) -> RouterView<H> {
        match change {
            RouterChange::Started(name, module) => self.started(name, module),
            RouterChange::Removed(name) => self.removed(name),
            RouterChange::Allowed(name) => self.allowed(name),
        }
    }

    /// The state after one change after the other.
    pub open spec fn after_all(self, changes: Seq<RouterChange<H>>) -> RouterView<H>
        decreases changes.len(),
    {
        if changes.len() == 0 {
            self
        } else {
            self.after_all(changes.drop_last()).after(changes.last())
        }
    }
}

/// A module that was removed is answered nothing, whatever else happens, until its
/// name is allowed.
pub proof fn law_removed_until_allowed<H>(
    state: RouterView<H>,
    name: Seq<char>,
    changes: Seq<RouterChange<H>>,
)
    requires
        forall|i: int|
            0 <= i < changes.len() ==> #[trigger] changes[i] != RouterChange::<H>::Allowed(name),
    ensures
        state.removed(name).after_all(changes).answer(name) == Some(Seq::<char>::empty()),
{
    lemma_stays_denied(state.removed(name), name, changes);
}

/// A name that is denied stays so as long as it is not allowed.
proof fn lemma_stays_denied<H>(
    state: RouterView<H>,
    name: Seq<char>,
    changes: Seq<RouterChange<H>>,
)
    requires
        state.denied.contains(name),
        forall|i: int|
            0 <= i < changes.len() ==> #[trigger] changes[i] != RouterChange::<H>::Allowed(name),
    ensures
        state.after_all(changes).denied.contains(name),
    decreases changes.len(),
{
    if changes.len() > 0 {
        let front = changes.drop_last();
        assert(changes.last() == changes[changes.len() - 1]);
        assert(forall|i: int| 0 <= i < front.len() ==> front[i] == changes[i]);
        lemma_stays_denied(state, name, front);
    }
}

/// No name is both loaded and denied: that holds at first, and is kept by removing and
/// by allowing any name, and by starting one that had to be loaded.
pub proof fn law_loaded_is_not_denied<H>(
    state: RouterView<H>,
    name: Seq<char>,
    module: ActiveModule<H>,
)
    requires
        forall|n: Seq<char>| #[trigger] state.active.contains_key(n) ==> !state.denied.contains(n),
    ensures
        forall|n: Seq<char>| !#[trigger] RouterView::<H>::initial().active.contains_key(n),
        forall|n: Seq<char>| #[trigger]
            state.removed(name).active.contains_key(n) ==> !state.removed(name).denied.contains(n),
        forall|n: Seq<char>| #[trigger]
            state.allowed(name).active.contains_key(n) ==> !state.allowed(name).denied.contains(n),
        state.answer(name) is None ==> forall|n: Seq<char>| #[trigger]
            state.started(name, module).active.contains_key(n) ==> !state.started(
                name,
                module,
            ).denied.contains(n),
{
}

/// Once its name is allowed, a module that was removed is loaded anew.
pub proof fn law_allowed_after_removed<H>(state: RouterView<H>, name: Seq<char>)
    ensures
        state.removed(name).allowed(name).answer(name) == None::<Seq<char>>,
{
}

/// A module that was started is answered with its address from then on, as long as
/// no change concerns its name.
pub proof fn law_started_is_answered<H>(
    state: RouterView<H>,
    name: Seq<char>,
    module: ActiveModule<H>,
    changes: Seq<RouterChange<H>>,
)
    requires
        !state.denied.contains(name),
        forall|i: int|
            0 <= i < changes.len() ==> match #[trigger] changes[i] {
                RouterChange::Started(other, _) => other != name,
                RouterChange::Removed(other) => other != name,
                RouterChange::Allowed(_) => true,
            },
    ensures
        state.started(name, module).after_all(changes).answer(name) == Some(module.addr@),
    decreases changes.len(),
{
    if changes.len() > 0 {
        let front = changes.drop_last();
        assert(changes.last() == changes[changes.len() - 1]);
        assert(forall|i: int| 0 <= i < front.len() ==> front[i] == changes[i]);
        law_started_is_answered(state, name, module, front);
        let before = state.started(name, module).after_all(front);
        lemma_not_denied(state.started(name, module), name, front);
        assert(before.active.contains_key(name) && before.active[name].addr@ == module.addr@);
    }
}

/// Changes that do not remove a name do not deny it.
proof fn lemma_not_denied<H>(
    state: RouterView<H>,
    name: Seq<char>,
    changes: Seq<RouterChange<H>>,
)
    requires
        !state.denied.contains(name),
        forall|i: int|
            0 <= i < changes.len() ==> #[trigger] changes[i] != RouterChange::<H>::Removed(name),
    ensures
        !state.after_all(changes).denied.contains(name),
    decreases changes.len(),
{
    if changes.len() > 0 {
        let front = changes.drop_last();
        assert(changes.last() == changes[changes.len() - 1]);
        assert(forall|i: int| 0 <= i < front.len() ==> front[i] == changes[i]);
        lemma_not_denied(state, name, front);
    }
}

/// A change that concerns one name leaves what the others are answered as it was.
pub proof fn law_other_names_are_left_alone<H>(
    state: RouterView<H>,
    change: RouterChange<H>,
    other: Seq<char>,
)
    requires
        match change {
            RouterChange::Started(name, _) => name != other,
            RouterChange::Removed(name) => name != other,
            RouterChange::Allowed(name) => name != other,
        },
    ensures
        state.after(change).answer(other) == state.answer(other),
{
}

/// At first every name has to be loaded.
pub proof fn law_nothing_is_loaded_at_first<H>(name: Seq<char>)
    ensures
        RouterView::<H>::initial().answer(name) is None,
{
}

/// A name is answered by three things alone: nothing where it is denied, the module's
/// address where it is loaded and not denied, and otherwise it has to be loaded.
pub proof fn law_answers_follow_the_state<H>(state: RouterView<H>, name: Seq<char>)
    ensures
        state.answer(name) is None <==> !state.denied.contains(name)
            && !state.active.contains_key(name),
        state.denied.contains(name) ==> state.answer(name) == Some(Seq::<char>::empty()),
        !state.denied.contains(name) && state.active.contains_key(name) ==> state.answer(name)
            == Some(state.active[name].addr@),
{
}

/// Allowing a name leaves what is loaded as it is, so that a loaded module is answered
/// with its address.
pub proof fn law_allowing_unloads_nothing<H>(state: RouterView<H>, name: Seq<char>)
    ensures
        state.allowed(name).active == state.active,
        !state.allowed(name).denied.contains(name),
        state.active.contains_key(name) ==> state.allowed(name).answer(name) == Some(
            state.active[name].addr@,
        ),
{
}

/// A module is kept as it was started, with what its task is cancelled by, and starting
/// it denies and allows no name.
pub proof fn law_started_is_kept<H>(
    state: RouterView<H>,
    name: Seq<char>,
    module: ActiveModule<H>,
)
    ensures
        state.started(name, module).active.contains_key(name),
        state.started(name, module).active[name] == module,
        state.started(name, module).denied == state.denied,
        !state.removed(name).active.contains_key(name),
        state.removed(name).denied.contains(name),
{
}

/// The router's interface, its restarts and its pauses.
pub proof fn law_router_defaults<H>()
    ensures
        ({
            let cap = SandboxRouterCapability::<H>::with_defaults();
            &&& cap.id() == "sandbox:router/sandbox-host@0.1.0"@
            &&& cap.config.max_module_restarts == 5
            &&& cap.config.restart_backoff_initial_ms == 500
            &&& cap.config.max_restart_backoff_ms == 30_000
        }),
{
}

} // verus!
