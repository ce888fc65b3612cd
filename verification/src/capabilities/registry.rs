//! Which capabilities are offered, and which of them a component gets.

use vstd::prelude::*;
use wasmtime::component::Component;
use wasmtime::Engine;

use crate::capabilities::sandbox_router::SandboxRouterCapability;
use crate::capabilities::store::CapabilityStore;
use crate::error::{Error, ErrorView};
use crate::text::{has_prefix, list_items, text_eq};

verus! {

/// What an environment variable that restricts the capabilities begins with.
pub const CAPABILITIES_PREFIX: &'static str = "WASMTIME_CAPABILITIES=";

/// What the ids of the host's built-in interfaces begin with.
pub const BUILT_IN_PREFIX: &'static str = "wasi:";

/// A step by which a linker is filled: first an interface is opened, and then each
/// of its functions is defined.
#[derive(Clone, Debug, PartialEq, Eq)]
pub struct LinkerStep {
    pub interface: String,
    pub function: Option<String>,
}

/// A step whose texts are sequences of characters.
pub struct LinkerStepView {
    pub interface: Seq<char>,
    pub function: Option<Seq<char>>,
}

impl View for LinkerStep {
    type V = LinkerStepView;

    open spec fn view(&self) -> LinkerStepView {
        LinkerStepView {
            interface: self.interface@,
            function: match self.function {
                Some(f) => Some(f@),
                None => None,
            },
        }
    }
}

/// The views of a list of texts.
pub open spec fn texts(list: Seq<String>) -> Seq<Seq<char>> {
    list.map_values(|s: String| s@)
}

/// A single WIT interface capability that can be registered into the linker and
/// initialized per execution in the store.
pub trait WitCapability: Sized {
    /// What a store holds for the interface.
    type State;

    /// The full id of the interface.
    spec fn id(&self) -> Seq<char>;

    /// The names of the interface's functions.
    spec fn function_names(&self) -> Seq<Seq<char>>;

    /// An execution may begin with this state.
    spec fn is_initial(&self, state: Self::State) -> bool;

    /// The full WIT interface id, such as "sandbox:router/sandbox-host@0.1.0".
    fn interface_id(&self) -> (res: &str)
        ensures
            res@ == self.id(),
    ;

    /// The host functions that are registered once per engine, in this order.
    fn functions(&self) -> (res: Vec<String>)
        ensures
            texts(res@) == self.function_names(),
    ;

    /// Called once per execution to install the initial state into the store.
    fn init_store(&self, store: &mut CapabilityStore<Self::State>)
        ensures
            final(store)@.dom() == old(store)@.dom().insert(self.id()),
            self.is_initial(final(store)@[self.id()]),
            forall|k: Seq<char>|
                k != self.id() && old(store)@.contains_key(k) ==> #[trigger] final(store)@[k]
                    == old(store)@[k],
            final(store).same_contexts(*old(store)),
    ;
}

/// The steps that register one capability.
pub open spec fn capability_steps<C: WitCapability>(cap: C) -> Seq<LinkerStepView> {
    seq![LinkerStepView { interface: cap.id(), function: None }] + cap.function_names().map_values(
        |f: Seq<char>| LinkerStepView { interface: cap.id(), function: Some(f) },
    )
}

/// The steps that register one capability after the other.
pub open spec fn linker_steps<C: WitCapability>(caps: Seq<C>) -> Seq<LinkerStepView>
    decreases caps.len(),
{
    if caps.len() == 0 {
        Seq::empty()
    } else {
        linker_steps(caps.drop_last()) + capability_steps(caps.last())
    }
}

/// The list of interface ids that the environment restricts the capabilities to:
/// what follows the prefix in the first variable that has it.
pub open spec fn restriction(envs: Seq<Seq<char>>) -> Option<Seq<char>>
    decreases envs.len(),
{
    if envs.len() == 0 {
        None
    } else if CAPABILITIES_PREFIX@.is_prefix_of(envs.first()) {
        Some(envs.first().skip(CAPABILITIES_PREFIX@.len() as int))
    } else {
        restriction(envs.drop_first())
    }
}

/// The environment lists the interface id.
pub open spec fn is_enabled(envs: Seq<Seq<char>>, id: Seq<char>) -> bool {
    restriction(envs) matches Some(list) && crate::text::lists(list, ',', id)
}

/// The capabilities that the environment leaves: all of them unless a variable
/// restricts them, and then those that it lists.
pub open spec fn selected<C: WitCapability>(envs: Seq<Seq<char>>, all: Seq<C>) -> Seq<C> {
    if restriction(envs) is None {
        all
    } else {
        all.filter(|c: C| is_enabled(envs, c.id()))
    }
}

/// Filtering one more capability.
proof fn lemma_filter_push<C>(front: Seq<C>, c: C, keep: spec_fn(C) -> bool)
    ensures
        front.push(c).filter(keep) == if keep(c) {
            front.filter(keep).push(c)
        } else {
            front.filter(keep)
        },
{
    reveal(Seq::filter);
    assert(front.push(c).drop_last() =~= front);
}

/// The value of the first variable that restricts the capabilities.
fn find_restriction(envs: &Vec<String>) -> (res: Option<&str>)
    ensures
        match res {
            Some(list) => restriction(texts(envs@)) == Some(list@),
            None => restriction(texts(envs@)) is None,
        },
{
    let ghost views = texts(envs@);
    assert(views.skip(0) =~= views);
    let mut i: usize = 0;
    while i < envs.len()
        invariant
            i <= envs@.len(),
            views == texts(envs@),
            restriction(views) == restriction(views.skip(i as int)),
        decreases envs@.len() - i,
    {
        assert(views.skip(i as int).drop_first() =~= views.skip(i + 1));
        assert(views.skip(i as int).first() == envs@[i as int]@);
        let env = envs[i].as_str();
        if has_prefix(env, CAPABILITIES_PREFIX) {
            let from: usize = CAPABILITIES_PREFIX.unicode_len();
            let list = env.substring_char(from, env.unicode_len());
            assert(list@ =~= env@.skip(CAPABILITIES_PREFIX@.len() as int));
            return Some(list);
        }
        i = i + 1;
    }
    None
}

/// Leaves only the capabilities that the environment lists, where it restricts them.
pub fn select<C: WitCapability>(envs: &Vec<String>, all: Vec<C>) -> (res: Vec<C>)
    ensures
        res@ == selected(texts(envs@), all@),
{
    let ghost views = texts(envs@);
    let list = match find_restriction(envs) {
        Some(list) => list,
        None => return all,
    };
    let enabled = list_items(list, ',');
    assert forall|id: Seq<char>| enabled@.contains(id) == #[trigger] is_enabled(views, id) by {}
    let ghost keep = |c: C| is_enabled(views, c.id());
    let ghost caps = all@;
    let mut res: Vec<C> = Vec::new();
    for cap in it: all
        invariant
            it.seq() == caps,
            res@ == caps.take(it.index() as int).filter(keep),
            keep == (|c: C| is_enabled(views, c.id())),
            forall|id: Seq<char>| enabled@.contains(id) == #[trigger] is_enabled(views, id),
    {
        proof {
            lemma_filter_push(caps.take(it.index() as int), cap, keep);
            assert(caps.take(it.index() as int).push(cap) =~= caps.take(it.index() + 1));
        }
        if enabled.contains(cap.interface_id()) {
            res.push(cap);
        }
    }
    assert(caps.take(caps.len() as int) =~= caps);
    res
}

/// The interface is one of the host's built-in ones.
pub open spec fn is_built_in(iface: Seq<char>) -> bool {
    BUILT_IN_PREFIX@.is_prefix_of(iface)
}

/// The first capability of the interface is the one at `i`.
pub open spec fn provides_at<C: WitCapability>(caps: Seq<C>, iface: Seq<char>, i: int) -> bool {
    &&& 0 <= i < caps.len()
    &&& caps[i].id() == iface
    &&& forall|j: int| 0 <= j < i ==> #[trigger] caps[j].id() != iface
}

/// Some capability offers the interface.
pub open spec fn provides<C: WitCapability>(caps: Seq<C>, iface: Seq<char>) -> bool {
    exists|i: int| 0 <= i < caps.len() && #[trigger] caps[i].id() == iface
}

/// A component may import the interface.
pub open spec fn is_served<C: WitCapability>(caps: Seq<C>, iface: Seq<char>) -> bool {
    is_built_in(iface) || provides(caps, iface)
}

/// The state of the interface is initialized for a component with these imports.
pub open spec fn is_needed<C: WitCapability>(
    caps: Seq<C>,
    imports: Seq<Seq<char>>,
    iface: Seq<char>,
) -> bool {
    imports.contains(iface) && !is_built_in(iface) && provides(caps, iface)
}

/// The error for a component that imports an interface which nobody offers.
pub open spec fn not_served(iface: Seq<char>) -> ErrorView {
    ErrorView::Any(
        "component imports interface '"@ + iface
            + "' which is not registered or not enabled (set WASMTIME_CAPABILITIES)"@,
    )
}

/// The number of imports before the first that is not served.
pub open spec fn served_imports<C: WitCapability>(
    caps: Seq<C>,
    imports: Seq<Seq<char>>,
) -> nat
    decreases imports.len(),
{
    if imports.len() == 0 || !is_served(caps, imports.first()) {
        0
    } else {
        1 + served_imports(caps, imports.drop_first())
    }
}

/// What initializing the interfaces among `imports` makes of the states in a store:
/// each that a capability offers begins anew, and the others stay as they are.
pub open spec fn initialized<C: WitCapability>(
    caps: Seq<C>,
    imports: Seq<Seq<char>>,
    before: Map<Seq<char>, C::State>,
    after: Map<Seq<char>, C::State>,
) -> bool {
    &&& forall|k: Seq<char>| #[trigger]
        after.contains_key(k) <==> before.contains_key(k) || is_needed(caps, imports, k)
    &&& forall|k: Seq<char>, i: int|
        is_needed(caps, imports, k) && #[trigger] provides_at(caps, k, i) ==> caps[i].is_initial(
            after[k],
        )
    &&& forall|k: Seq<char>|
        before.contains_key(k) && !is_needed(caps, imports, k) ==> #[trigger] after[k] == before[k]
}

/// One more import adds itself to what the imports before it hold.
proof fn lemma_take_contains(imports: Seq<Seq<char>>, i: int, k: Seq<char>)
    requires
        0 <= i < imports.len(),
    ensures
        imports.take(i + 1).contains(k) <==> imports.take(i).contains(k) || k == imports[i],
{
    let short = imports.take(i);
    let long = imports.take(i + 1);
    if long.contains(k) {
        let j = long.index_of(k);
        if j < i {
            assert(short[j] == k);
        }
    }
    if short.contains(k) {
        let j = short.index_of(k);
        assert(long[j] == k);
    }
    assert(long[i] == imports[i]);
}

/// Initializing the interface of one more import.
proof fn lemma_init_one<C: WitCapability>(
    caps: Seq<C>,
    imports: Seq<Seq<char>>,
    i: int,
    at: int,
    before: Map<Seq<char>, C::State>,
    mid: Map<Seq<char>, C::State>,
    after: Map<Seq<char>, C::State>,
)
    requires
        0 <= i < imports.len(),
        initialized(caps, imports.take(i), before, mid),
        !is_built_in(imports[i]),
        provides_at(caps, imports[i], at),
        after.dom() == mid.dom().insert(imports[i]),
        caps[at].is_initial(after[imports[i]]),
        forall|k: Seq<char>|
            k != imports[i] && mid.contains_key(k) ==> #[trigger] after[k] == mid[k],
    ensures
        initialized(caps, imports.take(i + 1), before, after),
{
    let iface = imports[i];
    assert(caps[at].id() == iface);
    assert forall|k: Seq<char>|
        is_needed(caps, imports.take(i + 1), k) == (is_needed(caps, imports.take(i), k) || k
            == iface) by {
        lemma_take_contains(imports, i, k);
    }
    assert forall|k: Seq<char>, j: int|
        is_needed(caps, imports.take(i + 1), k) && #[trigger] provides_at(
            caps,
            k,
            j,
        ) implies caps[j].is_initial(after[k]) by {
        if k == iface {
            assert(j == at) by {
                if j < at {
                    assert(caps[j].id() != iface);
                } else if at < j {
                    assert(caps[at].id() != iface);
                }
            }
        } else {
            assert(mid.contains_key(k));
            assert(after[k] == mid[k]);
        }
    }
    assert forall|k: Seq<char>| #[trigger]
        after.contains_key(k) <==> before.contains_key(k) || is_needed(
            caps,
            imports.take(i + 1),
            k,
        ) by {
        assert(after.contains_key(k) <==> mid.contains_key(k) || k == iface);
    }
    assert forall|k: Seq<char>|
        before.contains_key(k) && !is_needed(
            caps,
            imports.take(i + 1),
            k,
        ) implies #[trigger] after[k] == before[k] by {
        assert(mid.contains_key(k));
        assert(mid[k] == before[k]);
    }
}

/// A built-in interface has no state that is initialized.
proof fn lemma_skip_built_in<C: WitCapability>(
    caps: Seq<C>,
    imports: Seq<Seq<char>>,
    i: int,
    before: Map<Seq<char>, C::State>,
    after: Map<Seq<char>, C::State>,
)
    requires
        0 <= i < imports.len(),
        initialized(caps, imports.take(i), before, after),
        is_built_in(imports[i]),
    ensures
        initialized(caps, imports.take(i + 1), before, after),
{
    assert forall|k: Seq<char>|
        is_needed(caps, imports.take(i + 1), k) == is_needed(caps, imports.take(i), k) by {
        lemma_take_contains(imports, i, k);
    }
}

/// The ids of the interfaces that a component imports.
pub uninterp spec fn component_imports(component: Component) -> Seq<Seq<char>>;

/// `wasmtime::component::Component::component_type` and
/// `wasmtime::component::types::Component::imports`: the names of what a component
/// imports, in the order in which it lists them. The engine is only read for the types
/// of core functions, which no component imports.
#[verifier::external_body]
fn import_names(component: &Component, engine: &Engine) -> (res: Vec<String>)
    ensures
        texts(res@) == component_imports(*component),
{
    component.component_type().imports(engine).map(|(name, _item)| name.to_string()).collect()
}

/// Adds the steps that register one capability.
fn push_steps<C: WitCapability>(cap: &C, steps: &mut Vec<LinkerStep>)
    ensures
        final(steps)@.map_values(|s: LinkerStep| s@) == old(steps)@.map_values(
            |s: LinkerStep| s@,
        ) + capability_steps(*cap),
{
    let functions = cap.functions();
    let ghost before = steps@.map_values(|s: LinkerStep| s@);
    let ghost to_step = |f: Seq<char>|
        LinkerStepView { interface: cap.id(), function: Some(f) };
    let ghost opened = seq![LinkerStepView { interface: cap.id(), function: None }];
    steps.push(LinkerStep { interface: cap.interface_id().to_owned(), function: None });
    let mut i: usize = 0;
    while i < functions.len()
        invariant
            i <= functions@.len(),
            texts(functions@) == cap.function_names(),
            opened == seq![LinkerStepView { interface: cap.id(), function: None }],
            to_step == (|f: Seq<char>|
                LinkerStepView { interface: cap.id(), function: Some(f) }),
            steps@.map_values(|s: LinkerStep| s@) =~= before + opened
                + cap.function_names().take(i as int).map_values(to_step),
        decreases functions@.len() - i,
    {
        let ghost pre = steps@.map_values(|s: LinkerStep| s@);
        let ghost done = cap.function_names().take(i as int).map_values(to_step);
        assert(cap.function_names()[i as int] == functions@[i as int]@);
        steps.push(
            LinkerStep {
                interface: cap.interface_id().to_owned(),
                function: Some(functions[i].clone()),
            },
        );
        proof {
            let step = to_step(cap.function_names()[i as int]);
            assert(steps@.last()@ == step);
            assert(steps@.map_values(|s: LinkerStep| s@) =~= pre.push(step));
            assert(cap.function_names().take(i + 1).map_values(to_step) =~= done.push(step));
        }
        i = i + 1;
    }
    assert(cap.function_names().take(i as int) =~= cap.function_names());
}

/// The capabilities that are offered.
pub struct CapabilityRegistry<C: WitCapability> {
    pub caps: Vec<C>,
}

impl<C: WitCapability> CapabilityRegistry<C> {
    pub fn new(caps: Vec<C>) -> (res: Self)
        ensures
            res.caps == caps,
    {
        CapabilityRegistry { caps }
    }

    /// The steps that register all capabilities, in order. The first that fails ends
    /// the registration.
    pub fn register_linker(&self) -> (res: Vec<LinkerStep>)
        ensures
            res@.map_values(|s: LinkerStep| s@) == linker_steps(self.caps@),
    {
        let mut res: Vec<LinkerStep> = Vec::new();
        let mut i: usize = 0;
        while i < self.caps.len()
            invariant
                i <= self.caps@.len(),
                res@.map_values(|s: LinkerStep| s@) == linker_steps(self.caps@.take(i as int)),
            decreases self.caps@.len() - i,
        {
            push_steps(&self.caps[i], &mut res);
            assert(self.caps@.take(i + 1).drop_last() =~= self.caps@.take(i as int));
            i = i + 1;
        }
        assert(self.caps@.take(i as int) =~= self.caps@);
        res
    }

    /// The position of the first capability of an interface.
    fn position(&self, iface: &str) -> (res: Option<usize>)
        ensures
            match res {
                Some(i) => provides_at(self.caps@, iface@, i as int),
                None => !provides(self.caps@, iface@),
            },
    {
        let mut i: usize = 0;
        while i < self.caps.len()
            invariant
                i <= self.caps@.len(),
                forall|j: int| 0 <= j < i ==> #[trigger] self.caps@[j].id() != iface@,
            decreases self.caps@.len() - i,
        {
            if text_eq(self.caps[i].interface_id(), iface) {
                return Some(i);
            }
            i = i + 1;
        }
        None
    }

    /// Initializes the store for a component that imports these interfaces: the state
    /// of each that is not built in. The first that nobody offers is the error; those
    /// before it are initialized all the same.
    pub fn init_imports(&self, imports: &Vec<String>, store: &mut CapabilityStore<C::State>) -> (res:
        Result<(), Error>)
        ensures
            ({
                let views = texts(imports@);
                let n = served_imports(self.caps@, views) as int;
                &&& initialized(self.caps@, views.take(n), old(store)@, final(store)@)
                &&& final(store).same_contexts(*old(store))
                &&& n == views.len() ==> res is Ok
                &&& n < views.len() ==> (res matches Err(e) && e@ == not_served(views[n]))
            }),
    {
        let ghost views = texts(imports@);
        assert(views.skip(0) =~= views);
        let mut i: usize = 0;
        while i < imports.len()
            invariant
                i <= imports@.len(),
                views == texts(imports@),
                served_imports(self.caps@, views) == i + served_imports(
                    self.caps@,
                    views.skip(i as int),
                ),
                initialized(self.caps@, views.take(i as int), old(store)@, store@),
                store.same_contexts(*old(store)),
            decreases imports@.len() - i,
        {
            let iface = imports[i].as_str();
            proof {
                assert(views.skip(i as int).first() == iface@);
                assert(views.skip(i as int).drop_first() =~= views.skip(i + 1));
            }
            if !has_prefix(iface, BUILT_IN_PREFIX) {
                match self.position(iface) {
                    Some(at) => {
                        let ghost mid = store@;
                        self.caps[at].init_store(store);
                        proof {
                            assert(self.caps@[at as int].id() == iface@);
                            lemma_init_one(
                                self.caps@,
                                views,
                                i as int,
                                at as int,
                                old(store)@,
                                mid,
                                store@,
                            );
                        }
                    },
                    None => {
                        return Err(
                            Error::Any(
                                "component imports interface '".to_owned().concat(iface).concat(
                                    "' which is not registered or not enabled (set WASMTIME_CAPABILITIES)",
                                ),
                            ),
                        );
                    },
                }
            } else {
                proof {
                    lemma_skip_built_in(self.caps@, views, i as int, old(store)@, store@);
                }
            }
            i = i + 1;
        }
        assert(views.take(i as int) =~= views);
        Ok(())
    }

    /// Introspects the imports of a component, and initializes the store only for what
    /// the component needs.
    pub fn init_for_component(
        &self,
        component: &Component,
        engine: &Engine,
        store: &mut CapabilityStore<C::State>,
    ) -> (res: Result<(), Error>)
        ensures
            ({
                let views = component_imports(*component);
                let n = served_imports(self.caps@, views) as int;
                &&& initialized(self.caps@, views.take(n), old(store)@, final(store)@)
                &&& final(store).same_contexts(*old(store))
                &&& n == views.len() ==> res is Ok
                &&& n < views.len() ==> (res matches Err(e) && e@ == not_served(views[n]))
            }),
    {
        let imports = import_names(component, engine);
        self.init_imports(&imports, store)
    }
}

impl<H> CapabilityRegistry<SandboxRouterCapability<H>> {
    /// Builds the registry from the environment of the runtime: all built-in
    /// capabilities, or, if `WASMTIME_CAPABILITIES` is set, those whose interface ids it
    /// lists, separated by commas.
    pub fn from_ctx(envs: &Vec<String>) -> (res: Self)
        ensures
            res.caps@ == selected(
                texts(envs@),
                seq![SandboxRouterCapability::<H>::with_defaults()],
            ),
    {
        let mut all: Vec<SandboxRouterCapability<H>> = Vec::new();
        all.push(SandboxRouterCapability::new());
        Self::new(select(envs, all))
    }
}

/// Where no variable restricts the capabilities, all of them are offered.
pub proof fn law_all_are_offered_by_default<C: WitCapability>(envs: Seq<Seq<char>>, all: Seq<C>)
    requires
        forall|i: int|
            0 <= i < envs.len() ==> !CAPABILITIES_PREFIX@.is_prefix_of(#[trigger] envs[i]),
    ensures
        selected(envs, all) == all,
{
    lemma_no_restriction(envs);
}

proof fn lemma_no_restriction(envs: Seq<Seq<char>>)
    requires
        forall|i: int|
            0 <= i < envs.len() ==> !CAPABILITIES_PREFIX@.is_prefix_of(#[trigger] envs[i]),
    ensures
        restriction(envs) is None,
    decreases envs.len(),
{
    if envs.len() > 0 {
        assert(envs.first() == envs[0]);
        let rest = envs.drop_first();
        assert(forall|i: int| 0 <= i < rest.len() ==> rest[i] == envs[i + 1]);
        lemma_no_restriction(rest);
    }
}

/// Where a variable restricts the capabilities, one is offered exactly if it is there
/// at all and its id is listed: none where the list is empty.
pub proof fn law_only_listed_are_offered<C: WitCapability>(
    envs: Seq<Seq<char>>,
    all: Seq<C>,
    cap: C,
)
    requires
        restriction(envs) is Some,
    ensures
        selected(envs, all).contains(cap) <==> all.contains(cap) && is_enabled(envs, cap.id()),
{
    let keep = |c: C| is_enabled(envs, c.id());
    lemma_filter_contains(all, keep, cap);
}

proof fn lemma_filter_contains<C>(all: Seq<C>, keep: spec_fn(C) -> bool, c: C)
    ensures
        all.filter(keep).contains(c) <==> all.contains(c) && keep(c),
    decreases all.len(),
{
    reveal(Seq::filter);
    if all.len() > 0 {
        let front = all.drop_last();
        lemma_filter_contains(front, keep, c);
        lemma_filter_push(front, all.last(), keep);
        assert(front.push(all.last()) =~= all);
        assert(forall|s: Seq<C>, x: C| #[trigger]
            s.push(x).contains(c) <==> s.contains(c) || x == c) by {
            assert forall|s: Seq<C>, x: C| #[trigger]
                s.push(x).contains(c) <==> s.contains(c) || x == c by {
                if s.contains(c) {
                    assert(s.push(x)[s.index_of(c)] == c);
                }
                assert(s.push(x)[s.len() as int] == x);
                if s.push(x).contains(c) {
                    let i = s.push(x).index_of(c);
                    if i < s.len() {
                        assert(s[i] == c);
                    }
                }
            }
        }
    }
}

/// A component is accepted exactly if each of its imports is built in or offered by
/// some capability.
pub proof fn law_accepted_iff_served<C: WitCapability>(caps: Seq<C>, imports: Seq<Seq<char>>)
    ensures
        served_imports(caps, imports) <= imports.len(),
        served_imports(caps, imports) == imports.len() <==> forall|i: int|
            0 <= i < imports.len() ==> is_served(caps, #[trigger] imports[i]),
    decreases imports.len(),
{
    if imports.len() > 0 {
        let rest = imports.drop_first();
        law_accepted_iff_served(caps, rest);
        assert(imports.first() == imports[0]);
        if forall|i: int| 0 <= i < imports.len() ==> is_served(caps, #[trigger] imports[i]) {
            assert forall|i: int| 0 <= i < rest.len() implies is_served(
                caps,
                #[trigger] rest[i],
            ) by {
                assert(rest[i] == imports[i + 1]);
            }
        }
        if served_imports(caps, imports) == imports.len() {
            assert forall|i: int| 0 <= i < imports.len() implies is_served(
                caps,
                #[trigger] imports[i],
            ) by {
                if i > 0 {
                    assert(imports[i] == rest[i - 1]);
                }
            }
        }
    }
}

/// The list is what follows the prefix in the first variable that has it, wherever that
/// stands: the variables before it, and those after it, change nothing. Without such a
/// variable there is no list.
pub proof fn law_first_restriction_counts(envs: Seq<Seq<char>>, i: int)
    requires
        0 <= i <= envs.len(),
        forall|j: int|
            0 <= j < i ==> !"WASMTIME_CAPABILITIES="@.is_prefix_of(#[trigger] envs[j]),
    ensures
        i == envs.len() ==> restriction(envs) is None,
        i < envs.len() && "WASMTIME_CAPABILITIES="@.is_prefix_of(envs[i]) ==> {
            &&& restriction(envs) is Some
            &&& envs[i] == "WASMTIME_CAPABILITIES="@ + restriction(envs)->0
        },
    decreases i,
{
    if i > 0 {
        let rest = envs.drop_first();
        assert(forall|j: int| 0 <= j < rest.len() ==> rest[j] == envs[j + 1]);
        assert(envs.first() == envs[0]);
        law_first_restriction_counts(rest, i - 1);
    } else if envs.len() > 0 && "WASMTIME_CAPABILITIES="@.is_prefix_of(envs[0]) {
        assert(envs.first() == envs[0]);
        assert(envs[0] =~= "WASMTIME_CAPABILITIES="@ + restriction(envs)->0);
    }
}

/// What a list enables that goes on after a comma is what its two parts enable; a list
/// without commas enables what trimming leaves of it.
pub proof fn law_lists_are_separated_by_commas(
    before: Seq<Seq<char>>,
    a: Seq<char>,
    b: Seq<char>,
    id: Seq<char>,
)
    requires
        forall|j: int|
            0 <= j < before.len() ==> !"WASMTIME_CAPABILITIES="@.is_prefix_of(
                #[trigger] before[j],
            ),
    ensures
        is_enabled(before.push("WASMTIME_CAPABILITIES="@ + (a + seq![','] + b)), id) <==> (
        is_enabled(before.push("WASMTIME_CAPABILITIES="@ + a), id) || is_enabled(
            before.push("WASMTIME_CAPABILITIES="@ + b),
            id,
        )),
        !a.contains(',') ==> (is_enabled(before.push("WASMTIME_CAPABILITIES="@ + a), id)
            <==> id.len() > 0 && id == crate::text::trim(a)),
{
    lemma_pushed_restriction(before, a + seq![','] + b);
    lemma_pushed_restriction(before, a);
    lemma_pushed_restriction(before, b);
    crate::text::law_items_are_separated(a, b, ',', id);
    if !a.contains(',') {
        crate::text::law_one_item_is_listed(a, ',', id);
    }
}

proof fn lemma_pushed_restriction(before: Seq<Seq<char>>, list: Seq<char>)
    requires
        forall|j: int|
            0 <= j < before.len() ==> !"WASMTIME_CAPABILITIES="@.is_prefix_of(
                #[trigger] before[j],
            ),
    ensures
        restriction(before.push("WASMTIME_CAPABILITIES="@ + list)) == Some(list),
{
    let prefix = "WASMTIME_CAPABILITIES="@;
    let envs = before.push(prefix + list);
    assert(forall|j: int| 0 <= j < before.len() ==> envs[j] == before[j]);
    assert(envs[before.len() as int] == prefix + list);
    assert((prefix + list).take(prefix.len() as int) =~= prefix);
    law_first_restriction_counts(envs, before.len() as int);
    assert(list =~= (prefix + list).skip(prefix.len() as int));
    assert(restriction(envs)->0 =~= (prefix + restriction(envs)->0).skip(prefix.len() as int));
}

/// Capabilities are selected one by one, and keep their order.
pub proof fn law_capabilities_are_selected_one_by_one<C: WitCapability>(
    envs: Seq<Seq<char>>,
    a: Seq<C>,
    b: Seq<C>,
    cap: C,
)
    ensures
        selected(envs, a + b) == selected(envs, a) + selected(envs, b),
        selected(envs, seq![cap]) == if restriction(envs) is None || is_enabled(envs, cap.id()) {
            seq![cap]
        } else {
            Seq::empty()
        },
{
    let keep = |c: C| is_enabled(envs, c.id());
    lemma_filter_concat(a, b, keep);
    let none = Seq::<C>::empty();
    lemma_filter_push(none, cap, keep);
    assert(none.push(cap) =~= seq![cap]);
    assert(none.filter(keep) =~= none) by {
        reveal(Seq::filter);
    }
    assert(selected(envs, seq![cap]) =~= if restriction(envs) is None || is_enabled(
        envs,
        cap.id(),
    ) {
        seq![cap]
    } else {
        Seq::empty()
    });
}

proof fn lemma_filter_concat<C>(a: Seq<C>, b: Seq<C>, keep: spec_fn(C) -> bool)
    ensures
        (a + b).filter(keep) == a.filter(keep) + b.filter(keep),
    decreases b.len(),
{
    if b.len() == 0 {
        assert(a + b =~= a);
        assert(b.filter(keep) =~= Seq::empty()) by {
            reveal(Seq::filter);
        }
        assert(a.filter(keep) + b.filter(keep) =~= a.filter(keep));
    } else {
        let front = b.drop_last();
        lemma_filter_concat(a, front, keep);
        lemma_filter_push(a + front, b.last(), keep);
        lemma_filter_push(front, b.last(), keep);
        assert((a + front).push(b.last()) =~= a + b);
        assert(front.push(b.last()) =~= b);
        assert((a + b).filter(keep) =~= a.filter(keep) + b.filter(keep));
    }
}

/// An import is passed over exactly if its id begins with `wasi:`, whatever
/// capabilities there are; any other is served exactly if a capability has its id.
pub proof fn law_wasi_is_built_in<C: WitCapability>(
    caps: Seq<C>,
    iface: Seq<char>,
    rest: Seq<char>,
)
    ensures
        is_served(caps, "wasi:"@ + rest),
        is_served(Seq::<C>::empty(), "wasi:"@ + rest),
        !is_needed(caps, seq!["wasi:"@ + rest], "wasi:"@ + rest),
        !(iface.len() >= 5 && iface.take(5) == seq!['w', 'a', 's', 'i', ':']) ==> (is_served(
            caps,
            iface,
        ) <==> exists|i: int| 0 <= i < caps.len() && #[trigger] caps[i].id() == iface),
        !(iface.len() >= 5 && iface.take(5) == seq!['w', 'a', 's', 'i', ':']) ==> (is_needed(
            caps,
            seq![iface],
            iface,
        ) <==> is_served(caps, iface)),
{
    reveal_strlit("wasi:");
    let prefix = "wasi:"@;
    assert(prefix =~= seq!['w', 'a', 's', 'i', ':']);
    assert((prefix + rest).take(prefix.len() as int) =~= prefix);
    assert(prefix.is_prefix_of(prefix + rest));
    assert(seq![iface][0] == iface);
    if prefix.is_prefix_of(iface) {
        assert(iface.take(5) =~= prefix);
    }
}

/// A component is refused for the first of its imports that is not served; all before
/// it are.
pub proof fn law_refused_for_the_first_unserved<C: WitCapability>(
    caps: Seq<C>,
    imports: Seq<Seq<char>>,
)
    ensures
        ({
            let n = served_imports(caps, imports) as int;
            &&& n <= imports.len()
            &&& forall|i: int| 0 <= i < n ==> is_served(caps, #[trigger] imports[i])
            &&& n < imports.len() ==> !is_served(caps, imports[n])
            &&& n < imports.len() ==> not_served(imports[n]) == ErrorView::Any(
                "component imports interface '"@ + imports[n]
                    + "' which is not registered or not enabled (set WASMTIME_CAPABILITIES)"@,
            )
        }),
    decreases imports.len(),
{
    if imports.len() > 0 && is_served(caps, imports.first()) {
        let rest = imports.drop_first();
        law_refused_for_the_first_unserved(caps, rest);
        let n = served_imports(caps, imports) as int;
        assert forall|i: int| 0 <= i < n implies is_served(caps, #[trigger] imports[i]) by {
            if i > 0 {
                assert(imports[i] == rest[i - 1]);
            }
        }
        if n < imports.len() {
            assert(imports[n] == rest[n - 1]);
        }
    }
}

/// Initializing a store for imports gives each of them that is not built in, and that a
/// capability has the id of, the initial state of the first such capability. Every other
/// state stays as it was, and none comes or goes.
pub proof fn law_only_imports_are_initialized<C: WitCapability>(
    caps: Seq<C>,
    imports: Seq<Seq<char>>,
    before: Map<Seq<char>, C::State>,
    after: Map<Seq<char>, C::State>,
    iface: Seq<char>,
    i: int,
)
    requires
        initialized(caps, imports, before, after),
    ensures
        imports.contains(iface) && !"wasi:"@.is_prefix_of(iface) && 0 <= i < caps.len()
            && caps[i].id() == iface && (forall|j: int|
            0 <= j < i ==> #[trigger] caps[j].id() != iface) ==> after.contains_key(iface)
            && caps[i].is_initial(after[iface]),
        !imports.contains(iface) || "wasi:"@.is_prefix_of(iface) || (forall|j: int|
            0 <= j < caps.len() ==> #[trigger] caps[j].id() != iface) ==> {
            &&& after.contains_key(iface) <==> before.contains_key(iface)
            &&& before.contains_key(iface) ==> after[iface] == before[iface]
        },
{
    if imports.contains(iface) && !"wasi:"@.is_prefix_of(iface) && 0 <= i < caps.len()
        && caps[i].id() == iface && (forall|j: int| 0 <= j < i ==> #[trigger] caps[j].id()
        != iface) {
        assert(provides(caps, iface));
        assert(is_needed(caps, imports, iface));
        assert(provides_at(caps, iface, i));
    }
}

/// Capabilities are registered one after the other: first the interface is opened, then
/// each of its functions is defined, in order.
pub proof fn law_capabilities_are_registered_in_order<C: WitCapability>(
    a: Seq<C>,
    b: Seq<C>,
    cap: C,
)
    ensures
        linker_steps(a + b) == linker_steps(a) + linker_steps(b),
        linker_steps(seq![cap]).len() == 1 + cap.function_names().len(),
        linker_steps(seq![cap])[0] == (LinkerStepView { interface: cap.id(), function: None }),
        forall|i: int|
            0 <= i < cap.function_names().len() ==> linker_steps(seq![cap])[1 + i] == (
            LinkerStepView {
                interface: cap.id(),
                function: Some(#[trigger] cap.function_names()[i]),
            }),
{
    lemma_steps_concat(a, b);
    assert(seq![cap].drop_last() =~= Seq::<C>::empty());
    assert(linker_steps(Seq::<C>::empty()) =~= Seq::empty());
    assert(linker_steps(seq![cap]) =~= capability_steps(cap));
}

proof fn lemma_steps_concat<C: WitCapability>(a: Seq<C>, b: Seq<C>)
    ensures
        linker_steps(a + b) == linker_steps(a) + linker_steps(b),
    decreases b.len(),
{
    if b.len() == 0 {
        assert(a + b =~= a);
        assert(linker_steps(a + b) =~= linker_steps(a) + linker_steps(b));
    } else {
        assert((a + b).drop_last() =~= a + b.drop_last());
        lemma_steps_concat(a, b.drop_last());
        assert(linker_steps(a + b) =~= linker_steps(a) + linker_steps(b));
    }
}

} // verus!
