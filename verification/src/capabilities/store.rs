//! The state that a component's execution carries along.

use vstd::prelude::*;
use wasmtime::component::ResourceTable;
use wasmtime_wasi::WasiCtx;
use wasmtime_wasi_http::WasiHttpCtx;

use crate::error::{Error, ErrorView};
use crate::string_map::StringMap;

verus! {

/// `wasmtime_wasi::WasiCtx`.
#[verifier::external_type_specification]
#[verifier::external_body]
pub struct ExWasiCtx(wasmtime_wasi::WasiCtx);

/// `wasmtime_wasi_http::WasiHttpCtx`.
#[verifier::external_type_specification]
#[verifier::external_body]
pub struct ExWasiHttpCtx(wasmtime_wasi_http::WasiHttpCtx);

/// `wasmtime::component::ResourceTable`.
#[verifier::external_type_specification]
#[verifier::external_body]
pub struct ExResourceTable(wasmtime::component::ResourceTable);

/// `wasmtime_wasi_http::WasiHttpCtx::new`. Nothing is said of the context: it is
/// only handed on.
pub assume_specification[ WasiHttpCtx::new ]() -> (res: WasiHttpCtx)
;

/// `wasmtime::component::ResourceTable::new`. Nothing is said of the table: it is
/// only handed on.
pub assume_specification[ ResourceTable::new ]() -> (res: ResourceTable)
;

/// The contexts that the host's built-in interfaces work on, and the state of each
/// further interface, by its id.
#[verifier::reject_recursive_types(X)]
pub struct CapabilityStore<X> {
    pub wasi: WasiCtx,
    pub wasi_http: WasiHttpCtx,
    pub resource_table: ResourceTable,
    pub extensions: StringMap<X>,
}

impl<X> View for CapabilityStore<X> {
    type V = Map<Seq<char>, X>;

    /// The states of the interfaces.
    open spec fn view(&self) -> Map<Seq<char>, X> {
        self.extensions@
    }
}

/// What is got of the states for an interface, as the type that `downcast` makes of
/// its state.
pub open spec fn gets<X, T, F: Fn(&X) -> Option<T>>(
    extensions: Map<Seq<char>, X>,
    iface: Seq<char>,
    downcast: F,
    res: Option<T>,
) -> bool {
    if extensions.contains_key(iface) {
        downcast.ensures((&extensions[iface],), res)
    } else {
        res is None
    }
}

impl<X> CapabilityStore<X> {
    /// The other store has the same contexts.
    pub open spec fn same_contexts(self, other: Self) -> bool {
        &&& self.wasi == other.wasi
        &&& self.wasi_http == other.wasi_http
        &&& self.resource_table == other.resource_table
    }

    /// A store in which no interface has a state.
    pub fn new(wasi: WasiCtx) -> (res: Self)
        ensures
            res.wasi == wasi,
            res@ == Map::<Seq<char>, X>::empty(),
    {
        CapabilityStore {
            wasi,
            wasi_http: WasiHttpCtx::new(),
            resource_table: ResourceTable::new(),
            extensions: StringMap::new(),
        }
    }

    /// A store in which the interfaces have the given states.
    pub fn with_extensions(wasi: WasiCtx, extensions: StringMap<X>) -> (res: Self)
        ensures
            res.wasi == wasi,
            res@ == extensions@,
    {
        CapabilityStore {
            wasi,
            wasi_http: WasiHttpCtx::new(),
            resource_table: ResourceTable::new(),
            extensions,
        }
    }

    /// The states of the interfaces.
    pub fn into_extensions(self) -> (res: StringMap<X>)
        ensures
            res@ == self@,
    {
        self.extensions
    }

    /// Sets the state of an interface.
    pub fn set_ext(&mut self, iface: &str, val: X)
        ensures
            final(self)@ == old(self)@.insert(iface@, val),
            final(self).same_contexts(*old(self)),
    {
        self.extensions.insert(iface.to_owned(), val);
    }

    /// The state of an interface, as the type that `downcast` makes of it. `None`
    /// where the interface has no state, or one of another type.
    pub fn get_ext<T, F: Fn(&X) -> Option<T>>(&self, iface: &str, downcast: F) -> (res: Option<T>)
        requires
            self@.contains_key(iface@) ==> downcast.requires((&self@[iface@],)),
        ensures
            gets(self@, iface@, downcast, res),
    {
        match self.extensions.get(iface) {
            Some(val) => downcast(val),
            None => None,
        }
    }
}

/// The error of a host function whose interface has no state.
pub open spec fn not_initialized(iface: Seq<char>) -> ErrorView {
    ErrorView::Any("capability '"@ + iface + "' not initialized in store"@)
}

/// The state that a host function of an interface works on, or the error that the
/// function answers with where there is none.
pub fn with_state<X, T, F: Fn(&X) -> Option<T>>(
    store: &CapabilityStore<X>,
    iface: &str,
    downcast: F,
) -> (res: Result<T, Error>)
    requires
        store@.contains_key(iface@) ==> downcast.requires((&store@[iface@],)),
    ensures
        match res {
            Ok(state) => gets(store@, iface@, downcast, Some(state)),
            Err(e) => gets(store@, iface@, downcast, None) && e@ == not_initialized(iface@),
        },
{
    match store.get_ext(iface, downcast) {
        Some(state) => Ok(state),
        None => Err(
            Error::Any("capability '".to_owned().concat(iface).concat("' not initialized in store")),
        ),
    }
}

/// The state that was set for an interface is the one that is got for it, and what is
/// got for every other interface stays.
pub proof fn law_set_state_is_got<X, T, F: Fn(&X) -> Option<T>>(
    extensions: Map<Seq<char>, X>,
    iface: Seq<char>,
    val: X,
    other: Seq<char>,
    downcast: F,
    res: Option<T>,
)
    ensures
        gets(extensions.insert(iface, val), iface, downcast, res) <==> downcast.ensures(
            (&val,),
            res,
        ),
        other != iface ==> (gets(extensions.insert(iface, val), other, downcast, res) <==> gets(
            extensions,
            other,
            downcast,
            res,
        )),
{
}

/// Before the state of an interface is set, the host functions of the interface find
/// none.
pub proof fn law_new_store_has_no_state<X, T, F: Fn(&X) -> Option<T>>(
    iface: Seq<char>,
    downcast: F,
    res: Option<T>,
)
    ensures
        gets(Map::<Seq<char>, X>::empty(), iface, downcast, res) <==> res is None,
{
}

/// What is got for an interface is what `downcast` makes of its state, and nothing where
/// it has none. The error of a host function that got nothing names the interface.
pub proof fn law_states_are_got_by_downcast<X, T, F: Fn(&X) -> Option<T>>(
    extensions: Map<Seq<char>, X>,
    iface: Seq<char>,
    downcast: F,
    res: Option<T>,
)
    ensures
        extensions.contains_key(iface) ==> (gets(extensions, iface, downcast, res)
            <==> downcast.ensures((&extensions[iface],), res)),
        !extensions.contains_key(iface) ==> (gets(extensions, iface, downcast, res) <==> res
            is None),
        not_initialized(iface) == ErrorView::Any(
            "capability '"@ + iface + "' not initialized in store"@,
        ),
{
}

} // verus!
