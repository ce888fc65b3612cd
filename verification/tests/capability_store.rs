use runwasi_sandbox::capabilities::module_loader::load_module_component;
use runwasi_sandbox::capabilities::registry::{CapabilityRegistry, LinkerStep, WitCapability};
use runwasi_sandbox::capabilities::sandbox_router::{
    host_add_module, host_function, module_started, AddModuleAction, AddModuleEvent, HostFunction,
    RouterState, SandboxRouterCapability,
};
use runwasi_sandbox::capabilities::store::{with_state, CapabilityStore};
use runwasi_sandbox::error::Error;
use runwasi_sandbox::string_map::StringMap;
use runwasi_sandbox::text::{has_prefix, list_items, text_eq, to_chars};
use wasmtime::component::Component;
use wasmtime::Engine;
use wasmtime_wasi::{WasiCtx, WasiCtxBuilder};

const ROUTER: &str = "sandbox:router/sandbox-host@0.1.0";

type Router = SandboxRouterCapability<u32>;

fn wasi() -> WasiCtx {
    WasiCtxBuilder::new().build()
}

fn envs(list: &[&str]) -> Vec<String> {
    list.iter().map(|s| s.to_string()).collect()
}

fn offered(list: &[&str]) -> usize {
    CapabilityRegistry::<Router>::from_ctx(&envs(list)).caps.len()
}

/// A component that imports an empty instance under each of the names.
fn importing(names: &[&str]) -> Vec<u8> {
    let mut bytes = vec![0, b'a', b's', b'm', 0x0d, 0, 1, 0];
    bytes.extend([7, 3, 1, 0x42, 0]);
    let mut imports = vec![names.len() as u8];
    for name in names {
        imports.push(0);
        imports.push(name.len() as u8);
        imports.extend(name.as_bytes());
        imports.extend([5, 0]);
    }
    bytes.push(10);
    bytes.push(imports.len() as u8);
    bytes.extend(imports);
    bytes
}

fn is_initialized(store: &CapabilityStore<RouterState<u32>>) -> bool {
    store.get_ext(ROUTER, |_: &RouterState<u32>| Some(())).is_some()
}

#[test]
fn all_capabilities_are_offered_unless_restricted() {
    assert_eq!(offered(&[]), 1);
    assert_eq!(offered(&["PATH=/bin", "XWASMTIME_CAPABILITIES=none"]), 1);
}

#[test]
fn no_capability_is_offered_by_an_empty_list() {
    assert_eq!(offered(&["WASMTIME_CAPABILITIES="]), 0);
    assert_eq!(offered(&["WASMTIME_CAPABILITIES= , ,\t"]), 0);
}

#[test]
fn listed_capabilities_are_offered() {
    let list = format!("WASMTIME_CAPABILITIES= other ,\u{a0}{ROUTER}\n");
    assert_eq!(offered(&["PATH=/bin", &list]), 1);
    assert_eq!(offered(&["WASMTIME_CAPABILITIES=other"]), 0);
    assert_eq!(offered(&["WASMTIME_CAPABILITIES=sandbox:router"]), 0);
}

#[test]
fn first_restriction_counts() {
    let list = format!("WASMTIME_CAPABILITIES={ROUTER}");
    assert_eq!(offered(&["WASMTIME_CAPABILITIES=other", &list]), 0);
    assert_eq!(offered(&[&list, "WASMTIME_CAPABILITIES=other"]), 1);
}

#[test]
fn router_has_the_default_configuration() {
    let registry = CapabilityRegistry::<Router>::from_ctx(&envs(&[]));
    let config = registry.caps[0].config;
    assert_eq!(config.max_module_restarts, 5);
    assert_eq!(config.restart_backoff_initial_ms, 500);
    assert_eq!(config.max_restart_backoff_ms, 30_000);
}

#[test]
fn linker_is_filled_interface_by_interface() {
    let registry = CapabilityRegistry::new(vec![Router::new(), Router::new()]);
    let one: Vec<LinkerStep> = [None, Some("add-module"), Some("remove-module"), Some("allow-module")]
        .iter()
        .map(|f| LinkerStep {
            interface: ROUTER.to_string(),
            function: f.map(|f| f.to_string()),
        })
        .collect();
    let steps = registry.register_linker();
    assert_eq!(steps[..4], one[..]);
    assert_eq!(steps[4..], one[..]);
    assert!(CapabilityRegistry::<Router>::new(Vec::new()).register_linker().is_empty());
}

#[test]
fn registered_functions_are_known() {
    let known: Vec<Option<HostFunction>> =
        Router::new().functions().iter().map(|name| host_function(name)).collect();
    assert_eq!(
        known,
        vec![
            Some(HostFunction::AddModule),
            Some(HostFunction::RemoveModule),
            Some(HostFunction::AllowModule),
        ]
    );
    assert_eq!(host_function("add_module"), None);
    assert_eq!(host_function(""), None);
}

#[test]
fn components_get_the_states_that_they_import() {
    let engine = Engine::default();
    let registry = CapabilityRegistry::<Router>::from_ctx(&envs(&[]));

    let component =
        Component::from_binary(&engine, &importing(&["wasi:io/error@0.2.0", ROUTER])).unwrap();
    let mut store = CapabilityStore::new(wasi());
    assert_eq!(registry.init_for_component(&component, &engine, &mut store), Ok(()));
    assert!(is_initialized(&store));

    let plain = Component::from_binary(&engine, &importing(&["wasi:io/error@0.2.0"])).unwrap();
    let mut store = CapabilityStore::new(wasi());
    assert_eq!(registry.init_for_component(&plain, &engine, &mut store), Ok(()));
    assert!(!is_initialized(&store));
}

#[test]
fn loaded_modules_import_what_their_bytes_say() {
    let engine = Engine::default();
    let registry = CapabilityRegistry::<Router>::from_ctx(&envs(&[]));
    let mut store = CapabilityStore::new(wasi());

    let served = load_module_component(&engine, &importing(&[ROUTER]), None).unwrap();
    assert_eq!(registry.init_for_component(&served, &engine, &mut store), Ok(()));
    assert!(is_initialized(&store));

    let unknown = load_module_component(&engine, &importing(&["a:b/c"]), None).unwrap();
    assert!(registry.init_for_component(&unknown, &engine, &mut store).is_err());
}

#[test]
fn components_with_unknown_imports_are_refused() {
    let engine = Engine::default();
    let component = Component::from_binary(&engine, &importing(&[ROUTER, "a:b/c"])).unwrap();
    let refused = |iface: &str| {
        Err(Error::Any(format!(
            "component imports interface '{iface}' which is not registered or not enabled (set WASMTIME_CAPABILITIES)"
        )))
    };

    let registry = CapabilityRegistry::<Router>::from_ctx(&envs(&[]));
    let mut store = CapabilityStore::new(wasi());
    assert_eq!(registry.init_for_component(&component, &engine, &mut store), refused("a:b/c"));
    assert!(is_initialized(&store));

    let none = CapabilityRegistry::<Router>::from_ctx(&envs(&["WASMTIME_CAPABILITIES=x"]));
    let mut store = CapabilityStore::new(wasi());
    assert_eq!(none.init_for_component(&component, &engine, &mut store), refused(ROUTER));
    assert!(!is_initialized(&store));
}

#[test]
fn initializing_begins_anew_and_leaves_the_rest() {
    let router = Router::new();
    let mut used = RouterState::new();
    module_started(&mut used, "m".to_string(), "127.0.0.1:1".to_string(), 1);
    let mut store = CapabilityStore::new(wasi());
    store.set_ext(ROUTER, used);
    store.set_ext("other", RouterState::new());

    router.init_store(&mut store);
    let asked = store
        .get_ext(ROUTER, |state: &RouterState<u32>| {
            Some(host_add_module(state, "m", AddModuleEvent::Requested))
        })
        .unwrap();
    assert_eq!(asked, AddModuleAction::Load);
    assert!(store.get_ext("other", |_: &RouterState<u32>| Some(())).is_some());
}

#[test]
fn store_gives_back_what_was_set() {
    let mut store: CapabilityStore<u64> = CapabilityStore::new(wasi());
    let even = |n: &u64| if n % 2 == 0 { Some(*n) } else { None };
    assert_eq!(store.get_ext("a", even), None);
    store.set_ext("a", 2);
    store.set_ext("b", 3);
    assert_eq!(store.get_ext("a", even), Some(2));
    assert_eq!(store.get_ext("b", even), None);
    store.set_ext("b", 4);
    assert_eq!(store.get_ext("a", even), Some(2));
    assert_eq!(store.get_ext("b", even), Some(4));
}

#[test]
fn extensions_are_carried_over() {
    let mut extensions: StringMap<u64> = StringMap::new();
    extensions.insert("a".to_string(), 1);
    let store = CapabilityStore::with_extensions(wasi(), extensions);
    assert_eq!(store.get_ext("a", |n: &u64| Some(*n)), Some(1));
    let extensions = store.into_extensions();
    assert_eq!(extensions.get("a"), Some(&1));
    assert_eq!(extensions.get("b"), None);
}

#[test]
fn host_functions_need_a_state() {
    let mut store: CapabilityStore<u64> = CapabilityStore::new(wasi());
    let missing = || Err(Error::Any("capability 'a:b/c' not initialized in store".to_string()));
    assert_eq!(with_state(&store, "a:b/c", |n: &u64| Some(*n)), missing());
    store.set_ext("a:b/c", 7);
    assert_eq!(with_state(&store, "a:b/c", |n: &u64| Some(*n)), Ok(7));
    assert_eq!(with_state(&store, "a:b/c", |_: &u64| None::<u64>), missing());
}

#[test]
fn maps_hold_one_value_for_a_key() {
    let mut map: StringMap<u32> = StringMap::new();
    assert_eq!(map.insert("a".to_string(), 1), None);
    assert_eq!(map.insert("b".to_string(), 2), None);
    assert_eq!(map.insert("a".to_string(), 3), Some(1));
    assert!(map.contains_key("a") && !map.contains_key("c"));
    assert_eq!(map.remove("a"), Some(3));
    assert_eq!(map.remove("a"), None);
    assert_eq!(map.get("a"), None);
    assert_eq!(map.get("b"), Some(&2));
}

#[test]
fn lists_are_split_and_trimmed() {
    let items = list_items("a, b c ,\u{2003}d\u{3000},,", ',');
    assert_eq!(items.len(), 3);
    assert!(items.contains("a") && items.contains("b c") && items.contains("d"));
    assert!(list_items("\u{200b}", ',').contains("\u{200b}"));
    assert!(list_items(" \u{85}\u{1680} ", ',').is_empty());
}

#[test]
fn texts_are_compared_by_their_characters() {
    assert!(text_eq("caf\u{e9}", "caf\u{e9}"));
    assert!(!text_eq("caf\u{e9}", "cafe"));
    assert!(!text_eq("a", "ab"));
    assert!(has_prefix("wasi:io", "wasi:") && has_prefix("x", ""));
    assert!(!has_prefix("was", "wasi:") && !has_prefix("xwasi:", "wasi:"));
    assert_eq!(to_chars("\u{e9}a"), vec!['\u{e9}', 'a']);
}
