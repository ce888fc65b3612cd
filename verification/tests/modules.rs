use runwasi_sandbox::capabilities::module_loader::{
    compiled_component, component_exit_code, load_module_component, load_step, module_read,
    run_component_server, LoadAction, LoadEvent, PrecompiledKind,
};
use runwasi_sandbox::capabilities::module_server::{
    run_module_server, RestartPolicy, ServerAction, ServerEvent, ServerState, StopReason,
};
use runwasi_sandbox::capabilities::sandbox_router::{
    host_add_module, host_allow_module, host_remove_module, module_started, AddModuleAction,
    AddModuleEvent, RouterState, SandboxPermissions, SandboxRouterConfig,
};
use wasmtime::Engine;

const EMPTY_COMPONENT: [u8; 8] = [0, b'a', b's', b'm', 0x0d, 0, 1, 0];

const EMPTY_MODULE: [u8; 8] = [0, b'a', b's', b'm', 1, 0, 0, 0];

fn policy() -> RestartPolicy {
    SandboxRouterConfig::default().restart_policy()
}

fn reply(text: &str) -> AddModuleAction {
    AddModuleAction::Reply(text.to_string())
}

fn ask(state: &RouterState<u32>, name: &str) -> AddModuleAction {
    host_add_module(state, name, AddModuleEvent::Requested)
}

#[test]
fn default_pauses_double_up_to_the_longest() {
    let pauses: Vec<u64> = (1..=8).map(|restart| policy().backoff_ms(restart)).collect();
    assert_eq!(pauses, vec![500, 1000, 2000, 4000, 8000, 16000, 16000, 16000]);

    let short = RestartPolicy { max_restarts: 9, backoff_initial_ms: 500, max_backoff_ms: 3000 };
    let pauses: Vec<u64> = (1..=5).map(|restart| short.backoff_ms(restart)).collect();
    assert_eq!(pauses, vec![500, 1000, 2000, 3000, 3000]);
}

#[test]
fn pauses_lose_what_exceeds_64_bits() {
    let huge = RestartPolicy {
        max_restarts: 5,
        backoff_initial_ms: (1 << 63) + 3,
        max_backoff_ms: u64::MAX,
    };
    assert_eq!(huge.backoff_ms(1), (1 << 63) + 3);
    assert_eq!(huge.backoff_ms(2), 6);
    assert_eq!(huge.backoff_ms(u32::MAX), 96);
}

#[test]
fn servers_are_given_up_after_the_last_restart() {
    let policy = policy();
    let (mut state, action) =
        run_module_server(&policy, ServerState::Linking, ServerEvent::Linked);
    assert_eq!(action, ServerAction::Run);
    let mut pauses = Vec::new();
    let mut runs = 1;
    loop {
        let (next, action) = run_module_server(&policy, state, ServerEvent::Ended);
        match action {
            ServerAction::Sleep(pause) => pauses.push(pause),
            other => {
                assert_eq!(other, ServerAction::Stop(StopReason::RestartsExhausted));
                assert_eq!(next, ServerState::Stopped);
                break;
            }
        }
        let (next, action) = run_module_server(&policy, next, ServerEvent::BackoffElapsed);
        assert_eq!(action, ServerAction::Run);
        runs += 1;
        state = next;
    }
    assert_eq!(runs, 6);
    assert_eq!(pauses, vec![500, 1000, 2000, 4000, 8000]);
}

#[test]
fn servers_without_restarts_end_at_once() {
    let policy = RestartPolicy { max_restarts: 0, backoff_initial_ms: 1, max_backoff_ms: 1 };
    assert_eq!(
        run_module_server(&policy, ServerState::Running { restarts: 0 }, ServerEvent::Ended),
        (ServerState::Stopped, ServerAction::Stop(StopReason::RestartsExhausted))
    );
}

#[test]
fn servers_stop_when_cancelled_or_not_linked() {
    let stopped = |reason| (ServerState::Stopped, ServerAction::Stop(reason));
    for state in [ServerState::Running { restarts: 2 }, ServerState::BackingOff { restarts: 3 }] {
        assert_eq!(
            run_module_server(&policy(), state, ServerEvent::Cancelled),
            stopped(StopReason::Cancelled)
        );
    }
    assert_eq!(
        run_module_server(&policy(), ServerState::Linking, ServerEvent::LinkFailed),
        stopped(StopReason::LinkFailed)
    );
}

#[test]
fn modules_are_loaded_bound_and_started() {
    let mut state: RouterState<u32> = RouterState::new();
    assert_eq!(ask(&state, "m"), AddModuleAction::Load);
    assert_eq!(host_add_module(&state, "m", AddModuleEvent::Loaded(true)), AddModuleAction::Bind);
    let addr = "127.0.0.1:4000".to_string();
    assert_eq!(
        host_add_module(&state, "m", AddModuleEvent::Bound(Some(addr.clone()))),
        AddModuleAction::Start(addr.clone())
    );
    let (answer, replaced) = module_started(&mut state, "m".to_string(), addr.clone(), 7);
    assert_eq!(answer, addr);
    assert!(replaced.is_none());
    assert_eq!(ask(&state, "m"), reply("127.0.0.1:4000"));
    assert_eq!(ask(&state, "n"), AddModuleAction::Load);

    let (answer, replaced) = module_started(&mut state, "m".to_string(), "x".to_string(), 8);
    assert_eq!(answer, "x");
    assert_eq!(replaced.unwrap().handle, 7);
    assert_eq!(ask(&state, "m"), reply("x"));
}

#[test]
fn modules_that_fail_are_answered_nothing() {
    let state: RouterState<u32> = RouterState::new();
    assert_eq!(host_add_module(&state, "m", AddModuleEvent::Loaded(false)), reply(""));
    assert_eq!(host_add_module(&state, "m", AddModuleEvent::Bound(None)), reply(""));
}

#[test]
fn removed_modules_are_denied_until_allowed() {
    let mut state: RouterState<u32> = RouterState::new();
    module_started(&mut state, "m".to_string(), "a".to_string(), 7);
    module_started(&mut state, "n".to_string(), "b".to_string(), 8);

    let removed = host_remove_module(&mut state, "m".to_string()).unwrap();
    assert_eq!((removed.addr.as_str(), removed.handle), ("a", 7));
    assert_eq!(ask(&state, "m"), reply(""));
    assert_eq!(ask(&state, "n"), reply("b"));

    module_started(&mut state, "m".to_string(), "c".to_string(), 9);
    assert_eq!(ask(&state, "m"), reply(""));

    assert_eq!(host_remove_module(&mut state, "m".to_string()).unwrap().handle, 9);
    assert!(host_remove_module(&mut state, "m".to_string()).is_none());
    host_allow_module(&mut state, "m");
    assert_eq!(ask(&state, "m"), AddModuleAction::Load);
    host_allow_module(&mut state, "unknown");
}

#[test]
fn precompiled_components_are_taken_over() {
    let engine = Engine::default();
    let aot = engine.precompile_component(&EMPTY_COMPONENT).unwrap();
    assert_eq!(module_read(Some(&aot)), LoadAction::Deserialize);
    let module = engine.precompile_module(&EMPTY_MODULE).unwrap();
    assert_eq!(module_read(Some(&module)), LoadAction::Compile);
    assert_eq!(module_read(Some(&EMPTY_COMPONENT.to_vec())), LoadAction::Compile);
    assert_eq!(module_read(Some(&Vec::new())), LoadAction::Compile);
    assert_eq!(module_read(None), LoadAction::Fail);
}

#[test]
fn loading_falls_back_to_compiling() {
    assert_eq!(
        load_step(LoadEvent::Read(Some(PrecompiledKind::Component))),
        LoadAction::Deserialize
    );
    assert_eq!(load_step(LoadEvent::Read(Some(PrecompiledKind::Module))), LoadAction::Compile);
    assert_eq!(load_step(LoadEvent::Read(None)), LoadAction::Compile);
    assert_eq!(load_step(LoadEvent::ReadFailed), LoadAction::Fail);
    assert_eq!(load_step(LoadEvent::Deserialized(true)), LoadAction::Done);
    assert_eq!(load_step(LoadEvent::Deserialized(false)), LoadAction::Compile);
}

#[test]
fn components_are_compiled_from_their_bytes() {
    let engine = Engine::default();
    let component = load_module_component(&engine, &EMPTY_COMPONENT.to_vec(), None);
    assert!(component.is_some());
    assert!(load_module_component(&engine, &EMPTY_MODULE.to_vec(), None).is_none());
    assert!(load_module_component(&engine, &vec![1, 2, 3], None).is_none());
    assert!(load_module_component(&engine, &vec![1, 2, 3], component).is_some());
}

#[test]
fn failed_compilations_give_no_component() {
    assert_eq!(compiled_component(Ok(3)), Some(3));
    assert_eq!(compiled_component::<u8>(Err("no".to_string())), None);
}

#[test]
fn components_are_told_their_name_and_address() {
    for network in [false, true] {
        for stdio in [false, true] {
            let perms = SandboxPermissions { network, stdio };
            let plan = run_component_server("m", "127.0.0.1:1", perms);
            assert_eq!(plan.args, vec!["m", "--addr", "127.0.0.1:1", "--name", "m"]);
            assert_eq!(plan.inherit_stdio, stdio);
            assert_eq!(plan.allow_tcp, network);
            assert_eq!(plan.inherit_network, network);
            assert_eq!(plan.allow_ip_name_lookup, network);
        }
    }
    assert_eq!(component_exit_code(Ok(())), 0);
    assert_eq!(component_exit_code(Err(())), 1);
}
