use std::path::PathBuf;

use runwasi_sandbox::container::exec::{ExecWait, Instance, SignalOrder};
use runwasi_sandbox::container::tenant::{
    refused_id, validate_id, Container, ExecTenantArgs, OpenPlan, SpawnAction, SpawnEvent, SpawnPhase, Stream,
    Streams, TenantSpawn,
};
use runwasi_sandbox::error::Error;
use runwasi_sandbox::instance::ExecConfig;
use runwasi_sandbox::sync::{ExitStatus, Timestamp, WaitableCell};

fn instance() -> Instance {
    Instance::new("c1".to_string(), PathBuf::from("/run/c1"), false)
}

fn config() -> ExecConfig {
    ExecConfig {
        stdin: Some(PathBuf::from("/in")),
        stdout: None,
        stderr: Some(PathBuf::from("/err")),
        spec: vec![b'{', b'}'],
    }
}

fn ended(code: u32) -> ExitStatus {
    ExitStatus { code, at: Timestamp { secs: 7, nanos: 0 } }
}

fn running(pid: i32) -> (Instance, u64) {
    let mut instance = instance();
    instance.exec_register("e1".to_string(), config()).unwrap();
    let start = instance.exec_start("e1").unwrap_or_else(|e| panic!("{e:?}"));
    instance.exec_spawned("e1", start.serial, Ok(pid)).unwrap();
    (instance, start.serial)
}

fn args(container_id: &str, exec_id: &str) -> ExecTenantArgs {
    ExecTenantArgs {
        container_id: container_id.to_string(),
        exec_id: exec_id.to_string(),
        root_path: PathBuf::from("/run"),
        spec: vec![1, 2, 3],
        stdin: Some(PathBuf::from("/in")),
        stdout: None,
        stderr: Some(PathBuf::from("/err")),
    }
}

fn container() -> Container {
    Container { runtime_dir: None, temp_dir: PathBuf::from("/tmp") }
}

fn spawn() -> TenantSpawn {
    container().spawn_exec_tenant(args("c", "e")).unwrap_or_else(|e| panic!("{e:?}"))
}

#[test]
fn ids_are_letters_digits_hyphens_and_underscores() {
    for id in ["a", "Z", "0", "-", "_", "my-container_01"] {
        assert_eq!(validate_id(id), Ok(()));
    }
    for id in ["", ".", "..", "a/b", "a b", "a\n", "\u{e9}", "a\u{0}"] {
        assert!(validate_id(id).is_err(), "{:?}", id);
    }
}

#[test]
fn invalid_ids_are_quoted() {
    assert_eq!(
        validate_id("a\"\n"),
        Err(Error::Any(
            "invalid id \"a\\\"\\n\": must be non-empty and contain only [a-zA-Z0-9_-]".to_string()
        ))
    );
    assert_eq!(
        validate_id(""),
        Err(Error::Any(
            "invalid id \"\": must be non-empty and contain only [a-zA-Z0-9_-]".to_string()
        ))
    );
}

#[test]
fn refused_ids_are_named_as_quoted() {
    assert_eq!(
        refused_id("<x>"),
        Error::Any(
            "invalid id <x>: must be non-empty and contain only [a-zA-Z0-9_-]".to_string()
        )
    );
}

#[test]
fn tenants_need_valid_ids() {
    let refused = |id: &str| validate_id(id).unwrap_err();
    assert_eq!(container().spawn_exec_tenant(args("../c", "e e")).err(), Some(refused("../c")));
    assert_eq!(container().spawn_exec_tenant(args("c", "e e")).err(), Some(refused("e e")));
    assert!(container().spawn_exec_tenant(args("c", "e")).is_ok());
}

#[test]
fn spec_file_is_put_into_the_runtime_dir() {
    let spawn = spawn();
    assert_eq!(spawn.spec_file.dir, PathBuf::from("/tmp"));
    assert_eq!(spawn.spec_file.prefix, "runwasi-exec-");
    assert_eq!(spawn.spec_file.suffix, ".json");
    assert_eq!(spawn.spec_file.mode, 0o600);
    assert_eq!(spawn.spec_file.contents, vec![1, 2, 3]);
    assert_eq!(spawn.container_id, "c");
    assert_eq!(spawn.root_path, PathBuf::from("/run"));
    assert_eq!(spawn.state.phase, SpawnPhase::WritingSpec);

    let container = Container {
        runtime_dir: Some(PathBuf::from("/run/user/0")),
        temp_dir: PathBuf::from("/tmp"),
    };
    let spawn = container.spawn_exec_tenant(args("c", "e")).unwrap_or_else(|e| panic!("{e:?}"));
    assert_eq!(spawn.spec_file.dir, PathBuf::from("/run/user/0"));
}

#[test]
fn tenant_is_built_with_the_streams_that_could_be_opened() {
    let mut spawn = spawn();
    assert!(matches!(spawn.advance(SpawnEvent::SpecWritten(Ok(()))), SpawnAction::SetRoot));
    assert!(matches!(
        spawn.advance(SpawnEvent::RootSet(Ok(()))),
        SpawnAction::Open(Stream::Stdin)
    ));
    assert!(matches!(
        spawn.advance(SpawnEvent::Opened(false)),
        SpawnAction::Open(Stream::Stderr)
    ));
    match spawn.advance(SpawnEvent::Opened(true)) {
        SpawnAction::Build(streams) => {
            assert_eq!(streams, Streams { stdin: false, stdout: false, stderr: true });
        }
        _ => panic!("the tenant is not built"),
    }
    match spawn.advance(SpawnEvent::Built(Ok(42))) {
        SpawnAction::Return { remove_spec, result } => {
            assert!(remove_spec);
            assert_eq!(result, Ok(42));
        }
        _ => panic!("spawning goes on"),
    }
    assert_eq!(spawn.state.phase, SpawnPhase::Returned);
}

#[test]
fn tenant_without_streams_is_built_at_once() {
    let mut plain = args("c", "e");
    plain.stdin = None;
    plain.stderr = None;
    let mut spawn = container().spawn_exec_tenant(plain).unwrap_or_else(|e| panic!("{e:?}"));
    spawn.advance(SpawnEvent::SpecWritten(Ok(())));
    assert!(matches!(spawn.advance(SpawnEvent::RootSet(Ok(()))), SpawnAction::Build(_)));
}

#[test]
fn failed_spawns_leave_the_spec_file() {
    let failure = || Error::Any("no".to_string());
    let refused = |action: SpawnAction| match action {
        SpawnAction::Return { remove_spec, result } => {
            assert!(!remove_spec);
            assert_eq!(result, Err(Error::Any("no".to_string())));
        }
        _ => panic!("spawning goes on"),
    };
    let mut first = spawn();
    refused(first.advance(SpawnEvent::SpecWritten(Err(failure()))));

    let mut second = spawn();
    second.advance(SpawnEvent::SpecWritten(Ok(())));
    refused(second.advance(SpawnEvent::RootSet(Err(failure()))));

    let mut third = spawn();
    third.advance(SpawnEvent::SpecWritten(Ok(())));
    third.advance(SpawnEvent::RootSet(Ok(())));
    third.advance(SpawnEvent::Opened(true));
    third.advance(SpawnEvent::Opened(true));
    refused(third.advance(SpawnEvent::Built(Err(failure()))));
}

#[test]
fn stdin_is_unblocked_first() {
    assert_eq!(
        Stream::Stdin.open_plan(),
        OpenPlan { unblock: true, read: true, write: false, close_on_exec: true }
    );
    for stream in [Stream::Stdout, Stream::Stderr] {
        assert_eq!(
            stream.open_plan(),
            OpenPlan { unblock: false, read: true, write: true, close_on_exec: true }
        );
    }
}

#[test]
fn wasm_containers_have_no_execs() {
    let mut wasm = Instance::new("w".to_string(), PathBuf::from("/run/w"), true);
    assert!(!wasm.is_exhausted());
    assert_eq!(
        wasm.exec_register("e".to_string(), config()),
        Err(Error::Unimplemented("exec is not supported for WASM containers".to_string()))
    );
    assert_eq!(wasm.exec_pid_get("e"), Err(Error::NotFound("e".to_string())));
}

#[test]
fn exec_is_started_with_what_was_registered() {
    let mut instance = instance();
    instance.exec_register("e1".to_string(), config()).unwrap();
    assert_eq!(instance.exec_pid_get("e1"), Ok(None));
    let start = instance.exec_start("e1").unwrap_or_else(|e| panic!("{e:?}"));
    assert_eq!(start.args.container_id, "c1");
    assert_eq!(start.args.exec_id, "e1");
    assert_eq!(start.args.root_path, PathBuf::from("/run/c1"));
    assert_eq!(start.args.spec, vec![b'{', b'}']);
    assert_eq!(start.args.stdin, Some(PathBuf::from("/in")));
    assert_eq!(start.args.stdout, None);
    assert_eq!(start.args.stderr, Some(PathBuf::from("/err")));

    assert_eq!(instance.exec_spawned("e1", start.serial, Ok(77)), Ok(77));
    assert_eq!(instance.exec_pid_get("e1"), Ok(Some(77)));
    assert_eq!(instance.exec_wait("e1"), Ok(ExecWait::Waiting { serial: start.serial }));
}

#[test]
fn exec_starts_only_once() {
    let mut instance = instance();
    assert_eq!(instance.exec_start("e1").err(), Some(Error::NotFound("e1".to_string())));
    instance.exec_register("e1".to_string(), config()).unwrap();
    let start = instance.exec_start("e1").unwrap_or_else(|e| panic!("{e:?}"));
    let failure = Error::Any("cannot spawn".to_string());
    assert_eq!(
        instance.exec_spawned("e1", start.serial, Err(failure.clone())),
        Err(failure)
    );
    assert_eq!(instance.exec_pid_get("e1"), Ok(None));
    assert_eq!(instance.exec_start("e1").err(), Some(Error::AlreadyExists("e1".to_string())));

    instance.exec_register("e1".to_string(), config()).unwrap();
    assert!(instance.exec_start("e1").is_ok());
}

#[test]
fn failed_spawns_leave_no_pid() {
    let mut instance = instance();
    instance.exec_register("e1".to_string(), config()).unwrap();
    let start = instance.exec_start("e1").unwrap_or_else(|e| panic!("{e:?}"));
    let failure = Error::Any("cannot spawn".to_string());
    assert!(instance.exec_spawned("e1", start.serial, Err(failure)).is_err());
    assert_eq!(instance.exec_pid_get("e1"), Ok(None));
    assert_eq!(
        instance.exec_kill("e1", 9),
        Err(Error::FailedPrecondition("exec not started".to_string()))
    );
}

#[test]
fn execs_that_were_not_started_are_left_alone() {
    let mut instance = instance();
    instance.exec_register("e1".to_string(), config()).unwrap();
    let serial = match instance.exec_wait("e1") {
        Ok(ExecWait::Waiting { serial }) => serial,
        other => panic!("{other:?}"),
    };
    assert_eq!(instance.exec_spawned("e1", serial, Ok(77)), Ok(77));
    assert_eq!(instance.exec_pid_get("e1"), Ok(None));
    instance.exec_exited("e1", serial, ended(3));
    assert_eq!(instance.exec_wait("e1"), Ok(ExecWait::Waiting { serial }));

    assert!(instance.exec_start("e1").is_ok());
    instance.exec_exited("e1", serial, ended(3));
    assert_eq!(instance.exec_wait("e1"), Ok(ExecWait::Waiting { serial }));
    instance.exec_spawned("e1", serial, Ok(77)).unwrap();
    instance.exec_exited("e1", serial, ended(3));
    assert_eq!(instance.exec_wait("e1"), Ok(ExecWait::Exited(ended(3))));
}

#[test]
fn signals_go_to_the_pid_of_the_exec() {
    let (instance, _) = running(77);
    assert_eq!(instance.exec_kill("e1", 9).unwrap(), SignalOrder { pid: 77, signal: 9 });
    assert_eq!(instance.exec_kill("e1", 1).unwrap(), SignalOrder { pid: 77, signal: 1 });
    assert_eq!(instance.exec_kill("e1", 31).unwrap(), SignalOrder { pid: 77, signal: 31 });

    let (instance, _) = running(-3);
    assert_eq!(instance.exec_pid_get("e1"), Ok(Some(4294967293)));
    assert_eq!(instance.exec_kill("e1", 15).unwrap(), SignalOrder { pid: -3, signal: 15 });
}

#[test]
fn numbers_that_are_no_signals_are_refused() {
    let (instance, _) = running(77);
    for number in [0, 32, 64, 4294967295] {
        assert_eq!(
            instance.exec_kill("e1", number),
            Err(Error::InvalidArgument("invalid signal: EINVAL: Invalid argument".to_string()))
        );
    }
}

#[test]
fn execs_that_do_not_run_are_not_signalled() {
    let mut instance = instance();
    assert_eq!(instance.exec_kill("e1", 9), Err(Error::NotFound("e1".to_string())));
    instance.exec_register("e1".to_string(), config()).unwrap();
    assert_eq!(
        instance.exec_kill("e1", 0),
        Err(Error::FailedPrecondition("exec not started".to_string()))
    );

    let (mut instance, serial) = running(77);
    instance.exec_exited("e1", serial, ended(3));
    assert_eq!(
        instance.exec_kill("e1", 0),
        Err(Error::NotFound("exec e1 has already exited".to_string()))
    );
    instance.exec_delete("e1").unwrap();
    assert_eq!(instance.exec_kill("e1", 9), Err(Error::NotFound("e1".to_string())));
    assert_eq!(instance.exec_wait("e1"), Err(Error::NotFound("e1".to_string())));
    assert_eq!(instance.exec_delete("e1"), Ok(()));
}

#[test]
fn first_end_of_an_exec_stays() {
    let (mut instance, serial) = running(77);
    instance.exec_exited("e1", serial, ended(3));
    instance.exec_exited("e1", serial, ended(4));
    instance.exec_unwatched("e1", serial);
    assert_eq!(instance.exec_wait("e1"), Ok(ExecWait::Exited(ended(3))));
}

#[test]
fn unwatched_execs_count_as_killed() {
    let (mut instance, serial) = running(77);
    let noted = instance.exec_unwatched("e1", serial);
    let status = match instance.exec_wait("e1") {
        Ok(ExecWait::Exited(status)) => status,
        other => panic!("{other:?}"),
    };
    assert_eq!(status, noted);
    assert_eq!(status.code, 137);
    assert_eq!(instance.exec_pid_get("e1"), Ok(Some(77)));
    assert_eq!(
        instance.exec_kill("e1", 9),
        Err(Error::NotFound("exec e1 has already exited".to_string()))
    );
    assert!(status.at.secs > 1_600_000_000);
}

#[test]
fn late_news_of_a_replaced_exec_is_ignored() {
    let (mut instance, serial) = running(77);
    instance.exec_register("e1".to_string(), config()).unwrap();
    assert_eq!(instance.exec_spawned("e1", serial, Ok(78)), Ok(78));
    instance.exec_exited("e1", serial, ended(3));
    assert_eq!(instance.exec_pid_get("e1"), Ok(None));
    match instance.exec_wait("e1") {
        Ok(ExecWait::Waiting { serial: other }) => assert_ne!(other, serial),
        other => panic!("{other:?}"),
    }

    instance.exec_delete("e1").unwrap();
    instance.exec_exited("e1", serial, ended(3));
    assert_eq!(instance.exec_wait("e1"), Err(Error::NotFound("e1".to_string())));
}

#[test]
fn cells_are_set_once() {
    let mut cell = WaitableCell::new();
    assert_eq!(cell.get(), None);
    assert_eq!(cell.set(1), Ok(()));
    assert_eq!(cell.set(2), Err(2));
    assert_eq!(cell.get(), Some(&1));
}
