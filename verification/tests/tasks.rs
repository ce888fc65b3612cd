use runwasi_sandbox::error::Error;
use runwasi_sandbox::instance::{ExecConfig, InstanceConfig};
use runwasi_sandbox::sandbox::local::{Local, Status};
use runwasi_sandbox::sandbox::spec::{with_cri_sandbox, Members, Spec};
use runwasi_sandbox::sandbox::stub::InstanceStub;
use runwasi_sandbox::string_map::StringMap;
use runwasi_sandbox::sync::{ExitStatus, Timestamp};

const HOST_PID: u32 = 4711;

fn at(secs: i64) -> Timestamp {
    Timestamp { secs, nanos: 0 }
}

fn created(id: &str) -> Local {
    let mut local = Local::new();
    local.task_create(id.to_string(), &InstanceConfig::default()).unwrap();
    local
}

fn running(id: &str) -> Local {
    let mut local = created(id);
    local.task_start(id, "", HOST_PID).unwrap();
    local
}

#[test]
fn test_delete_after_create() {
    let id = "test-delete-after-create";
    let mut local = Local::new();

    local.task_create(id.to_string(), &InstanceConfig::default()).unwrap();

    local.task_delete(id, "").unwrap();
}

/// Registers an exec sub-process and drives it through its full lifecycle:
/// CREATED -> RUNNING -> (kill) -> STOPPED -> delete.
#[test]
fn test_exec_lifecycle() {
    let mut local = running("c1");

    // register
    local.task_exec("c1", "e1".to_string(), ExecConfig::default()).unwrap();

    // state before start -> CREATED
    let s = local.task_state("c1", "e1").unwrap();
    assert_eq!(s, Status::Created, "expected CREATED before start");

    // start
    local.task_start("c1", "e1", HOST_PID).unwrap();

    // state after start -> RUNNING
    let s = local.task_state("c1", "e1").unwrap();
    assert_eq!(s, Status::Running, "expected RUNNING after start");
    assert_eq!(local.task_wait("c1", "e1").unwrap(), None);

    // kill
    local.task_kill("c1", "e1", 9).unwrap();

    // wait resolves
    assert_eq!(local.task_wait("c1", "e1").unwrap().unwrap().code, 1);

    // state after exit -> STOPPED
    let s = local.task_state("c1", "e1").unwrap();
    assert_eq!(s, Status::Stopped, "expected STOPPED after exit");

    // delete succeeds
    local.task_delete("c1", "e1").unwrap();

    assert_eq!(local.task_state("c1", "e1"), Err(Error::NotFound("e1".to_string())));
    assert_eq!(local.task_state("c1", ""), Ok(Status::Running));
}

/// Starting an exec that was never registered returns NotFound.
#[test]
fn test_exec_start_without_register_is_not_found() {
    let mut local = running("c2");

    let err = local.task_start("c2", "ghost", HOST_PID).unwrap_err();

    assert!(matches!(err, Error::NotFound(_)), "expected NotFound, got {err:?}");
    assert_eq!(err, Error::NotFound("ghost".to_string()));
}

/// Deleting a still-running exec returns FailedPrecondition.
#[test]
fn test_exec_delete_running_is_failed_precondition() {
    let mut local = running("c3");

    local.task_exec("c3", "e3".to_string(), ExecConfig::default()).unwrap();
    local.task_start("c3", "e3", HOST_PID).unwrap();

    let err = local.task_delete("c3", "e3").unwrap_err();

    assert!(
        matches!(err, Error::FailedPrecondition(_)),
        "expected FailedPrecondition, got {err:?}"
    );
}

#[test]
fn task_goes_from_created_to_running_to_stopped() {
    let mut local = Local::new();
    assert!(matches!(local.task_state("test", "").unwrap_err(), Error::NotFound(_)));

    local.task_create("test".to_string(), &InstanceConfig::default()).unwrap();
    assert_eq!(
        local.task_create("test".to_string(), &InstanceConfig::default()),
        Err(Error::AlreadyExists("test".to_string()))
    );
    assert_eq!(local.task_state("test", ""), Ok(Status::Created));

    assert_eq!(local.task_start("test", "", HOST_PID), Ok(HOST_PID));
    assert_eq!(local.task_state("test", ""), Ok(Status::Running));
    assert_eq!(local.task_wait("test", ""), Ok(None));
    assert!(matches!(local.task_delete("test", ""), Err(Error::FailedPrecondition(_))));

    local.task_kill("test", "", 9).unwrap();
    assert_eq!(local.task_wait("test", "").unwrap().unwrap().code, 1);
    assert_eq!(local.task_state("test", ""), Ok(Status::Stopped));

    local.task_delete("test", "").unwrap();
    assert_eq!(local.task_state("test", ""), Err(Error::NotFound("test".to_string())));
}

#[test]
fn tasks_of_one_sandbox_do_not_disturb_each_other() {
    let mut local = running("testbase");
    local.task_create("testinstance".to_string(), &InstanceConfig::default()).unwrap();
    assert_eq!(local.task_state("testinstance", ""), Ok(Status::Created));
    local.task_start("testinstance", "", HOST_PID).unwrap();
    let mut ids = local.task_ids();
    ids.sort();
    assert_eq!(ids, vec!["testbase", "testinstance"]);

    local.task_kill("testinstance", "", 9).unwrap();
    assert_eq!(local.task_state("testinstance", ""), Ok(Status::Stopped));
    assert_eq!(local.task_state("testbase", ""), Ok(Status::Running));
    local.task_delete("testinstance", "").unwrap();
    assert!(matches!(local.task_state("testinstance", ""), Err(Error::NotFound(_))));

    assert_eq!(local.task_wait("testbase", ""), Ok(None));
    local.task_kill("testbase", "", 9).unwrap();
    assert_eq!(local.task_state("testbase", ""), Ok(Status::Stopped));
}

#[test]
fn requests_for_unknown_tasks_are_not_found() {
    let mut local = Local::new();
    let missing = || Error::NotFound("x".to_string());
    assert_eq!(local.task_exec("x", "e".to_string(), ExecConfig::default()), Err(missing()));
    assert_eq!(local.task_start("x", "", HOST_PID), Err(missing()));
    assert_eq!(local.task_kill("x", "", 9), Err(missing()));
    assert_eq!(local.task_wait("x", ""), Err(missing()));
    assert_eq!(local.task_delete("x", ""), Err(missing()));
}

#[test]
fn execs_are_killed_only_once_started() {
    let mut local = running("c");
    local.task_exec("c", "e".to_string(), ExecConfig::default()).unwrap();
    assert_eq!(
        local.task_kill("c", "e", 9),
        Err(Error::FailedPrecondition("exec not started".to_string()))
    );
    assert_eq!(local.task_kill("c", "f", 9), Err(Error::NotFound("f".to_string())));
}

#[test]
fn first_exit_status_stays() {
    let mut local = running("c");
    local.task_kill_at("c", "", 9, at(10)).unwrap();
    local.task_kill_at("c", "", 15, at(20)).unwrap();
    assert_eq!(local.task_wait("c", ""), Ok(Some(ExitStatus { code: 1, at: at(10) })));
    local.task_start("c", "", HOST_PID).unwrap();
    assert_eq!(local.task_state("c", ""), Ok(Status::Stopped));
}

#[test]
fn stub_handles_containers() {
    let mut stub = InstanceStub::new("id".to_string(), &InstanceConfig::default()).unwrap();
    assert_eq!(stub.start(HOST_PID), Ok(HOST_PID));
    assert_eq!(stub.wait(), None);
    stub.kill(9).unwrap();
    let status = stub.wait().unwrap();
    assert_eq!(status.code, 1);
    assert!(status.at.secs > 1_600_000_000);
    assert!(status.at.nanos < 1_000_000_000);
    stub.kill_at(9, at(3)).unwrap();
    assert_eq!(stub.wait(), Some(status));
    assert_eq!(stub.delete(), Ok(()));
}

#[test]
fn stub_handles_execs() {
    let mut stub = InstanceStub::new("id".to_string(), &InstanceConfig::default()).unwrap();
    let missing = || Error::NotFound("e".to_string());
    assert_eq!(stub.start_exec("e", HOST_PID), Err(missing()));
    assert_eq!(stub.kill_exec("e", 9), Err(missing()));
    assert_eq!(stub.wait_exec("e"), Err(missing()));
    assert_eq!(stub.exec_pid("e"), Err(missing()));
    assert_eq!(stub.delete_exec("e"), Ok(()));

    stub.register_exec("e".to_string(), ExecConfig::default()).unwrap();
    assert_eq!(stub.exec_pid("e"), Ok(None));
    assert_eq!(
        stub.kill_exec("e", 9),
        Err(Error::FailedPrecondition("exec not started".to_string()))
    );
    assert_eq!(stub.start_exec("e", HOST_PID), Ok(HOST_PID));
    assert_eq!(stub.exec_pid("e"), Ok(Some(HOST_PID)));
    assert_eq!(stub.wait_exec("e"), Ok(None));
    stub.kill_exec_at("e", 9, at(5)).unwrap();
    assert_eq!(stub.wait_exec("e"), Ok(Some(ExitStatus { code: 1, at: at(5) })));

    stub.register_exec("e".to_string(), ExecConfig::default()).unwrap();
    assert_eq!(stub.exec_pid("e"), Ok(None));
    assert_eq!(stub.wait_exec("e"), Ok(None));
    stub.delete_exec("e").unwrap();
    assert_eq!(stub.exec_pid("e"), Err(missing()));
}

#[test]
fn cri_sandbox_is_the_only_annotation() {
    let spec = with_cri_sandbox(None, "test-cri-task".to_string());
    let annotations = spec.annotations.unwrap();
    assert_eq!(
        annotations.get("io.kubernetes.cri.sandbox-id"),
        Some(&"test-cri-task".to_string())
    );
    assert_eq!(spec.rest, Members::Default);

    let mut annotations = StringMap::new();
    annotations.insert("a".to_string(), "b".to_string());
    let before = Spec { annotations: Some(annotations), rest: Members::Json(b"{}".to_vec()) };
    let spec = with_cri_sandbox(Some(before), "id".to_string());
    assert_eq!(spec.rest, Members::Json(b"{}".to_vec()));
    let annotations = spec.annotations.unwrap();
    assert_eq!(annotations.get("a"), None);
    assert_eq!(annotations.get("io.kubernetes.cri.sandbox-id"), Some(&"id".to_string()));
}

#[test]
fn default_spec_has_empty_annotations() {
    let spec = Spec::default();
    assert!(spec.annotations.unwrap().keys().is_empty());
    assert_eq!(spec.rest, Members::Default);
}
