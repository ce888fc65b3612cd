//! An instance that runs nothing, for the life cycles of containers and of the
//! sub-processes in them.

use vstd::prelude::*;

use crate::error::{Error, ErrorView};
use crate::instance::{ExecConfig, InstanceConfig};
use crate::string_map::StringMap;
use crate::sync::{utc_now, ExitStatus, Timestamp, WaitableCell};

verus! {

/// The exit code of what was killed.
pub const KILLED_EXIT_CODE: u32 = 1;

/// A registered sub-process.
struct ExecEntry {
    pid: Option<u32>,
    exit_code: WaitableCell<ExitStatus>,
}

/// What is known of a process: its pid once it was started, and its exit status once
/// it ended.
pub struct ProcessView {
    pub pid: Option<u32>,
    pub exit: Option<ExitStatus>,
}

impl View for ExecEntry {
    type V = ProcessView;

    closed spec fn view(&self) -> ProcessView {
        ProcessView { pid: self.pid, exit: self.exit_code@ }
    }
}

/// In-memory instance stub. Handles both container and exec lifecycles.
pub struct InstanceStub {
    exit_code: WaitableCell<ExitStatus>,
    execs: StringMap<ExecEntry>,
}

/// What a stub holds.
pub struct StubView {
    pub exit: Option<ExitStatus>,
    pub execs: Map<Seq<char>, ProcessView>,
}

impl View for InstanceStub {
    type V = StubView;

    closed spec fn view(&self) -> StubView {
        StubView { exit: self.exit_code@, execs: exec_views(self.execs@) }
    }
}

spec fn exec_views(execs: Map<Seq<char>, ExecEntry>) -> Map<Seq<char>, ProcessView> {
    execs.map_values(|entry: ExecEntry| entry@)
}

/// The first exit status that is noted stays.
pub open spec fn first_exit(known: Option<ExitStatus>, status: ExitStatus) -> Option<ExitStatus> {
    if known is Some {
        known
    } else {
        Some(status)
    }
}

/// What is killed at a moment.
pub open spec fn killed_at(at: Timestamp) -> ExitStatus {
    ExitStatus { code: KILLED_EXIT_CODE, at }
}

impl StubView {
    /// The stub once the container was killed.
    pub open spec fn killed(self, at: Timestamp) -> StubView {
        StubView { exit: first_exit(self.exit, killed_at(at)), ..self }
    }

    /// The stub with another process under an exec id.
    pub open spec fn with_exec(self, exec_id: Seq<char>, process: ProcessView) -> StubView {
        StubView { execs: self.execs.insert(exec_id, process), ..self }
    }

    /// The stub once the sub-process was killed.
    pub open spec fn exec_killed(self, exec_id: Seq<char>, at: Timestamp) -> StubView {
        let process = self.execs[exec_id];
        self.with_exec(
            exec_id,
            ProcessView { exit: first_exit(process.exit, killed_at(at)), ..process },
        )
    }

    /// Why the sub-process cannot be killed.
    pub open spec fn kill_error(self, exec_id: Seq<char>) -> Option<ErrorView> {
        if !self.execs.contains_key(exec_id) {
            Some(ErrorView::NotFound(exec_id))
        } else if self.execs[exec_id].pid is None {
            Some(ErrorView::FailedPrecondition("exec not started"@))
        } else {
            None
        }
    }
}

impl InstanceStub {
    /// An instance that was not started. Neither its id nor its configuration matters.
    pub fn new(_id: String, _cfg: &InstanceConfig) -> (res: Result<Self, Error>)
        ensures
            res matches Ok(stub) && stub@ == (StubView { exit: None, execs: Map::empty() }),
    {
        let stub = InstanceStub { exit_code: WaitableCell::new(), execs: StringMap::new() };
        assert(stub@.execs =~= Map::empty());
        Ok(stub)
    }

    /// Starts the instance, which runs as the host's own process.
    pub fn start(&self, host_pid: u32) -> (res: Result<u32, Error>)
        ensures
            res matches Ok(pid) && pid == host_pid,
    {
        Ok(host_pid)
    }

    /// Ends the instance at a given moment, whatever the signal.
    pub fn kill_at(&mut self, _signal: u32, at: Timestamp) -> (res: Result<(), Error>)
        ensures
            res is Ok,
            final(self)@ == old(self)@.killed(at),
    {
        let _ = self.exit_code.set(ExitStatus { code: KILLED_EXIT_CODE, at });
        Ok(())
    }

    /// Ends the instance now, whatever the signal.
    pub fn kill(&mut self, signal: u32) -> (res: Result<(), Error>)
        ensures
            res is Ok,
            exists|at: Timestamp|
                crate::sync::is_clock_time(at) && final(self)@ == #[trigger] old(self)@.killed(at),
    {
        self.kill_at(signal, utc_now())
    }

    /// Deletes the instance, of which nothing is left anyway.
    pub fn delete(&self) -> (res: Result<(), Error>)
        ensures
            res is Ok,
    {
        Ok(())
    }

    /// How the instance ended, once it has. Until then it is to be waited for.
    pub fn wait(&self) -> (res: Option<ExitStatus>)
        ensures
            res == self@.exit,
    {
        match self.exit_code.get() {
            Some(status) => Some(*status),
            None => None,
        }
    }

    /// Registers a sub-process, in place of one with the same id.
    pub fn register_exec(&mut self, exec_id: String, _cfg: ExecConfig) -> (res: Result<(), Error>)
        ensures
            res is Ok,
            final(self)@ == old(self)@.with_exec(exec_id@, (ProcessView { pid: None, exit: None })),
    {
        let entry = ExecEntry { pid: None, exit_code: WaitableCell::new() };
        self.execs.insert(exec_id, entry);
        assert(self@.execs =~= old(self)@.execs.insert(exec_id@, entry@));
        Ok(())
    }

    /// Starts a registered sub-process, which runs as the host's own process.
    pub fn start_exec(&mut self, exec_id: &str, host_pid: u32) -> (res: Result<u32, Error>)
        ensures
            old(self)@.execs.contains_key(exec_id@) ==> (res matches Ok(pid) && pid == host_pid)
                && final(self)@ == old(self)@.with_exec(
                exec_id@,
                ProcessView { pid: Some(host_pid), ..old(self)@.execs[exec_id@] },
            ),
            !old(self)@.execs.contains_key(exec_id@) ==> (res matches Err(e) && e@
                == ErrorView::NotFound(exec_id@)) && final(self)@ == old(self)@,
    {
        match self.execs.remove(exec_id) {
            Some(entry) => {
                let entry = ExecEntry { pid: Some(host_pid), ..entry };
                self.execs.insert(exec_id.to_owned(), entry);
                assert(self@.execs =~= old(self)@.execs.insert(exec_id@, entry@));
                Ok(host_pid)
            },
            None => {
                assert(self@.execs =~= old(self)@.execs);
                Err(Error::NotFound(exec_id.to_owned()))
            },
        }
    }

    /// Ends a running sub-process at a given moment, whatever the signal.
    pub fn kill_exec_at(&mut self, exec_id: &str, _signal: u32, at: Timestamp) -> (res: Result<
        (),
        Error,
    >)
        ensures
            match old(self)@.kill_error(exec_id@) {
                Some(error) => (res matches Err(e) && e@ == error) && final(self)@ == old(self)@,
                None => res is Ok && final(self)@ == old(self)@.exec_killed(exec_id@, at),
            },
    {
        match self.execs.remove(exec_id) {
            Some(entry) => {
                let mut entry = entry;
                let started = entry.pid.is_some();
                if started {
                    let _ = entry.exit_code.set(ExitStatus { code: KILLED_EXIT_CODE, at });
                }
                self.execs.insert(exec_id.to_owned(), entry);
                assert(self@.execs =~= old(self)@.execs.insert(exec_id@, entry@));
                if started {
                    Ok(())
                } else {
                    assert(self@.execs =~= old(self)@.execs);
                    Err(Error::FailedPrecondition("exec not started".to_owned()))
                }
            },
            None => {
                assert(self@.execs =~= old(self)@.execs);
                Err(Error::NotFound(exec_id.to_owned()))
            },
        }
    }

    /// Ends a running sub-process now, whatever the signal.
    pub fn kill_exec(&mut self, exec_id: &str, signal: u32) -> (res: Result<(), Error>)
        ensures
            match old(self)@.kill_error(exec_id@) {
                Some(error) => (res matches Err(e) && e@ == error) && final(self)@ == old(self)@,
                None => res is Ok && exists|at: Timestamp|
                    crate::sync::is_clock_time(at) && final(self)@
                        == #[trigger] old(self)@.exec_killed(exec_id@, at),
            },
    {
        self.kill_exec_at(exec_id, signal, utc_now())
    }

    /// How a sub-process ended, once it has. Until then it is to be waited for.
    pub fn wait_exec(&self, exec_id: &str) -> (res: Result<Option<ExitStatus>, Error>)
        ensures
            match res {
                Ok(exit) => self@.execs.contains_key(exec_id@) && exit
                    == self@.execs[exec_id@].exit,
                Err(e) => !self@.execs.contains_key(exec_id@) && e@ == ErrorView::NotFound(
                    exec_id@,
                ),
            },
    {
        match self.execs.get(exec_id) {
            Some(entry) => match entry.exit_code.get() {
                Some(status) => Ok(Some(*status)),
                None => Ok(None),
            },
            None => Err(Error::NotFound(exec_id.to_owned())),
        }
    }

    /// Forgets a sub-process.
    pub fn delete_exec(&mut self, exec_id: &str) -> (res: Result<(), Error>)
        ensures
            res is Ok,
            final(self)@ == (StubView {
                execs: old(self)@.execs.remove(exec_id@),
                ..old(self)@
            }),
    {
        self.execs.remove(exec_id);
        assert(self@.execs =~= old(self)@.execs.remove(exec_id@));
        Ok(())
    }

    /// The pid of a registered sub-process, or `None` if it was not started yet.
    pub fn exec_pid(&self, exec_id: &str) -> (res: Result<Option<u32>, Error>)
        ensures
            match res {
                Ok(pid) => self@.execs.contains_key(exec_id@) && pid == self@.execs[exec_id@].pid,
                Err(e) => !self@.execs.contains_key(exec_id@) && e@ == ErrorView::NotFound(
                    exec_id@,
                ),
            },
    {
        match self.execs.get(exec_id) {
            Some(entry) => Ok(entry.pid),
            None => Err(Error::NotFound(exec_id.to_owned())),
        }
    }
}

/// Killing the container notes its end, with the code 1, unless it has ended; its
/// sub-processes stay as they are.
pub proof fn law_killing_ends_the_container_only(stub: StubView, at: Timestamp)
    ensures
        stub.killed(at).execs == stub.execs,
        stub.exit is None ==> stub.killed(at).exit == Some(ExitStatus { code: 1, at }),
        stub.exit is Some ==> stub.killed(at).exit == stub.exit,
{
}

/// A sub-process is killed exactly if it is registered and was started. That notes its
/// end, with the code 1, unless it has ended; its pid, the other sub-processes and the
/// container stay as they are.
pub proof fn law_killing_ends_the_exec_only(
    stub: StubView,
    exec_id: Seq<char>,
    other: Seq<char>,
    at: Timestamp,
)
    ensures
        stub.kill_error(exec_id) is None <==> stub.execs.contains_key(exec_id)
            && stub.execs[exec_id].pid is Some,
        !stub.execs.contains_key(exec_id) ==> stub.kill_error(exec_id) == Some(
            ErrorView::NotFound(exec_id),
        ),
        stub.execs.contains_key(exec_id) && stub.execs[exec_id].pid is None ==> stub.kill_error(
            exec_id,
        ) == Some(ErrorView::FailedPrecondition("exec not started"@)),
        stub.execs.contains_key(exec_id) ==> {
            let after = stub.exec_killed(exec_id, at);
            let (old_process, new_process) = (stub.execs[exec_id], after.execs[exec_id]);
            &&& after.exit == stub.exit
            &&& after.execs.dom() == stub.execs.dom()
            &&& other != exec_id && stub.execs.contains_key(other) ==> after.execs[other]
                == stub.execs[other]
            &&& new_process.pid == old_process.pid
            &&& old_process.exit is None ==> new_process.exit == Some(ExitStatus { code: 1, at })
            &&& old_process.exit is Some ==> new_process.exit == old_process.exit
        },
{
    if stub.execs.contains_key(exec_id) {
        assert(stub.exec_killed(exec_id, at).execs.dom() =~= stub.execs.dom());
    }
}

/// Another state of a sub-process is found under its id, and changes nothing else.
pub proof fn law_exec_states_are_kept_apart(
    stub: StubView,
    exec_id: Seq<char>,
    process: ProcessView,
    other: Seq<char>,
)
    ensures
        stub.with_exec(exec_id, process).exit == stub.exit,
        stub.with_exec(exec_id, process).execs.contains_key(exec_id),
        stub.with_exec(exec_id, process).execs[exec_id] == process,
        other != exec_id ==> (stub.with_exec(exec_id, process).execs.contains_key(other)
            <==> stub.execs.contains_key(other)),
        other != exec_id && stub.execs.contains_key(other) ==> stub.with_exec(
            exec_id,
            process,
        ).execs[other] == stub.execs[other],
{
}

} // verus!
