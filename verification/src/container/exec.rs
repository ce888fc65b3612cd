//! Exec sub-processes of native containers: which are registered, which were
//! started, and how they ended.

use std::path::PathBuf;

use vstd::prelude::*;

use crate::container::tenant::ExecTenantArgs;
use crate::error::{Error, ErrorView};
use crate::instance::ExecConfig;
use crate::string_map::StringMap;
use crate::sync::{utc_now, ExitStatus, WaitableCell};

verus! {

/// The exit code of a process whose end could not be watched.
pub const UNWATCHED_EXIT_CODE: u32 = 137;

/// A registered sub-process.
pub struct ExecState {
    pub config: ExecConfig,
    pub pid: Option<u32>,
    pub exit_code: WaitableCell<ExitStatus>,
    pub started: bool,
    /// Tells the registration from all others, also under the same id.
    pub serial: u64,
}

/// The sub-processes of one container.
pub struct Instance {
    id: String,
    root_path: PathBuf,
    is_wasm: bool,
    exec_processes: StringMap<ExecState>,
    next_serial: u64,
}

/// What an instance holds.
pub struct InstanceView {
    pub id: Seq<char>,
    pub root_path: PathBuf,
    pub is_wasm: bool,
    pub execs: Map<Seq<char>, ExecState>,
    pub next_serial: u64,
}

impl View for Instance {
    type V = InstanceView;

    closed spec fn view(&self) -> InstanceView {
        InstanceView {
            id: self.id@,
            root_path: self.root_path,
            is_wasm: self.is_wasm,
            execs: self.exec_processes@,
            next_serial: self.next_serial,
        }
    }
}

impl InstanceView {
    /// Each registration has a serial number of its own, below the next one.
    pub open spec fn serials_are_fresh(self) -> bool {
        &&& forall|k: Seq<char>|
            self.execs.contains_key(k) ==> (#[trigger] self.execs[k]).serial < self.next_serial
        &&& forall|j: Seq<char>, k: Seq<char>|
            self.execs.contains_key(j) && self.execs.contains_key(k) && j != k
                ==> (#[trigger] self.execs[j]).serial != (#[trigger] self.execs[k]).serial
    }

    /// Only a sub-process that was started has a pid, and only one that has a pid has an
    /// exit status.
    pub open spec fn facts_come_in_order(self) -> bool {
        forall|k: Seq<char>|
            self.execs.contains_key(k) ==> {
                let state = #[trigger] self.execs[k];
                &&& state.pid is Some ==> state.started
                &&& state.exit_code@ is Some ==> state.pid is Some
            }
    }

    /// What holds of every instance.
    pub open spec fn is_valid(self) -> bool {
        self.serials_are_fresh() && self.facts_come_in_order()
    }

    /// The instance with another state under an id.
    pub open spec fn with_exec(self, id: Seq<char>, state: ExecState) -> InstanceView {
        InstanceView { execs: self.execs.insert(id, state), ..self }
    }

    /// The registration is still there.
    pub open spec fn is_registered(self, id: Seq<char>, serial: u64) -> bool {
        self.execs.contains_key(id) && self.execs[id].serial == serial
    }

    /// The registration is still there, and was started.
    pub open spec fn is_started(self, id: Seq<char>, serial: u64) -> bool {
        self.is_registered(id, serial) && self.execs[id].started
    }

    /// The registration is still there, and was spawned.
    pub open spec fn is_spawned(self, id: Seq<char>, serial: u64) -> bool {
        self.is_registered(id, serial) && self.execs[id].pid is Some
    }

    /// The instance once a sub-process was marked as started.
    pub open spec fn after_start(self, id: Seq<char>) -> InstanceView {
        self.with_exec(id, ExecState { started: true, ..self.execs[id] })
    }

    /// The instance once it is known what came of spawning a sub-process.
    pub open spec fn after_spawn(
        self,
        id: Seq<char>,
        serial: u64,
        outcome: Result<i32, Error>,
    ) -> InstanceView {
        match outcome {
            Ok(raw) => if self.is_started(id, serial) {
                self.with_exec(id, spawned(self.execs[id], raw as u32))
            } else {
                self
            },
            Err(_) => self,
        }
    }
}

/// A sub-process that is being started: which registration it is, and what it is
/// spawned with.
pub struct ExecStart {
    pub serial: u64,
    pub args: ExecTenantArgs,
}

/// What waiting for a sub-process comes to.
#[derive(Clone, Copy, Debug, PartialEq, Eq)]
pub enum ExecWait {
    /// It ended.
    Exited(ExitStatus),
    /// The registration with this serial number did not end yet.
    Waiting { serial: u64 },
}

/// A signal that is to be sent.
#[derive(Clone, Copy, Debug, PartialEq, Eq, Structural)]
pub struct SignalOrder {
    pub pid: i32,
    pub signal: i32,
}

/// The number is that of a signal.
pub open spec fn is_signal(number: i32) -> bool {
    1 <= number <= 31
}

/// `nix::sys::signal::Signal::try_from`, on Linux other than MIPS and SPARC: the
/// numbers from 1 to 31 are signals; for any other the error is `EINVAL`, whose
/// text is the one stated.
#[verifier::external_body]
fn signal_number(number: i32) -> (res: Result<i32, String>)
    ensures
        match res {
            Ok(n) => n == number && is_signal(number),
            Err(text) => !is_signal(number) && text@ == "EINVAL: Invalid argument"@,
        },
{
    match nix::sys::signal::Signal::try_from(number) {
        Ok(signal) => Ok(signal as i32),
        Err(e) => Err(e.to_string()),
    }
}

/// What starting a sub-process leads to.
pub open spec fn start_error(instance: InstanceView, id: Seq<char>) -> Option<ErrorView> {
    if !instance.execs.contains_key(id) {
        Some(ErrorView::NotFound(id))
    } else if instance.execs[id].started {
        Some(ErrorView::AlreadyExists(id))
    } else {
        None
    }
}

/// What signalling a sub-process leads to.
pub open spec fn kill_error(instance: InstanceView, id: Seq<char>, signal: u32) -> Option<
    ErrorView,
> {
    if !instance.execs.contains_key(id) {
        Some(ErrorView::NotFound(id))
    } else if instance.execs[id].pid is None {
        Some(ErrorView::FailedPrecondition("exec not started"@))
    } else if instance.execs[id].exit_code@ is Some {
        Some(ErrorView::NotFound("exec "@ + id + " has already exited"@))
    } else if !(1 <= signal <= 31) {
        Some(ErrorView::InvalidArgument("invalid signal: "@ + "EINVAL: Invalid argument"@))
    } else {
        None
    }
}

/// The state of a sub-process once it was spawned with a pid. A pid that is known
/// stays.
pub open spec fn spawned(state: ExecState, pid: u32) -> ExecState {
    ExecState {
        pid: if state.pid is Some {
            state.pid
        } else {
            Some(pid)
        },
        ..state
    }
}

/// Only the exit status of the second state differs: it is the given one, unless
/// the first has one.
pub open spec fn has_exited(before: ExecState, after: ExecState, status: ExitStatus) -> bool {
    &&& after.exit_code@ == if before.exit_code@ is Some {
        before.exit_code@
    } else {
        Some(status)
    }
    &&& after.config == before.config
    &&& after.pid == before.pid
    &&& after.started == before.started
    &&& after.serial == before.serial
}

/// The second instance differs from the first only in the state under the id.
pub open spec fn only_exec_differs(
    before: InstanceView,
    after: InstanceView,
    id: Seq<char>,
) -> bool {
    after == before.with_exec(id, after.execs[id])
}

/// The second instance is the first once the end of a sub-process was noted, if it was
/// spawned and is still there.
pub open spec fn is_after_exit(
    before: InstanceView,
    after: InstanceView,
    id: Seq<char>,
    serial: u64,
    status: ExitStatus,
) -> bool {
    if before.is_spawned(id, serial) {
        only_exec_differs(before, after, id) && has_exited(
            before.execs[id],
            after.execs[id],
            status,
        )
    } else {
        after == before
    }
}

impl Instance {
    /// What holds of every instance.
    #[verifier::type_invariant]
    pub open spec fn wf(self) -> bool {
        self@.is_valid()
    }

    /// An instance without sub-processes.
    pub fn new(id: String, root_path: PathBuf, is_wasm: bool) -> (res: Self)
        ensures
            res@ == (InstanceView {
                id: id@,
                root_path,
                is_wasm,
                execs: Map::empty(),
                next_serial: 0,
            }),
    {
        Instance { id, root_path, is_wasm, exec_processes: StringMap::new(), next_serial: 0 }
    }

    /// No serial number is left for another registration. Where none is ever made, none
    /// is needed.
    pub fn is_exhausted(&self) -> (res: bool)
        ensures
            res == (!self@.is_wasm && self@.next_serial == u64::MAX),
    {
        !self.is_wasm && self.next_serial == u64::MAX
    }

    /// Takes the sub-processes out, for a change that is put back.
    fn take_execs(&mut self) -> (res: StringMap<ExecState>)
        ensures
            res@ == old(self)@.execs,
            final(self)@ == (InstanceView { execs: Map::empty(), ..old(self)@ }),
            old(self)@.is_valid(),
    {
        proof {
            use_type_invariant(&*self);
        }
        let mut execs: StringMap<ExecState> = StringMap::new();
        std::mem::swap(&mut execs, &mut self.exec_processes);
        execs
    }

    /// Registers a sub-process, in place of one with the same id.
    pub fn exec_register(&mut self, exec_id: String, cfg: ExecConfig) -> (res: Result<(), Error>)
        requires
            old(self)@.is_wasm || old(self)@.next_serial < u64::MAX,
        ensures
            old(self)@.is_wasm ==> (res matches Err(e) && e@ == ErrorView::Unimplemented(
                "exec is not supported for WASM containers"@,
            )) && final(self)@ == old(self)@,
            !old(self)@.is_wasm ==> res is Ok && final(self)@.execs.contains_key(exec_id@) && ({
                let state = final(self)@.execs[exec_id@];
                &&& state.config == cfg
                &&& state.pid is None
                &&& state.exit_code@ is None
                &&& !state.started
                &&& state.serial == old(self)@.next_serial
                &&& final(self)@ == InstanceView {
                    execs: old(self)@.execs.insert(exec_id@, state),
                    next_serial: (old(self)@.next_serial + 1) as u64,
                    ..old(self)@
                }
            }),
    {
        if self.is_wasm {
            return Err(
                Error::Unimplemented("exec is not supported for WASM containers".to_owned()),
            );
        }
        let state = ExecState {
            config: cfg,
            pid: None,
            exit_code: WaitableCell::new(),
            started: false,
            serial: self.next_serial,
        };
        let mut execs = self.take_execs();
        self.next_serial = self.next_serial + 1;
        execs.insert(exec_id, state);
        self.exec_processes = execs;
        Ok(())
    }

    /// Begins to start a sub-process, which no other start may do again. Returns what
    /// it is to be spawned with.
    pub fn exec_start(&mut self, exec_id: &str) -> (res: Result<ExecStart, Error>)
        ensures
            match start_error(old(self)@, exec_id@) {
                Some(error) => (res matches Err(e) && e@ == error) && final(self)@ == old(self)@,
                None => {
                    let state = old(self)@.execs[exec_id@];
                    &&& final(self)@ == old(self)@.after_start(exec_id@)
                    &&& res matches Ok(start)
                    &&& start.serial == state.serial
                    &&& start.args.container_id@ == old(self)@.id
                    &&& start.args.exec_id@ == exec_id@
                    &&& start.args.root_path == old(self)@.root_path
                    &&& start.args.spec@ == state.config.spec@
                    &&& start.args.stdin == state.config.stdin
                    &&& start.args.stdout == state.config.stdout
                    &&& start.args.stderr == state.config.stderr
                },
            },
    {
        let mut execs = self.take_execs();
        match execs.remove(exec_id) {
            None => {
                assert(execs@ =~= old(self)@.execs);
                self.exec_processes = execs;
                Err(Error::NotFound(exec_id.to_owned()))
            },
            Some(state) => {
                if state.started {
                    execs.insert(exec_id.to_owned(), state);
                    assert(execs@ =~= old(self)@.execs);
                    self.exec_processes = execs;
                    return Err(Error::AlreadyExists(exec_id.to_owned()));
                }
                let start = ExecStart {
                    serial: state.serial,
                    args: ExecTenantArgs {
                        container_id: self.id.clone(),
                        exec_id: exec_id.to_owned(),
                        root_path: self.root_path.clone(),
                        spec: state.config.spec.clone(),
                        stdin: state.config.stdin.clone(),
                        stdout: state.config.stdout.clone(),
                        stderr: state.config.stderr.clone(),
                    },
                };
                let state = ExecState { started: true, ..state };
                execs.insert(exec_id.to_owned(), state);
                assert(execs@ =~= old(self)@.execs.insert(exec_id@, state));
                self.exec_processes = execs;
                Ok(start)
            },
        }
    }

    /// Notes what came of spawning a sub-process: the pid, or why there is none. A
    /// registration that is no longer there, or was not started, is left alone.
    pub fn exec_spawned(&mut self, exec_id: &str, serial: u64, outcome: Result<i32, Error>) -> (res:
        Result<u32, Error>)
        ensures
            final(self)@ == old(self)@.after_spawn(exec_id@, serial, outcome),
            match outcome {
                Ok(raw) => res == Ok::<u32, Error>(raw as u32),
                Err(error) => res == Err::<u32, Error>(error),
            },
    {
        let raw = match outcome {
            Ok(raw) => raw,
            Err(error) => return Err(error),
        };
        let pid: u32 = raw as u32;
        let mut execs = self.take_execs();
        if let Some(mut state) = execs.remove(exec_id) {
            if state.serial == serial && state.started && state.pid.is_none() {
                state.pid = Some(pid);
            }
            execs.insert(exec_id.to_owned(), state);
            assert(execs@ =~= old(self)@.execs.insert(exec_id@, state));
        }
        proof {
            if !old(self)@.is_started(exec_id@, serial) {
                assert(execs@ =~= old(self)@.execs);
            }
        }
        self.exec_processes = execs;
        Ok(pid)
    }

    /// Notes that a sub-process ended. The first status that is noted stays. A
    /// registration that is no longer there, or was not spawned, is left alone.
    pub fn exec_exited(&mut self, exec_id: &str, serial: u64, status: ExitStatus)
        ensures
            is_after_exit(old(self)@, final(self)@, exec_id@, serial, status),
    {
        let mut execs = self.take_execs();
        if let Some(mut state) = execs.remove(exec_id) {
            if state.serial == serial && state.pid.is_some() {
                let _ = state.exit_code.set(status);
            }
            execs.insert(exec_id.to_owned(), state);
            assert(execs@ =~= old(self)@.execs.insert(exec_id@, state));
        }
        proof {
            if !old(self)@.is_spawned(exec_id@, serial) {
                assert(execs@ =~= old(self)@.execs);
            }
        }
        self.exec_processes = execs;
    }

    /// Notes that the end of a sub-process cannot be watched: it counts as killed
    /// now. Returns the status that is noted.
    pub fn exec_unwatched(&mut self, exec_id: &str, serial: u64) -> (res: ExitStatus)
        ensures
            res.code == UNWATCHED_EXIT_CODE,
            crate::sync::is_clock_time(res.at),
            is_after_exit(old(self)@, final(self)@, exec_id@, serial, res),
    {
        let status = ExitStatus { code: UNWATCHED_EXIT_CODE, at: utc_now() };
        self.exec_exited(exec_id, serial, status);
        status
    }

    /// The signal that is to be sent to a running sub-process. The pid of one that
    /// has exited may be another process's by now, so it is refused.
    pub fn exec_kill(&self, exec_id: &str, signal: u32) -> (res: Result<SignalOrder, Error>)
        ensures
            match kill_error(self@, exec_id@, signal) {
                Some(error) => res matches Err(e) && e@ == error,
                None => res matches Ok(order) && order.pid == self@.execs[exec_id@].pid->0 as i32
                    && order.signal == signal,
            },
    {
        let state = match self.exec_processes.get(exec_id) {
            Some(state) => state,
            None => return Err(Error::NotFound(exec_id.to_owned())),
        };
        let pid: u32 = match state.pid {
            Some(pid) => pid,
            None => return Err(Error::FailedPrecondition("exec not started".to_owned())),
        };
        if state.exit_code.get().is_some() {
            return Err(
                Error::NotFound("exec ".to_owned().concat(exec_id).concat(" has already exited")),
            );
        }
        assert(is_signal(signal as i32) <==> 1 <= signal <= 31) by (bit_vector);
        match signal_number(signal as i32) {
            Ok(number) => Ok(SignalOrder { pid: pid as i32, signal: number }),
            Err(text) => Err(
                Error::InvalidArgument("invalid signal: ".to_owned().concat(text.as_str())),
            ),
        }
    }

    /// How a sub-process ended, once it has. Until then the end of this registration is
    /// to be waited for, also where another takes its place.
    pub fn exec_wait(&self, exec_id: &str) -> (res: Result<ExecWait, Error>)
        ensures
            match res {
                Ok(ExecWait::Exited(status)) => self@.execs.contains_key(exec_id@)
                    && self@.execs[exec_id@].exit_code@ == Some(status),
                Ok(ExecWait::Waiting { serial }) => self@.execs.contains_key(exec_id@)
                    && self@.execs[exec_id@].exit_code@ is None && serial
                    == self@.execs[exec_id@].serial,
                Err(e) => !self@.execs.contains_key(exec_id@) && e@ == ErrorView::NotFound(
                    exec_id@,
                ),
            },
    {
        match self.exec_processes.get(exec_id) {
            Some(state) => match state.exit_code.get() {
                Some(status) => Ok(ExecWait::Exited(*status)),
                None => Ok(ExecWait::Waiting { serial: state.serial }),
            },
            None => Err(Error::NotFound(exec_id.to_owned())),
        }
    }

    /// Forgets a sub-process.
    pub fn exec_delete(&mut self, exec_id: &str) -> (res: Result<(), Error>)
        ensures
            final(self)@ == (InstanceView {
                execs: old(self)@.execs.remove(exec_id@),
                ..old(self)@
            }),
            res is Ok,
    {
        let mut execs = self.take_execs();
        execs.remove(exec_id);
        self.exec_processes = execs;
        Ok(())
    }

    /// The pid of a registered sub-process, or `None` if it was not started yet.
    pub fn exec_pid_get(&self, exec_id: &str) -> (res: Result<Option<u32>, Error>)
        ensures
            match res {
                Ok(pid) => self@.execs.contains_key(exec_id@) && pid == self@.execs[exec_id@].pid,
                Err(e) => !self@.execs.contains_key(exec_id@) && e@ == ErrorView::NotFound(
                    exec_id@,
                ),
            },
    {
        match self.exec_processes.get(exec_id) {
            Some(state) => Ok(state.pid),
            None => Err(Error::NotFound(exec_id.to_owned())),
        }
    }
}

/// What an operation may make of a sub-process, other than registering or deleting
/// it: leave it, start it, note its pid, or note its end.
pub open spec fn follows(before: ExecState, after: ExecState) -> bool {
    ||| after == before
    ||| after == ExecState { started: true, ..before }
    ||| before.started && exists|pid: u32| after == #[trigger] spawned(before, pid)
    ||| before.pid is Some && exists|status: ExitStatus| #[trigger]
        has_exited(before, after, status)
}

/// One state of a sub-process after the other.
pub open spec fn is_history(states: Seq<ExecState>) -> bool {
    &&& states.len() > 0
    &&& forall|i: int|
        #![trigger states[i]]
        0 < i < states.len() ==> follows(states[i - 1], states[i])
}

/// Along its history, a sub-process stays started once it is, and its pid and its
/// exit status stay what they are once they are known.
pub proof fn law_facts_stay(states: Seq<ExecState>)
    requires
        is_history(states),
    ensures
        states.first().started ==> states.last().started,
        states.first().pid is Some ==> states.last().pid == states.first().pid,
        states.first().exit_code@ is Some ==> states.last().exit_code@
            == states.first().exit_code@,
        states.last().config == states.first().config,
        states.last().serial == states.first().serial,
    decreases states.len(),
{
    if states.len() > 1 {
        let front = states.drop_last();
        assert(forall|i: int| 0 <= i < front.len() ==> front[i] == states[i]);
        law_facts_stay(front);
        assert(follows(states[states.len() - 2], states[states.len() - 1]));
    }
}

/// A sub-process that a start succeeded for cannot be started again, also where
/// spawning it failed, as long as it is not registered anew or deleted.
pub proof fn law_starts_once(
    before: InstanceView,
    after: InstanceView,
    id: Seq<char>,
    states: Seq<ExecState>,
)
    requires
        start_error(before, id) is None,
        is_history(states),
        states.first() == (ExecState { started: true, ..before.execs[id] }),
        after.execs.contains_key(id),
        after.execs[id] == states.last(),
    ensures
        start_error(after, id) == Some(ErrorView::AlreadyExists(id)),
{
    law_facts_stay(states);
}

/// Where spawning a sub-process failed, it stays registered without a pid, so it is not
/// signalled. It also stays marked as started.
pub proof fn law_failed_spawn_leaves_no_pid(
    before: InstanceView,
    id: Seq<char>,
    error: Error,
    signal: u32,
)
    requires
        before.is_valid(),
        start_error(before, id) is None,
    ensures
        ({
            let serial = before.execs[id].serial;
            let after = before.after_start(id).after_spawn(id, serial, Err(error));
            &&& after.is_registered(id, serial)
            &&& after.execs[id].pid is None
            &&& after.execs[id].exit_code@ is None
            &&& kill_error(after, id, signal) == Some(
                ErrorView::FailedPrecondition("exec not started"@),
            )
            &&& start_error(after, id) == Some(ErrorView::AlreadyExists(id))
        }),
{
}

/// A sub-process that was spawned but cannot be watched keeps its pid and has the exit
/// status that was noted, so it is neither waited for without end nor signalled.
pub proof fn law_unwatched_has_ended(
    before: InstanceView,
    after: InstanceView,
    id: Seq<char>,
    raw: i32,
    status: ExitStatus,
    signal: u32,
)
    requires
        before.is_valid(),
        start_error(before, id) is None,
        is_after_exit(
            before.after_start(id).after_spawn(id, before.execs[id].serial, Ok(raw)),
            after,
            id,
            before.execs[id].serial,
            status,
        ),
    ensures
        after.is_registered(id, before.execs[id].serial),
        after.execs[id].pid == Some(raw as u32),
        after.execs[id].exit_code@ == Some(status),
        kill_error(after, id, signal) == Some(
            ErrorView::NotFound("exec "@ + id + " has already exited"@),
        ),
{
}

/// A sub-process that was not started yet has no pid and no exit status.
pub proof fn law_unstarted_has_no_pid(instance: InstanceView, id: Seq<char>)
    requires
        instance.is_valid(),
        instance.execs.contains_key(id),
        !instance.execs[id].started,
    ensures
        instance.execs[id].pid is None,
        instance.execs[id].exit_code@ is None,
{
}

/// A sub-process that ended is not signalled any more.
pub proof fn law_exited_is_not_signalled(
    before: ExecState,
    after: InstanceView,
    id: Seq<char>,
    status: ExitStatus,
    states: Seq<ExecState>,
    signal: u32,
)
    requires
        is_history(states),
        has_exited(before, states.first(), status),
        after.execs.contains_key(id),
        after.execs[id] == states.last(),
    ensures
        kill_error(after, id, signal) is Some,
{
    law_facts_stay(states);
}

/// A sub-process that runs is signalled by the very pid that spawning it gave.
pub proof fn law_signals_reach_the_spawned(state: ExecState, raw: i32)
    requires
        state.pid is None,
    ensures
        spawned(state, raw as u32).pid->0 as i32 == raw,
{
    assert((raw as u32) as i32 == raw) by (bit_vector);
}

/// What is still to come of an earlier registration does not concern one that took
/// its place.
pub proof fn law_registered_anew_is_left_alone(
    before: InstanceView,
    after: InstanceView,
    id: Seq<char>,
)
    requires
        before.is_valid(),
        before.execs.contains_key(id),
        after.execs.contains_key(id),
        after.execs[id].serial == before.next_serial,
    ensures
        !after.is_registered(id, before.execs[id].serial),
{
}

/// After a delete, each request for the sub-process is answered that it is not found.
pub proof fn law_deleted_is_not_found(before: InstanceView, id: Seq<char>, signal: u32)
    ensures
        ({
            let after = InstanceView { execs: before.execs.remove(id), ..before };
            &&& start_error(after, id) == Some(ErrorView::NotFound(id))
            &&& kill_error(after, id, signal) == Some(ErrorView::NotFound(id))
        }),
{
}

/// Starting is answered by three things alone: a sub-process that is registered and was
/// not started yet can be started, whatever its configuration; one that was started
/// cannot be started again; one that is not registered is not found.
pub proof fn law_registered_can_be_started(instance: InstanceView, id: Seq<char>)
    ensures
        start_error(instance, id) is None <==> instance.execs.contains_key(id)
            && !instance.execs[id].started,
        start_error(instance, id) == Some(ErrorView::AlreadyExists(id))
            <==> instance.execs.contains_key(id) && instance.execs[id].started,
        start_error(instance, id) == Some(ErrorView::NotFound(id))
            <==> !instance.execs.contains_key(id),
{
}

/// A sub-process is signalled exactly if it is registered, has a pid, has not ended, and
/// the number is that of a signal. Of the reasons against it the first in this order is
/// the answer.
pub proof fn law_running_can_be_signalled(instance: InstanceView, id: Seq<char>, signal: u32)
    ensures
        kill_error(instance, id, signal) is None <==> {
            &&& instance.execs.contains_key(id)
            &&& instance.execs[id].pid is Some
            &&& instance.execs[id].exit_code@ is None
            &&& 1 <= signal <= 31
        },
        !instance.execs.contains_key(id) ==> kill_error(instance, id, signal) == Some(
            ErrorView::NotFound(id),
        ),
        instance.execs.contains_key(id) && instance.execs[id].pid is None ==> kill_error(
            instance,
            id,
            signal,
        ) == Some(ErrorView::FailedPrecondition("exec not started"@)),
        instance.execs.contains_key(id) && instance.execs[id].pid is Some
            && instance.execs[id].exit_code@ is Some ==> kill_error(instance, id, signal) == Some(
            ErrorView::NotFound("exec "@ + id + " has already exited"@),
        ),
        instance.execs.contains_key(id) && instance.execs[id].pid is Some
            && instance.execs[id].exit_code@ is None && !(1 <= signal <= 31) ==> kill_error(
            instance,
            id,
            signal,
        ) == Some(ErrorView::InvalidArgument("invalid signal: "@ + "EINVAL: Invalid argument"@)),
{
}

/// Nothing but the sub-process under the id differs between the two instances.
pub open spec fn others_stay(before: InstanceView, after: InstanceView, id: Seq<char>) -> bool {
    &&& after.id == before.id
    &&& after.root_path == before.root_path
    &&& after.is_wasm == before.is_wasm
    &&& after.next_serial == before.next_serial
    &&& forall|k: Seq<char>| #[trigger]
        after.execs.contains_key(k) <==> before.execs.contains_key(k)
    &&& forall|k: Seq<char>|
        k != id && before.execs.contains_key(k) ==> #[trigger] after.execs[k] == before.execs[k]
}

/// Starting a registered sub-process marks it, and changes nothing else.
pub proof fn law_start_marks_only(before: InstanceView, id: Seq<char>)
    requires
        before.execs.contains_key(id),
    ensures
        others_stay(before, before.after_start(id), id),
        ({
            let (old_state, new_state) = (before.execs[id], before.after_start(id).execs[id]);
            &&& new_state.started
            &&& new_state.config == old_state.config
            &&& new_state.pid == old_state.pid
            &&& new_state.exit_code == old_state.exit_code
            &&& new_state.serial == old_state.serial
        }),
{
}

/// Where spawning a registration that was started gave a pid, and it had none, it has
/// that pid from then on; nothing else changes. Where spawning failed, where another
/// registration took its place, or where it was not started, nothing changes at all.
pub proof fn law_spawn_sets_the_pid_only(
    before: InstanceView,
    id: Seq<char>,
    serial: u64,
    raw: i32,
    error: Error,
)
    ensures
        before.after_spawn(id, serial, Err(error)) == before,
        !(before.execs.contains_key(id) && before.execs[id].serial == serial
            && before.execs[id].started) ==> before.after_spawn(id, serial, Ok(raw)) == before,
        before.execs.contains_key(id) && before.execs[id].serial == serial
            && before.execs[id].started ==> {
            let after = before.after_spawn(id, serial, Ok(raw));
            let (old_state, new_state) = (before.execs[id], after.execs[id]);
            &&& others_stay(before, after, id)
            &&& old_state.pid is None ==> new_state.pid == Some(raw as u32)
            &&& old_state.pid is Some ==> new_state.pid == old_state.pid
            &&& new_state.started
            &&& new_state.config == old_state.config
            &&& new_state.exit_code == old_state.exit_code
            &&& new_state.serial == old_state.serial
        },
{
}

/// Where a registration that was spawned ended, it has that status from then on, unless
/// it had one; nothing else changes. For any other registration nothing changes at all.
pub proof fn law_exit_sets_the_status_only(
    before: InstanceView,
    after: InstanceView,
    id: Seq<char>,
    serial: u64,
    status: ExitStatus,
)
    requires
        is_after_exit(before, after, id, serial, status),
    ensures
        !(before.execs.contains_key(id) && before.execs[id].serial == serial
            && before.execs[id].pid is Some) ==> after == before,
        before.execs.contains_key(id) && before.execs[id].serial == serial
            && before.execs[id].pid is Some ==> {
            let (old_state, new_state) = (before.execs[id], after.execs[id]);
            &&& others_stay(before, after, id)
            &&& old_state.exit_code@ is None ==> new_state.exit_code@ == Some(status)
            &&& old_state.exit_code@ is Some ==> new_state.exit_code@ == old_state.exit_code@
            &&& new_state.started == old_state.started
            &&& new_state.config == old_state.config
            &&& new_state.pid == old_state.pid
            &&& new_state.serial == old_state.serial
        },
{
}

} // verus!
