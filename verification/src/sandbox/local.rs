//! The tasks of a sandbox, and what is answered to requests for them.

use vstd::prelude::*;

use crate::error::{Error, ErrorView};
use crate::instance::{ExecConfig, InstanceConfig};
use crate::sandbox::stub::{InstanceStub, ProcessView, StubView};
use crate::string_map::StringMap;
use crate::sync::{utc_now, ExitStatus, Timestamp};

verus! {

/// How far a process has come.
#[derive(Clone, Copy, Debug, PartialEq, Eq, Structural)]
pub enum Status {
    Created,
    Running,
    Stopped,
}

/// How far a process has come, by its pid and its exit status.
pub open spec fn status(process: ProcessView) -> Status {
    if process.exit is Some {
        Status::Stopped
    } else if process.pid is Some {
        Status::Running
    } else {
        Status::Created
    }
}

/// A container.
struct Task {
    instance: InstanceStub,
    pid: Option<u32>,
}

/// What is known of a container: the pid it was started with, and its instance.
pub struct TaskView {
    pub pid: Option<u32>,
    pub instance: StubView,
}

impl View for Task {
    type V = TaskView;

    closed spec fn view(&self) -> TaskView {
        TaskView { pid: self.pid, instance: self.instance@ }
    }
}

/// The containers of a sandbox, by their ids. A request names a container, and in it
/// a sub-process by its exec id, or else, with an empty exec id, the container itself.
pub struct Local {
    tasks: StringMap<Task>,
}

spec fn task_views(tasks: Map<Seq<char>, Task>) -> Map<Seq<char>, TaskView> {
    tasks.map_values(|task: Task| task@)
}

impl View for Local {
    type V = Map<Seq<char>, TaskView>;

    closed spec fn view(&self) -> Map<Seq<char>, TaskView> {
        task_views(self.tasks@)
    }
}

/// The process that a request names, or why there is none.
pub open spec fn process(
    tasks: Map<Seq<char>, TaskView>,
    id: Seq<char>,
    exec_id: Seq<char>,
) -> Result<ProcessView, ErrorView> {
    if !tasks.contains_key(id) {
        Err(ErrorView::NotFound(id))
    } else if exec_id.len() == 0 {
        Ok(ProcessView { pid: tasks[id].pid, exit: tasks[id].instance.exit })
    } else if !tasks[id].instance.execs.contains_key(exec_id) {
        Err(ErrorView::NotFound(exec_id))
    } else {
        Ok(tasks[id].instance.execs[exec_id])
    }
}

/// The tasks once something else is known of a sub-process.
pub open spec fn with_exec(
    tasks: Map<Seq<char>, TaskView>,
    id: Seq<char>,
    exec_id: Seq<char>,
    process: ProcessView,
) -> Map<Seq<char>, TaskView> {
    tasks.insert(
        id,
        TaskView { instance: tasks[id].instance.with_exec(exec_id, process), ..tasks[id] },
    )
}

/// The tasks once something else is known of the process that a request names.
pub open spec fn with_process(
    tasks: Map<Seq<char>, TaskView>,
    id: Seq<char>,
    exec_id: Seq<char>,
    process: ProcessView,
) -> Map<Seq<char>, TaskView> {
    if exec_id.len() == 0 {
        tasks.insert(
            id,
            TaskView {
                pid: process.pid,
                instance: StubView { exit: process.exit, ..tasks[id].instance },
            },
        )
    } else {
        with_exec(tasks, id, exec_id, process)
    }
}

/// The tasks without the process that a request names.
pub open spec fn without_process(
    tasks: Map<Seq<char>, TaskView>,
    id: Seq<char>,
    exec_id: Seq<char>,
) -> Map<Seq<char>, TaskView> {
    let task = tasks[id];
    if exec_id.len() == 0 {
        tasks.remove(id)
    } else {
        tasks.insert(
            id,
            TaskView {
                instance: StubView {
                    execs: task.instance.execs.remove(exec_id),
                    ..task.instance
                },
                ..task
            },
        )
    }
}

/// The process once it was started.
pub open spec fn started(process: ProcessView, pid: u32) -> ProcessView {
    ProcessView { pid: Some(pid), ..process }
}

/// The process once it was killed.
pub open spec fn killed(process: ProcessView, at: Timestamp) -> ProcessView {
    ProcessView {
        exit: crate::sandbox::stub::first_exit(process.exit, crate::sandbox::stub::killed_at(at)),
        ..process
    }
}

/// Why the process that a request names cannot be killed. A container can be killed
/// before it was started, a sub-process cannot.
pub open spec fn kill_error(
    tasks: Map<Seq<char>, TaskView>,
    id: Seq<char>,
    exec_id: Seq<char>,
) -> Option<ErrorView> {
    match process(tasks, id, exec_id) {
        Err(error) => Some(error),
        Ok(p) => if exec_id.len() > 0 && p.pid is None {
            Some(ErrorView::FailedPrecondition("exec not started"@))
        } else {
            None
        },
    }
}

/// Why the process that a request names cannot be deleted.
pub open spec fn delete_error(
    tasks: Map<Seq<char>, TaskView>,
    id: Seq<char>,
    exec_id: Seq<char>,
) -> Option<ErrorView> {
    match process(tasks, id, exec_id) {
        Err(error) => Some(error),
        Ok(p) => if status(p) is Running {
            Some(ErrorView::FailedPrecondition("process is still running"@))
        } else {
            None
        },
    }
}

impl Local {
    /// A sandbox without containers.
    pub fn new() -> (res: Self)
        ensures
            res@ == Map::<Seq<char>, TaskView>::empty(),
    {
        let local = Local { tasks: StringMap::new() };
        assert(local@ =~= Map::empty());
        local
    }

    /// The ids of the containers, each once.
    pub fn task_ids(&self) -> (res: Vec<String>)
        ensures
            forall|id: Seq<char>| #[trigger]
                self@.contains_key(id) <==> exists|i: int|
                    0 <= i < res@.len() && #[trigger] res@[i]@ == id,
            forall|i: int, j: int|
                0 <= i < j < res@.len() ==> #[trigger] res@[i]@ != #[trigger] res@[j]@,
    {
        let res = self.tasks.keys();
        assert forall|id: Seq<char>| #[trigger]
            self@.contains_key(id) == self.tasks@.contains_key(id) by {}
        res
    }

    /// Takes a task out, for a change that is put back.
    fn take(&mut self, id: &str) -> (res: Result<Task, Error>)
        ensures
            match res {
                Ok(task) => {
                    &&& old(self)@.contains_key(id@)
                    &&& task@ == old(self)@[id@]
                    &&& final(self)@ == old(self)@.remove(id@)
                },
                Err(e) => {
                    &&& !old(self)@.contains_key(id@)
                    &&& e@ == ErrorView::NotFound(id@)
                    &&& final(self)@ == old(self)@
                },
            },
    {
        let res = self.tasks.remove(id);
        assert(self@ =~= old(self)@.remove(id@));
        match res {
            Some(task) => Ok(task),
            None => {
                assert(self@ =~= old(self)@);
                Err(Error::NotFound(id.to_owned()))
            },
        }
    }

    /// Puts a task in.
    fn put(&mut self, id: String, task: Task)
        ensures
            final(self)@ == old(self)@.insert(id@, task@),
    {
        self.tasks.insert(id, task);
        assert(self@ =~= old(self)@.insert(id@, task@));
    }

    /// Creates a container, which is not started. There can be only one with its id.
    pub fn task_create(&mut self, id: String, cfg: &InstanceConfig) -> (res: Result<(), Error>)
        ensures
            old(self)@.contains_key(id@) ==> (res matches Err(e) && e@ == ErrorView::AlreadyExists(
                id@,
            )) && final(self)@ == old(self)@,
            !old(self)@.contains_key(id@) ==> res is Ok && final(self)@ == old(self)@.insert(
                id@,
                (TaskView { pid: None, instance: StubView { exit: None, execs: Map::empty() } }),
            ),
    {
        if self.tasks.contains_key(id.as_str()) {
            return Err(Error::AlreadyExists(id));
        }
        match InstanceStub::new(id.clone(), cfg) {
            Ok(instance) => {
                self.put(id, Task { instance, pid: None });
                Ok(())
            },
            Err(e) => Err(e),
        }
    }

    /// Registers a sub-process in a container, in place of one with the same exec id.
    pub fn task_exec(&mut self, id: &str, exec_id: String, cfg: ExecConfig) -> (res: Result<
        (),
        Error,
    >)
        ensures
            old(self)@.contains_key(id@) ==> res is Ok && final(self)@ == with_exec(
                old(self)@,
                id@,
                exec_id@,
                (ProcessView { pid: None, exit: None }),
            ),
            !old(self)@.contains_key(id@) ==> (res matches Err(e) && e@ == ErrorView::NotFound(id@))
                && final(self)@ == old(self)@,
    {
        match self.take(id) {
            Ok(task) => {
                let mut task = task;
                let res = task.instance.register_exec(exec_id, cfg);
                self.put(id.to_owned(), task);
                assert(self@ =~= with_exec(
                    old(self)@,
                    id@,
                    exec_id@,
                    ProcessView { pid: None, exit: None },
                ));
                res
            },
            Err(e) => Err(e),
        }
    }

    /// How far the process has come that the request names.
    pub fn task_state(&self, id: &str, exec_id: &str) -> (res: Result<Status, Error>)
        ensures
            match process(self@, id@, exec_id@) {
                Ok(p) => res matches Ok(s) && s == status(p),
                Err(error) => res matches Err(e) && e@ == error,
            },
    {
        let task = match self.tasks.get(id) {
            Some(task) => task,
            None => return Err(Error::NotFound(id.to_owned())),
        };
        let (pid, exit) = if exec_id.unicode_len() == 0 {
            (task.pid, task.instance.wait())
        } else {
            match (task.instance.exec_pid(exec_id), task.instance.wait_exec(exec_id)) {
                (Ok(pid), Ok(exit)) => (pid, exit),
                (Err(e), _) => return Err(e),
                (_, Err(e)) => return Err(e),
            }
        };
        if exit.is_some() {
            Ok(Status::Stopped)
        } else if pid.is_some() {
            Ok(Status::Running)
        } else {
            Ok(Status::Created)
        }
    }

    /// Starts the process that the request names.
    pub fn task_start(&mut self, id: &str, exec_id: &str, host_pid: u32) -> (res: Result<
        u32,
        Error,
    >)
        ensures
            match process(old(self)@, id@, exec_id@) {
                Ok(p) => (res matches Ok(pid) && pid == host_pid) && final(self)@ == with_process(
                    old(self)@,
                    id@,
                    exec_id@,
                    started(p, host_pid),
                ),
                Err(error) => (res matches Err(e) && e@ == error) && final(self)@ == old(self)@,
            },
    {
        match self.take(id) {
            Ok(task) => {
                let mut task = task;
                let res = if exec_id.unicode_len() == 0 {
                    match task.instance.start(host_pid) {
                        Ok(pid) => {
                            task.pid = Some(pid);
                            Ok(pid)
                        },
                        Err(e) => Err(e),
                    }
                } else {
                    task.instance.start_exec(exec_id, host_pid)
                };
                self.put(id.to_owned(), task);
                proof {
                    match process(old(self)@, id@, exec_id@) {
                        Ok(p) => assert(self@ =~= with_process(
                            old(self)@,
                            id@,
                            exec_id@,
                            started(p, host_pid),
                        )),
                        Err(_) => assert(self@ =~= old(self)@),
                    }
                }
                res
            },
            Err(e) => Err(e),
        }
    }

    /// Kills the process that the request names, at a given moment.
    pub fn task_kill_at(&mut self, id: &str, exec_id: &str, signal: u32, at: Timestamp) -> (res:
        Result<(), Error>)
        ensures
            match kill_error(old(self)@, id@, exec_id@) {
                Some(error) => (res matches Err(e) && e@ == error) && final(self)@ == old(self)@,
                None => res is Ok && final(self)@ == with_process(
                    old(self)@,
                    id@,
                    exec_id@,
                    killed(process(old(self)@, id@, exec_id@)->Ok_0, at),
                ),
            },
    {
        match self.take(id) {
            Ok(task) => {
                let mut task = task;
                let res = if exec_id.unicode_len() == 0 {
                    task.instance.kill_at(signal, at)
                } else {
                    task.instance.kill_exec_at(exec_id, signal, at)
                };
                self.put(id.to_owned(), task);
                proof {
                    match kill_error(old(self)@, id@, exec_id@) {
                        Some(_) => assert(self@ =~= old(self)@),
                        None => assert(self@ =~= with_process(
                            old(self)@,
                            id@,
                            exec_id@,
                            killed(process(old(self)@, id@, exec_id@)->Ok_0, at),
                        )),
                    }
                }
                res
            },
            Err(e) => Err(e),
        }
    }

    /// Kills the process that the request names, now.
    pub fn task_kill(&mut self, id: &str, exec_id: &str, signal: u32) -> (res: Result<(), Error>)
        ensures
            match kill_error(old(self)@, id@, exec_id@) {
                Some(error) => (res matches Err(e) && e@ == error) && final(self)@ == old(self)@,
                None => res is Ok && exists|at: Timestamp|
                    crate::sync::is_clock_time(at) && final(self)@ == with_process(
                        old(self)@,
                        id@,
                        exec_id@,
                        #[trigger] killed(process(old(self)@, id@, exec_id@)->Ok_0, at),
                    ),
            },
    {
        self.task_kill_at(id, exec_id, signal, utc_now())
    }

    /// How the process ended that the request names, once it has. Until then it is to
    /// be waited for.
    pub fn task_wait(&self, id: &str, exec_id: &str) -> (res: Result<Option<ExitStatus>, Error>)
        ensures
            match process(self@, id@, exec_id@) {
                Ok(p) => res matches Ok(exit) && exit == p.exit,
                Err(error) => res matches Err(e) && e@ == error,
            },
    {
        match self.tasks.get(id) {
            Some(task) => if exec_id.unicode_len() == 0 {
                Ok(task.instance.wait())
            } else {
                task.instance.wait_exec(exec_id)
            },
            None => Err(Error::NotFound(id.to_owned())),
        }
    }

    /// Forgets the process that the request names, unless it is running.
    pub fn task_delete(&mut self, id: &str, exec_id: &str) -> (res: Result<(), Error>)
        ensures
            match delete_error(old(self)@, id@, exec_id@) {
                Some(error) => (res matches Err(e) && e@ == error) && final(self)@ == old(self)@,
                None => res is Ok && final(self)@ == without_process(old(self)@, id@, exec_id@),
            },
    {
        match self.task_state(id, exec_id) {
            Ok(Status::Running) => {
                return Err(Error::FailedPrecondition("process is still running".to_owned()));
            },
            Ok(_) => {},
            Err(e) => return Err(e),
        }
        match self.take(id) {
            Ok(task) => {
                let mut task = task;
                let res = if exec_id.unicode_len() == 0 {
                    task.instance.delete()
                } else {
                    let res = task.instance.delete_exec(exec_id);
                    self.put(id.to_owned(), task);
                    res
                };
                assert(self@ =~= without_process(old(self)@, id@, exec_id@));
                res
            },
            Err(e) => Err(e),
        }
    }
}

/// A process is created, then running once it was started, then stopped once it was
/// killed, and stays stopped whatever follows.
pub proof fn law_status_moves_on(process: ProcessView, pid: u32, at: Timestamp)
    ensures
        status(ProcessView { pid: None, exit: None }) is Created,
        status(process) is Created ==> status(started(process, pid)) is Running,
        status(killed(process, at)) is Stopped,
        status(process) is Stopped ==> status(started(process, pid)) is Stopped && killed(
            process,
            at,
        ) == process,
{
}

/// What a request names is found as the last request left it, and no request changes
/// what others name.
pub proof fn law_requests_change_what_they_name(
    tasks: Map<Seq<char>, TaskView>,
    id: Seq<char>,
    exec_id: Seq<char>,
    new: ProcessView,
    other_id: Seq<char>,
    other_exec_id: Seq<char>,
)
    requires
        tasks.contains_key(id),
    ensures
        process(with_process(tasks, id, exec_id, new), id, exec_id) == Ok::<
            ProcessView,
            ErrorView,
        >(new),
        other_id != id || other_exec_id != exec_id ==> process(
            with_process(tasks, id, exec_id, new),
            other_id,
            other_exec_id,
        ) == process(tasks, other_id, other_exec_id),
{
    if other_exec_id.len() == 0 && exec_id.len() == 0 {
        assert(other_exec_id =~= exec_id);
    }
}

/// A process that was deleted is not found any more. Deleting a sub-process leaves
/// all that others name as it is; deleting a container leaves the other containers.
pub proof fn law_deleted_is_not_found(
    tasks: Map<Seq<char>, TaskView>,
    id: Seq<char>,
    exec_id: Seq<char>,
    other_id: Seq<char>,
    other_exec_id: Seq<char>,
)
    requires
        tasks.contains_key(id),
    ensures
        process(without_process(tasks, id, exec_id), id, exec_id) is Err,
        process(without_process(tasks, id, exec_id), id, exec_id)->Err_0 is NotFound,
        other_id != id || (exec_id.len() > 0 && other_exec_id != exec_id) ==> process(
            without_process(tasks, id, exec_id),
            other_id,
            other_exec_id,
        ) == process(tasks, other_id, other_exec_id),
{
}

/// A running process is not deleted. One that was not started yet, or that has
/// stopped, is.
pub proof fn law_only_running_is_kept(
    tasks: Map<Seq<char>, TaskView>,
    id: Seq<char>,
    exec_id: Seq<char>,
)
    requires
        process(tasks, id, exec_id) is Ok,
    ensures
        status(process(tasks, id, exec_id)->Ok_0) is Running <==> delete_error(tasks, id, exec_id)
            is Some,
        delete_error(tasks, id, exec_id) is Some ==> delete_error(tasks, id, exec_id)->Some_0
            is FailedPrecondition,
{
}

/// A process is stopped exactly if it has ended, running exactly if it has a pid and has
/// not ended, and created exactly if it has neither.
pub proof fn law_status_is_by_pid_and_exit(process: ProcessView)
    ensures
        status(process) is Stopped <==> process.exit is Some,
        status(process) is Running <==> process.exit is None && process.pid is Some,
        status(process) is Created <==> process.exit is None && process.pid is None,
{
}

/// A request names a container by its id alone, and a sub-process by its exec id in the
/// container. What is not there is not found, the container first.
pub proof fn law_requests_name_what_is_there(
    tasks: Map<Seq<char>, TaskView>,
    id: Seq<char>,
    exec_id: Seq<char>,
)
    ensures
        !tasks.contains_key(id) ==> process(tasks, id, exec_id) == Err::<ProcessView, ErrorView>(
            ErrorView::NotFound(id),
        ),
        tasks.contains_key(id) && exec_id.len() == 0 ==> {
            &&& process(tasks, id, exec_id) is Ok
            &&& process(tasks, id, exec_id)->Ok_0.pid == tasks[id].pid
            &&& process(tasks, id, exec_id)->Ok_0.exit == tasks[id].instance.exit
        },
        tasks.contains_key(id) && exec_id.len() > 0
            && !tasks[id].instance.execs.contains_key(exec_id) ==> process(tasks, id, exec_id)
            == Err::<ProcessView, ErrorView>(ErrorView::NotFound(exec_id)),
        tasks.contains_key(id) && exec_id.len() > 0
            && tasks[id].instance.execs.contains_key(exec_id) ==> process(tasks, id, exec_id)
            == Ok::<ProcessView, ErrorView>(tasks[id].instance.execs[exec_id]),
{
}

/// Starting a process gives it the pid, and leaves its exit status; killing it notes its
/// end, with the code 1, unless it has ended, and leaves its pid.
pub proof fn law_start_and_kill_change_one_thing(process: ProcessView, pid: u32, at: Timestamp)
    ensures
        started(process, pid).pid == Some(pid),
        started(process, pid).exit == process.exit,
        killed(process, at).pid == process.pid,
        process.exit is None ==> killed(process, at).exit == Some(ExitStatus { code: 1, at }),
        process.exit is Some ==> killed(process, at).exit == process.exit,
{
}

/// A container that is there can be killed; a sub-process that is there can be killed
/// exactly if it was started. What is not there is not found.
pub proof fn law_started_can_be_killed(
    tasks: Map<Seq<char>, TaskView>,
    id: Seq<char>,
    exec_id: Seq<char>,
)
    ensures
        kill_error(tasks, id, exec_id) is None <==> tasks.contains_key(id) && (exec_id.len() == 0
            || (tasks[id].instance.execs.contains_key(exec_id)
            && tasks[id].instance.execs[exec_id].pid is Some)),
        process(tasks, id, exec_id) matches Err(error) ==> kill_error(tasks, id, exec_id) == Some(
            error,
        ) && delete_error(tasks, id, exec_id) == Some(error),
        process(tasks, id, exec_id) is Ok && kill_error(tasks, id, exec_id) is Some ==> kill_error(
            tasks,
            id,
            exec_id,
        ) == Some(ErrorView::FailedPrecondition("exec not started"@)),
{
}

/// A sub-process that was registered is found as such, and no other process changes.
pub proof fn law_registered_is_found(
    tasks: Map<Seq<char>, TaskView>,
    id: Seq<char>,
    exec_id: Seq<char>,
    new: ProcessView,
    other_id: Seq<char>,
    other_exec_id: Seq<char>,
)
    requires
        tasks.contains_key(id),
        exec_id.len() > 0,
    ensures
        process(with_exec(tasks, id, exec_id, new), id, exec_id) == Ok::<ProcessView, ErrorView>(
            new,
        ),
        other_id != id || other_exec_id != exec_id ==> process(
            with_exec(tasks, id, exec_id, new),
            other_id,
            other_exec_id,
        ) == process(tasks, other_id, other_exec_id),
{
}

} // verus!
