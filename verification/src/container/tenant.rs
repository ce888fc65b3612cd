//! Spawning a sub-process as a tenant of a container.

use std::path::PathBuf;

use vstd::prelude::*;

use crate::error::{Error, ErrorView};
use crate::text::to_chars;

verus! {

/// Arguments for spawning a tenant exec process.
#[derive(Clone, Debug)]
pub struct ExecTenantArgs {
    pub container_id: String,
    pub exec_id: String,
    pub root_path: PathBuf,
    pub spec: Vec<u8>,
    pub stdin: Option<PathBuf>,
    pub stdout: Option<PathBuf>,
    pub stderr: Option<PathBuf>,
}

/// The character may occur in an id.
pub open spec fn is_id_char(c: char) -> bool {
    ||| 'a' <= c <= 'z'
    ||| 'A' <= c <= 'Z'
    ||| '0' <= c <= '9'
    ||| c == '-'
    ||| c == '_'
}

/// The text is an id: not empty, and made of ASCII letters and digits, `-` and `_`
/// only.
pub open spec fn is_valid_id(id: Seq<char>) -> bool {
    id.len() > 0 && forall|i: int| 0 <= i < id.len() ==> is_id_char(#[trigger] id[i])
}

/// The text in quotes, with the escapes that Rust's `Debug` writes.
pub uninterp spec fn debug_text(text: Seq<char>) -> Seq<char>;

/// The `Debug` of `str` in the standard library: the text in quotes, with escapes.
#[verifier::external_body]
fn quote(text: &str) -> (res: String)
    ensures
        res@ == debug_text(text@),
{
    format!("{:?}", text)
}

/// The error for a text that is no id, by the text in quotes.
pub open spec fn refused_id_spec(quoted: Seq<char>) -> ErrorView {
    ErrorView::Any(
        "invalid id "@ + quoted + ": must be non-empty and contain only [a-zA-Z0-9_-]"@,
    )
}

/// The error for a text that is no id.
pub open spec fn invalid_id(id: Seq<char>) -> ErrorView {
    refused_id_spec(debug_text(id))
}

/// The error for a text that is no id, by the text in quotes.
pub fn refused_id(quoted: &str) -> (res: Error)
    ensures
        res@ == refused_id_spec(quoted@),
{
    Error::Any(
        "invalid id ".to_owned().concat(quoted).concat(
            ": must be non-empty and contain only [a-zA-Z0-9_-]",
        ),
    )
}

/// Accepts only alphanumeric characters, `-` and `_`: ids become parts of paths.
pub fn validate_id(id: &str) -> (res: Result<(), Error>)
    ensures
        is_valid_id(id@) ==> res is Ok,
        !is_valid_id(id@) ==> (res matches Err(e) && e@ == invalid_id(id@)),
{
    let chars = to_chars(id);
    let mut valid = chars.len() > 0;
    let mut i: usize = 0;
    while valid && i < chars.len()
        invariant
            i <= chars@.len(),
            chars@ == id@,
            valid ==> id@.len() > 0 && forall|k: int| 0 <= k < i ==> is_id_char(#[trigger] id@[k]),
            !valid ==> !is_valid_id(id@),
        decreases chars@.len() - i,
    {
        let c = chars[i];
        assert(id@[i as int] == c);
        valid = (c >= 'a' && c <= 'z') || (c >= 'A' && c <= 'Z') || (c >= '0' && c <= '9') || c
            == '-' || c == '_';
        i = i + 1;
    }
    if valid {
        Ok(())
    } else {
        Err(refused_id(quote(id).as_str()))
    }
}

/// The file that the process spec is handed over in.
pub struct SpecFile {
    pub dir: PathBuf,
    pub prefix: String,
    pub suffix: String,
    /// The permissions of the file.
    pub mode: u32,
    pub contents: Vec<u8>,
}

/// One of the standard streams of a process.
#[derive(Clone, Copy, Debug, PartialEq, Eq, Structural)]
pub enum Stream {
    Stdin,
    Stdout,
    Stderr,
}

/// Some of the standard streams.
#[derive(Clone, Copy, Debug, PartialEq, Eq, Structural)]
pub struct Streams {
    pub stdin: bool,
    pub stdout: bool,
    pub stderr: bool,
}

/// Which files are opened for a stream, one after the other.
#[derive(Clone, Copy, Debug, PartialEq, Eq, Structural)]
pub struct OpenPlan {
    /// The file is first opened for reading and writing, so that opening a pipe
    /// does not wait for its other end.
    pub unblock: bool,
    pub read: bool,
    pub write: bool,
    /// The file is closed when another program is executed.
    pub close_on_exec: bool,
}

/// How far spawning has come.
#[derive(Clone, Copy, Debug, PartialEq, Eq, Structural)]
pub enum SpawnPhase {
    /// The process spec is written.
    WritingSpec,
    /// The container is looked up under its root path.
    SettingRoot,
    /// A stream is opened.
    Opening(Stream),
    /// The process is built.
    Building,
    /// Spawning is over.
    Returned,
}

/// Where spawning stands: which streams have a path, and which of them were opened.
#[derive(Clone, Copy, Debug, PartialEq, Eq, Structural)]
pub struct SpawnState {
    pub wanted: Streams,
    pub attached: Streams,
    pub phase: SpawnPhase,
}

/// What happened while spawning.
pub enum SpawnEvent {
    SpecWritten(Result<(), Error>),
    RootSet(Result<(), Error>),
    Opened(bool),
    /// The process was built, with this pid.
    Built(Result<i32, Error>),
}

/// What is to be done next.
pub enum SpawnAction {
    SetRoot,
    Open(Stream),
    /// Build the process as a sibling, with these streams.
    Build(Streams),
    /// Answer, after removing the spec file where that is asked for.
    Return { remove_spec: bool, result: Result<i32, Error> },
}

/// The event can happen in the phase.
pub open spec fn spawn_event_fits(phase: SpawnPhase, event: SpawnEvent) -> bool {
    match phase {
        SpawnPhase::WritingSpec => event is SpecWritten,
        SpawnPhase::SettingRoot => event is RootSet,
        SpawnPhase::Opening(_) => event is Opened,
        SpawnPhase::Building => event is Built,
        SpawnPhase::Returned => false,
    }
}

/// The state in which the next stream with a path is opened, of those after
/// `after`, or in which the process is built.
pub open spec fn open_next(state: SpawnState, after: Option<Stream>) -> (SpawnState, SpawnAction) {
    if after is None && state.wanted.stdin {
        (
            SpawnState { phase: SpawnPhase::Opening(Stream::Stdin), ..state },
            SpawnAction::Open(Stream::Stdin),
        )
    } else if (after is None || after == Some(Stream::Stdin)) && state.wanted.stdout {
        (
            SpawnState { phase: SpawnPhase::Opening(Stream::Stdout), ..state },
            SpawnAction::Open(Stream::Stdout),
        )
    } else if after != Some(Stream::Stderr) && state.wanted.stderr {
        (
            SpawnState { phase: SpawnPhase::Opening(Stream::Stderr), ..state },
            SpawnAction::Open(Stream::Stderr),
        )
    } else {
        (SpawnState { phase: SpawnPhase::Building, ..state }, SpawnAction::Build(state.attached))
    }
}

/// The streams with one more of them, if it was opened.
pub open spec fn attach(streams: Streams, stream: Stream, opened: bool) -> Streams {
    match stream {
        Stream::Stdin => Streams { stdin: opened, ..streams },
        Stream::Stdout => Streams { stdout: opened, ..streams },
        Stream::Stderr => Streams { stderr: opened, ..streams },
    }
}

/// Spawning failed before the process was there. The spec file, if it was written,
/// stays.
pub open spec fn spawn_failed(state: SpawnState, error: Error) -> (SpawnState, SpawnAction) {
    (
        SpawnState { phase: SpawnPhase::Returned, ..state },
        SpawnAction::Return { remove_spec: false, result: Err(error) },
    )
}

/// The state after an event, and what is to be done in it.
pub open spec fn spawn_step(state: SpawnState, event: SpawnEvent) -> (SpawnState, SpawnAction) {
    match event {
        SpawnEvent::SpecWritten(Ok(_)) => (
            SpawnState { phase: SpawnPhase::SettingRoot, ..state },
            SpawnAction::SetRoot,
        ),
        SpawnEvent::SpecWritten(Err(error)) => spawn_failed(state, error),
        SpawnEvent::RootSet(Ok(_)) => open_next(state, None),
        SpawnEvent::RootSet(Err(error)) => spawn_failed(state, error),
        SpawnEvent::Opened(opened) => {
            let stream = state.phase->Opening_0;
            open_next(
                SpawnState { attached: attach(state.attached, stream, opened), ..state },
                Some(stream),
            )
        },
        SpawnEvent::Built(Ok(pid)) => (
            SpawnState { phase: SpawnPhase::Returned, ..state },
            SpawnAction::Return { remove_spec: true, result: Ok(pid) },
        ),
        SpawnEvent::Built(Err(error)) => spawn_failed(state, error),
    }
}

/// A tenant that is being spawned: what it is spawned with, and how far it has come.
pub struct TenantSpawn {
    pub container_id: String,
    pub root_path: PathBuf,
    pub spec_file: SpecFile,
    pub stdin: Option<PathBuf>,
    pub stdout: Option<PathBuf>,
    pub stderr: Option<PathBuf>,
    pub state: SpawnState,
}

impl Stream {
    /// Which files are opened for the stream. An output is opened for reading too, so
    /// that opening a pipe does not wait for its other end.
    pub fn open_plan(&self) -> (res: OpenPlan)
        ensures
            *self is Stdin ==> res == (OpenPlan {
                unblock: true,
                read: true,
                write: false,
                close_on_exec: true,
            }),
            !(*self is Stdin) ==> res == (OpenPlan {
                unblock: false,
                read: true,
                write: true,
                close_on_exec: true,
            }),
    {
        match self {
            Stream::Stdin => OpenPlan {
                unblock: true,
                read: true,
                write: false,
                close_on_exec: true,
            },
            _ => OpenPlan { unblock: false, read: true, write: true, close_on_exec: true },
        }
    }
}

impl TenantSpawn {
    /// Decides how spawning goes on after an event.
    pub fn advance(&mut self, event: SpawnEvent) -> (res: SpawnAction)
        requires
            spawn_event_fits(old(self).state.phase, event),
        ensures
            (final(self).state, res) == spawn_step(old(self).state, event),
            *final(self) == (TenantSpawn { state: final(self).state, ..*old(self) }),
    {
        match event {
            SpawnEvent::SpecWritten(Ok(())) => {
                self.state.phase = SpawnPhase::SettingRoot;
                SpawnAction::SetRoot
            },
            SpawnEvent::SpecWritten(Err(error)) => self.fail(error),
            SpawnEvent::RootSet(Ok(())) => self.open_from(None),
            SpawnEvent::RootSet(Err(error)) => self.fail(error),
            SpawnEvent::Opened(opened) => {
                match self.state.phase {
                    SpawnPhase::Opening(stream) => {
                        match stream {
                            Stream::Stdin => {
                                self.state.attached.stdin = opened;
                            },
                            Stream::Stdout => {
                                self.state.attached.stdout = opened;
                            },
                            Stream::Stderr => {
                                self.state.attached.stderr = opened;
                            },
                        }
                        self.open_from(Some(stream))
                    },
                    _ => SpawnAction::SetRoot,
                }
            },
            SpawnEvent::Built(Ok(pid)) => {
                self.state.phase = SpawnPhase::Returned;
                SpawnAction::Return { remove_spec: true, result: Ok(pid) }
            },
            SpawnEvent::Built(Err(error)) => self.fail(error),
        }
    }

    fn fail(&mut self, error: Error) -> (res: SpawnAction)
        ensures
            (final(self).state, res) == spawn_failed(old(self).state, error),
            *final(self) == (TenantSpawn { state: final(self).state, ..*old(self) }),
    {
        self.state.phase = SpawnPhase::Returned;
        SpawnAction::Return { remove_spec: false, result: Err(error) }
    }

    fn open_from(&mut self, after: Option<Stream>) -> (res: SpawnAction)
        ensures
            (final(self).state, res) == open_next(old(self).state, after),
            *final(self) == (TenantSpawn { state: final(self).state, ..*old(self) }),
    {
        let passed: u8 = match after {
            None => 0,
            Some(Stream::Stdin) => 1,
            Some(Stream::Stdout) => 2,
            Some(Stream::Stderr) => 3,
        };
        let stream = if passed < 1 && self.state.wanted.stdin {
            Stream::Stdin
        } else if passed < 2 && self.state.wanted.stdout {
            Stream::Stdout
        } else if passed < 3 && self.state.wanted.stderr {
            Stream::Stderr
        } else {
            self.state.phase = SpawnPhase::Building;
            return SpawnAction::Build(self.state.attached);
        };
        self.state.phase = SpawnPhase::Opening(stream);
        SpawnAction::Open(stream)
    }
}

/// What a container's sub-processes are spawned in: the directory for the runtime's
/// files, where the environment names one, and the one for temporary files.
pub struct Container {
    pub runtime_dir: Option<PathBuf>,
    pub temp_dir: PathBuf,
}

impl Container {
    /// Begins to spawn an exec sub-process inside the container, by writing the spec
    /// file. Nothing is done for ids that are not valid.
    pub fn spawn_exec_tenant(&self, args: ExecTenantArgs) -> (res: Result<TenantSpawn, Error>)
        ensures
            !is_valid_id(args.container_id@) ==> (res matches Err(e) && e@ == invalid_id(
                args.container_id@,
            )),
            is_valid_id(args.container_id@) && !is_valid_id(args.exec_id@) ==> (res matches Err(e)
                && e@ == invalid_id(args.exec_id@)),
            is_valid_id(args.container_id@) && is_valid_id(args.exec_id@) ==> {
                &&& res matches Ok(spawn)
                &&& spawn.container_id == args.container_id
                &&& spawn.root_path == args.root_path
                &&& spawn.stdin == args.stdin
                &&& spawn.stdout == args.stdout
                &&& spawn.stderr == args.stderr
                &&& spawn.spec_file.contents == args.spec
                &&& spawn.spec_file.prefix@ == "runwasi-exec-"@
                &&& spawn.spec_file.suffix@ == ".json"@
                &&& spawn.spec_file.mode == 0o600
                &&& spawn.spec_file.dir == match self.runtime_dir {
                    Some(dir) => dir,
                    None => self.temp_dir,
                }
                &&& spawn.state == SpawnState {
                    wanted: Streams {
                        stdin: args.stdin is Some,
                        stdout: args.stdout is Some,
                        stderr: args.stderr is Some,
                    },
                    attached: Streams { stdin: false, stdout: false, stderr: false },
                    phase: SpawnPhase::WritingSpec,
                }
            },
    {
        match validate_id(args.container_id.as_str()) {
            Ok(()) => {},
            Err(e) => return Err(e),
        }
        match validate_id(args.exec_id.as_str()) {
            Ok(()) => {},
            Err(e) => return Err(e),
        }
        let dir = match &self.runtime_dir {
            Some(dir) => dir.clone(),
            None => self.temp_dir.clone(),
        };
        let wanted = Streams {
            stdin: args.stdin.is_some(),
            stdout: args.stdout.is_some(),
            stderr: args.stderr.is_some(),
        };
        Ok(
            TenantSpawn {
                container_id: args.container_id,
                root_path: args.root_path,
                spec_file: SpecFile {
                    dir,
                    prefix: "runwasi-exec-".to_owned(),
                    suffix: ".json".to_owned(),
                    mode: 0o600,
                    contents: args.spec,
                },
                stdin: args.stdin,
                stdout: args.stdout,
                stderr: args.stderr,
                state: SpawnState {
                    wanted,
                    attached: Streams { stdin: false, stdout: false, stderr: false },
                    phase: SpawnPhase::WritingSpec,
                },
            },
        )
    }
}

/// The stream is one of them.
pub open spec fn among(streams: Streams, stream: Stream) -> bool {
    match stream {
        Stream::Stdin => streams.stdin,
        Stream::Stdout => streams.stdout,
        Stream::Stderr => streams.stderr,
    }
}

/// How many phases spawning can still go through.
pub open spec fn phases_left(phase: SpawnPhase) -> nat {
    match phase {
        SpawnPhase::WritingSpec => 6,
        SpawnPhase::SettingRoot => 5,
        SpawnPhase::Opening(Stream::Stdin) => 4,
        SpawnPhase::Opening(Stream::Stdout) => 3,
        SpawnPhase::Opening(Stream::Stderr) => 2,
        SpawnPhase::Building => 1,
        SpawnPhase::Returned => 0,
    }
}

/// Where spawning can stand: a stream is opened or attached only where it has a path,
/// and none is attached before it was its turn.
pub open spec fn is_spawn_state(state: SpawnState) -> bool {
    &&& forall|stream: Stream| #[trigger]
        among(state.attached, stream) ==> among(state.wanted, stream) && (phases_left(state.phase)
            < phases_left(SpawnPhase::Opening(stream)))
    &&& state.phase matches SpawnPhase::Opening(stream) ==> among(state.wanted, stream)
}

/// A stream without a path is never opened, and none is attached before it was opened:
/// what holds when spawning begins holds after every event.
pub proof fn law_streams_are_opened_on_demand(state: SpawnState, event: SpawnEvent)
    requires
        is_spawn_state(state),
        spawn_event_fits(state.phase, event),
    ensures
        is_spawn_state(spawn_step(state, event).0),
        spawn_step(state, event).0.wanted == state.wanted,
        spawn_step(state, event).1 matches SpawnAction::Open(stream) ==> among(
            state.wanted,
            stream,
        ),
        spawn_step(state, event).1 matches SpawnAction::Build(streams) ==> streams == spawn_step(
            state,
            event,
        ).0.attached,
{
    let next = spawn_step(state, event).0;
    assert forall|stream: Stream| #[trigger] among(next.attached, stream) implies among(
        next.wanted,
        stream,
    ) && (phases_left(next.phase) < phases_left(SpawnPhase::Opening(stream))) by {
        if among(state.attached, stream) {
        }
        match stream {
            Stream::Stdin => {},
            Stream::Stdout => {},
            Stream::Stderr => {},
        }
    }
}

/// Every event brings spawning nearer to its end: no more than six of them come.
pub proof fn law_spawning_ends(state: SpawnState, event: SpawnEvent)
    requires
        spawn_event_fits(state.phase, event),
    ensures
        phases_left(spawn_step(state, event).0.phase) < phases_left(state.phase) <= 6,
        spawn_step(state, event).1 is Return <==> spawn_step(state, event).0.phase is Returned,
{
}

/// The spec file is removed if and only if the process was built; spawning succeeds,
/// with the pid of the process, in no other case.
pub proof fn law_spec_file_is_removed_on_success(state: SpawnState, event: SpawnEvent)
    requires
        spawn_event_fits(state.phase, event),
    ensures
        spawn_step(state, event).1 matches SpawnAction::Return { remove_spec, result } ==> {
            &&& remove_spec <==> result is Ok
            &&& result matches Ok(pid) ==> event == SpawnEvent::Built(Ok(pid))
            &&& result matches Err(error) ==> {
                ||| event == SpawnEvent::SpecWritten(Err(error))
                ||| event == SpawnEvent::RootSet(Err(error))
                ||| event == SpawnEvent::Built(Err(error))
            }
        },
        event matches SpawnEvent::Built(Ok(pid)) ==> spawn_step(state, event).1
            == (SpawnAction::Return { remove_spec: true, result: Ok(pid) }),
{
}

/// A stream that cannot be opened does not keep the process from being built.
pub proof fn law_unopened_streams_are_left_out(state: SpawnState, stream: Stream)
    requires
        state.phase == SpawnPhase::Opening(stream),
    ensures
        !(spawn_step(state, SpawnEvent::Opened(false)).1 is Return),
        !among(spawn_step(state, SpawnEvent::Opened(false)).0.attached, stream),
        among(spawn_step(state, SpawnEvent::Opened(true)).0.attached, stream),
{
}

/// What is to be done after each of the events, one after the other.
pub open spec fn spawn_actions(state: SpawnState, events: Seq<SpawnEvent>) -> Seq<SpawnAction>
    decreases events.len(),
{
    if events.len() == 0 {
        Seq::empty()
    } else {
        let (next, action) = spawn_step(state, events.first());
        seq![action] + spawn_actions(next, events.drop_first())
    }
}

/// The events can happen one after the other, beginning in the state.
pub open spec fn spawn_run_fits(state: SpawnState, events: Seq<SpawnEvent>) -> bool
    decreases events.len(),
{
    events.len() > 0 ==> {
        &&& spawn_event_fits(state.phase, events.first())
        &&& spawn_run_fits(spawn_step(state, events.first()).0, events.drop_first())
    }
}

/// The action at `i` is to open the stream.
pub open spec fn opens_at(actions: Seq<SpawnAction>, i: int, stream: Stream) -> bool {
    0 <= i < actions.len() && actions[i] == SpawnAction::Open(stream)
}

/// What the rest of a run that ends with building the process does with a stream.
proof fn lemma_rest_of_run(state: SpawnState, events: Seq<SpawnEvent>, stream: Stream)
    requires
        events.len() > 0,
        spawn_run_fits(state, events),
        spawn_actions(state, events).last() is Build,
        is_spawn_state(state),
    ensures
        ({
            let actions = spawn_actions(state, events);
            let built = actions.last()->Build_0;
            let turn = phases_left(SpawnPhase::Opening(stream));
            let left = phases_left(state.phase);
            &&& actions.len() == events.len()
            &&& left > turn && among(state.wanted, stream) ==> exists|i: int|
                opens_at(actions, i, stream)
            &&& forall|i: int| #[trigger] opens_at(actions, i, stream) ==> left > turn && among(
                state.wanted,
                stream,
            )
            &&& forall|i: int, j: int| #[trigger]
                opens_at(actions, i, stream) && #[trigger] opens_at(actions, j, stream) ==> i == j
            &&& forall|i: int| #[trigger]
                opens_at(actions, i, stream) ==> i + 1 < events.len() && (among(built, stream)
                    <==> events[i + 1] == SpawnEvent::Opened(true))
            &&& left < turn ==> among(built, stream) == among(state.attached, stream)
            &&& left == turn ==> (among(built, stream) <==> events[0] == SpawnEvent::Opened(true))
            &&& !among(state.wanted, stream) ==> !among(built, stream)
        }),
    decreases events.len(),
{
    reveal_with_fuel(spawn_run_fits, 2);
    let actions = spawn_actions(state, events);
    let (next, action) = spawn_step(state, events.first());
    let rest = events.drop_first();
    let rest_actions = spawn_actions(next, rest);
    law_streams_are_opened_on_demand(state, events.first());
    law_spawning_ends(state, events.first());
    assert(actions =~= seq![action] + rest_actions);
    assert(forall|s: Stream| #[trigger]
        among(next.attached, s) ==> among(next.wanted, s));
    if rest.len() == 0 {
        assert(rest_actions.len() == 0);
        assert(actions.last() == action);
        assert(among(state.attached, stream) ==> among(state.wanted, stream));
        assert(among(next.attached, stream) ==> among(next.wanted, stream));
    } else {
        lemma_run_length(next, rest);
        assert(actions.last() == rest_actions.last());
        lemma_rest_of_run(next, rest, stream);
        assert(events[1] == rest[0]);
        let left = phases_left(state.phase);
        let turn = phases_left(SpawnPhase::Opening(stream));
        assert forall|i: int| #[trigger] opens_at(actions, i, stream) implies (i == 0 && action
            == SpawnAction::Open(stream)) || opens_at(rest_actions, i - 1, stream) by {}
        assert(opens_at(actions, 0, stream) <==> action == SpawnAction::Open(stream));
        assert forall|i: int| #[trigger] opens_at(rest_actions, i, stream) implies opens_at(
            actions,
            i + 1,
            stream,
        ) && rest[i + 1] == events[i + 2] by {}
        assert(action == SpawnAction::Open(stream) ==> phases_left(next.phase) == turn);
        if left > turn && among(state.wanted, stream) {
            if action != SpawnAction::Open(stream) {
                assert(spawn_event_fits(next.phase, rest.first()));
                match stream {
                    Stream::Stdin => {},
                    Stream::Stdout => {},
                    Stream::Stderr => {},
                }
                assert(phases_left(next.phase) > turn);
                let i = choose|i: int| opens_at(rest_actions, i, stream);
                assert(opens_at(actions, i + 1, stream));
            }
        }
    }
}

/// There is one action for each event.
proof fn lemma_run_length(state: SpawnState, events: Seq<SpawnEvent>)
    ensures
        spawn_actions(state, events).len() == events.len(),
    decreases events.len(),
{
    if events.len() > 0 {
        lemma_run_length(spawn_step(state, events.first()).0, events.drop_first());
    }
}

/// Spawning that comes to building the process has written the spec file and found the
/// container before. It has opened each stream that has a path, exactly once, and no
/// other; the process is built with those that could be opened. So where all could be,
/// it has each stream that has a path.
pub proof fn law_each_stream_is_opened_once(
    wanted: Streams,
    events: Seq<SpawnEvent>,
    stream: Stream,
)
    requires
        events.len() > 0,
        spawn_run_fits(
            SpawnState {
                wanted,
                attached: Streams { stdin: false, stdout: false, stderr: false },
                phase: SpawnPhase::WritingSpec,
            },
            events,
        ),
        spawn_actions(
            SpawnState {
                wanted,
                attached: Streams { stdin: false, stdout: false, stderr: false },
                phase: SpawnPhase::WritingSpec,
            },
            events,
        ).last() is Build,
    ensures
        ({
            let actions = spawn_actions(
                SpawnState {
                    wanted,
                    attached: Streams { stdin: false, stdout: false, stderr: false },
                    phase: SpawnPhase::WritingSpec,
                },
                events,
            );
            let built = actions.last()->Build_0;
            &&& events.len() >= 2
            &&& events[0] == SpawnEvent::SpecWritten(Ok(()))
            &&& events[1] == SpawnEvent::RootSet(Ok(()))
            &&& actions[0] == SpawnAction::SetRoot
            &&& match stream {
                Stream::Stdin => wanted.stdin,
                Stream::Stdout => wanted.stdout,
                Stream::Stderr => wanted.stderr,
            } <==> exists|i: int| opens_at(actions, i, stream)
            &&& forall|i: int, j: int| #[trigger]
                opens_at(actions, i, stream) && #[trigger] opens_at(actions, j, stream) ==> i == j
            &&& forall|i: int| #[trigger]
                opens_at(actions, i, stream) ==> i + 1 < events.len() && (match stream {
                    Stream::Stdin => built.stdin,
                    Stream::Stdout => built.stdout,
                    Stream::Stderr => built.stderr,
                } <==> events[i + 1] == SpawnEvent::Opened(true))
            &&& (forall|i: int|
                0 <= i < events.len() && #[trigger] events[i] is Opened ==> events[i]
                    == SpawnEvent::Opened(true)) ==> built == wanted
        }),
{
    let state = SpawnState {
        wanted,
        attached: Streams { stdin: false, stdout: false, stderr: false },
        phase: SpawnPhase::WritingSpec,
    };
    reveal_with_fuel(spawn_run_fits, 3);
    assert(forall|s: Stream| !#[trigger] among(state.attached, s));
    lemma_rest_of_run(state, events, stream);
    let actions = spawn_actions(state, events);
    let (next, action) = spawn_step(state, events.first());
    let rest = events.drop_first();
    assert(actions =~= seq![action] + spawn_actions(next, rest));
    lemma_run_length(next, rest);
    assert(rest.len() > 0) by {
        if rest.len() == 0 {
            assert(actions.last() == action);
        }
    }
    assert(events[1] == rest.first());
    assert(actions.last() == spawn_actions(next, rest).last());
    assert(events[0] == SpawnEvent::SpecWritten(Ok(()))) by {
        assert(spawn_event_fits(next.phase, rest.first()));
        if let SpawnEvent::SpecWritten(Ok(done)) = events[0] {
            assert(done == ());
        }
    }
    assert(events[1] == SpawnEvent::RootSet(Ok(()))) by {
        let (third, second_action) = spawn_step(next, rest.first());
        if let SpawnEvent::RootSet(Ok(done)) = events[1] {
            assert(done == ());
        } else {
            assert(third.phase is Returned);
            assert(spawn_actions(next, rest) =~= seq![second_action] + spawn_actions(
                third,
                rest.drop_first(),
            ));
            assert(rest.drop_first().len() == 0) by {
                if rest.drop_first().len() > 0 {
                    assert(spawn_event_fits(third.phase, rest.drop_first().first()));
                }
            }
        }
    }
    if forall|i: int|
        0 <= i < events.len() && #[trigger] events[i] is Opened ==> events[i]
            == SpawnEvent::Opened(true) {
        let built = actions.last()->Build_0;
        assert forall|s: Stream| #[trigger] among(built, s) == among(wanted, s) by {
            lemma_rest_of_run(state, events, s);
            if among(wanted, s) {
                let i = choose|i: int| opens_at(actions, i, s);
                lemma_opened_follows(state, events, i, s);
                assert(events[i + 1] is Opened);
            }
        }
        assert(among(built, Stream::Stdin) == among(wanted, Stream::Stdin));
        assert(among(built, Stream::Stdout) == among(wanted, Stream::Stdout));
        assert(among(built, Stream::Stderr) == among(wanted, Stream::Stderr));
        assert(built == wanted);
    }
}

/// What follows the opening of a stream is whether it could be opened.
proof fn lemma_opened_follows(
    state: SpawnState,
    events: Seq<SpawnEvent>,
    i: int,
    stream: Stream,
)
    requires
        spawn_run_fits(state, events),
        opens_at(spawn_actions(state, events), i, stream),
        i + 1 < events.len(),
    ensures
        events[i + 1] is Opened,
    decreases events.len(),
{
    reveal_with_fuel(spawn_run_fits, 2);
    let (next, action) = spawn_step(state, events.first());
    let rest = events.drop_first();
    assert(spawn_actions(state, events) =~= seq![action] + spawn_actions(next, rest));
    assert(events[i + 1] == rest[i]);
    if i > 0 {
        lemma_opened_follows(next, rest, i - 1, stream);
    }
}

/// The streams are opened in their order: standard input first, then output, then
/// errors.
pub proof fn law_streams_are_opened_in_order(
    state: SpawnState,
    events: Seq<SpawnEvent>,
    i: int,
    j: int,
    earlier: Stream,
    later: Stream,
)
    requires
        spawn_run_fits(state, events),
        opens_at(spawn_actions(state, events), i, earlier),
        opens_at(spawn_actions(state, events), j, later),
        i < j,
    ensures
        later is Stderr ==> !(earlier is Stderr),
        later is Stdout ==> earlier is Stdin,
        !(later is Stdin),
    decreases events.len(),
{
    let (next, action) = spawn_step(state, events.first());
    let rest = events.drop_first();
    assert(spawn_actions(state, events) =~= seq![action] + spawn_actions(next, rest));
    law_spawning_ends(state, events.first());
    if i > 0 {
        law_streams_are_opened_in_order(next, rest, i - 1, j - 1, earlier, later);
    } else {
        lemma_opens_below(next, rest, j - 1, later);
    }
}

/// A stream is opened only while its turn is to come.
proof fn lemma_opens_below(state: SpawnState, events: Seq<SpawnEvent>, i: int, stream: Stream)
    requires
        spawn_run_fits(state, events),
        opens_at(spawn_actions(state, events), i, stream),
    ensures
        phases_left(SpawnPhase::Opening(stream)) < phases_left(state.phase),
    decreases events.len(),
{
    let (next, action) = spawn_step(state, events.first());
    let rest = events.drop_first();
    assert(spawn_actions(state, events) =~= seq![action] + spawn_actions(next, rest));
    law_spawning_ends(state, events.first());
    if i > 0 {
        lemma_opens_below(next, rest, i - 1, stream);
    }
}

/// A text is an id exactly if it is not empty and each of its characters is one by
/// itself; those that are, by their code points, are the ASCII letters and digits, the
/// hyphen and the underscore.
pub proof fn law_ids_are_checked_character_by_character(id: Seq<char>, c: char)
    ensures
        is_valid_id(id) <==> id.len() > 0 && forall|i: int|
            0 <= i < id.len() ==> is_valid_id(seq![#[trigger] id[i]]),
        is_valid_id(seq![c]) <==> {
            ||| 97 <= c as u32 <= 122
            ||| 65 <= c as u32 <= 90
            ||| 48 <= c as u32 <= 57
            ||| c as u32 == 45
            ||| c as u32 == 95
        },
{
    assert forall|x: char| is_valid_id(seq![x]) == #[trigger] is_id_char(x) by {
        assert(seq![x][0] == x);
    }
    assert(is_valid_id(seq![c]) == is_id_char(c));
    assert forall|i: int| 0 <= i < id.len() implies is_valid_id(seq![#[trigger] id[i]])
        == is_id_char(id[i]) by {}
}

/// A text that is no id is refused with the text in quotes.
pub proof fn law_refused_ids_are_quoted(id: Seq<char>)
    ensures
        invalid_id(id) == ErrorView::Any(
            "invalid id "@ + debug_text(id)
                + ": must be non-empty and contain only [a-zA-Z0-9_-]"@,
        ),
{
}

/// Whatever comes of what was asked for last can be told: each phase but the last takes
/// both the success and the failure of its step.
pub proof fn law_each_step_may_succeed_or_fail(stream: Stream, done: bool, pid: i32, error: Error)
    ensures
        spawn_event_fits(SpawnPhase::WritingSpec, SpawnEvent::SpecWritten(Ok(()))),
        spawn_event_fits(SpawnPhase::WritingSpec, SpawnEvent::SpecWritten(Err(error))),
        spawn_event_fits(SpawnPhase::SettingRoot, SpawnEvent::RootSet(Ok(()))),
        spawn_event_fits(SpawnPhase::SettingRoot, SpawnEvent::RootSet(Err(error))),
        spawn_event_fits(SpawnPhase::Opening(stream), SpawnEvent::Opened(done)),
        spawn_event_fits(SpawnPhase::Building, SpawnEvent::Built(Ok(pid))),
        spawn_event_fits(SpawnPhase::Building, SpawnEvent::Built(Err(error))),
{
}

/// What is asked for is what the phase waits for.
pub proof fn law_phases_wait_for_what_was_asked(state: SpawnState, event: SpawnEvent)
    requires
        spawn_event_fits(state.phase, event),
    ensures
        ({
            let (next, action) = spawn_step(state, event);
            &&& action is SetRoot <==> next.phase is SettingRoot
            &&& action is Build <==> next.phase is Building
            &&& action is Return <==> next.phase is Returned
            &&& action is Open <==> next.phase is Opening
            &&& action is Open ==> action->Open_0 == next.phase->Opening_0
            &&& !(next.phase is WritingSpec)
        }),
{
}

} // verus!
