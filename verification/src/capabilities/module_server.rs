//! The life of a module server: how often, and after which pause, it is started
//! again.

use vstd::arithmetic::power2::*;
use vstd::prelude::*;

verus! {

/// How often a server's pause doubles before it stays as it is.
pub const MAX_BACKOFF_DOUBLINGS: u32 = 5;

/// When a module server that ended is started again.
#[derive(Clone, Copy, Debug, PartialEq, Eq)]
pub struct RestartPolicy {
    pub max_restarts: u32,
    pub backoff_initial_ms: u64,
    pub max_backoff_ms: u64,
}

/// Where a module server stands. `restarts` is how often it was started again.
#[derive(Clone, Copy, Debug, PartialEq, Eq, Structural)]
pub enum ServerState {
    /// The host functions of the component are being put together.
    Linking,
    /// The component runs.
    Running { restarts: u32 },
    /// The component ended; it is started again once the pause is over.
    BackingOff { restarts: u32 },
    /// The server is over.
    Stopped,
}

/// What happened to a module server.
#[derive(Clone, Copy, Debug, PartialEq, Eq, Structural)]
pub enum ServerEvent {
    /// The host functions are there.
    Linked,
    /// The host functions could not be put together.
    LinkFailed,
    /// The component ended, with an exit code or with a failure.
    Ended,
    /// The server was cancelled.
    Cancelled,
    /// The pause is over.
    BackoffElapsed,
}

/// Why a server is over.
#[derive(Clone, Copy, Debug, PartialEq, Eq, Structural)]
pub enum StopReason {
    LinkFailed,
    Cancelled,
    RestartsExhausted,
}

/// What is to be done next for a module server.
#[derive(Clone, Copy, Debug, PartialEq, Eq, Structural)]
pub enum ServerAction {
    /// Run the component.
    Run,
    /// Wait this many milliseconds, unless the server is cancelled.
    Sleep(u64),
    /// Nothing more.
    Stop(StopReason),
}

/// How often the pause before the given restart was doubled.
pub open spec fn doublings(restart: int) -> nat {
    if restart - 1 < MAX_BACKOFF_DOUBLINGS {
        (restart - 1) as nat
    } else {
        MAX_BACKOFF_DOUBLINGS as nat
    }
}

impl RestartPolicy {
    /// The pause before the given restart, the first being 1: the initial pause,
    /// doubled with each restart before this one but no more than five times,
    /// without what exceeds 64 bits, and no longer than the longest pause.
    pub open spec fn backoff_spec(self, restart: int) -> int {
        let raised = (self.backoff_initial_ms * pow2(doublings(restart)))
            % 0x1_0000_0000_0000_0000;
        if raised < self.max_backoff_ms {
            raised
        } else {
            self.max_backoff_ms as int
        }
    }

    /// The pause, in milliseconds, before the given restart.
    pub fn backoff_ms(&self, restart: u32) -> (res: u64)
        requires
            restart >= 1,
        ensures
            res == self.backoff_spec(restart as int),
    {
        let before: u32 = restart - 1;
        let shift: u32 = if before < MAX_BACKOFF_DOUBLINGS {
            before
        } else {
            MAX_BACKOFF_DOUBLINGS
        };
        let raised: u64 = self.backoff_initial_ms << shift;
        proof {
            lemma_shl_wraps(self.backoff_initial_ms, shift);
        }
        if raised < self.max_backoff_ms {
            raised
        } else {
            self.max_backoff_ms
        }
    }
}

/// The event can happen in the state.
pub open spec fn event_fits(state: ServerState, event: ServerEvent) -> bool {
    match state {
        ServerState::Linking => event is Linked || event is LinkFailed,
        ServerState::Running { .. } => event is Ended || event is Cancelled,
        ServerState::BackingOff { .. } => event is BackoffElapsed || event is Cancelled,
        ServerState::Stopped => false,
    }
}

/// The state after an event, and what is to be done in it.
pub open spec fn server_step(
    policy: RestartPolicy,
    state: ServerState,
    event: ServerEvent,
) -> (ServerState, ServerAction) {
    match event {
        ServerEvent::Linked => (ServerState::Running { restarts: 0 }, ServerAction::Run),
        ServerEvent::LinkFailed => (
            ServerState::Stopped,
            ServerAction::Stop(StopReason::LinkFailed),
        ),
        ServerEvent::Cancelled => (ServerState::Stopped, ServerAction::Stop(StopReason::Cancelled)),
        ServerEvent::Ended => {
            let restarts = state->Running_restarts;
            if restarts >= policy.max_restarts {
                (ServerState::Stopped, ServerAction::Stop(StopReason::RestartsExhausted))
            } else {
                (
                    ServerState::BackingOff { restarts: (restarts + 1) as u32 },
                    ServerAction::Sleep(policy.backoff_spec(restarts + 1) as u64),
                )
            }
        },
        ServerEvent::BackoffElapsed => (
            ServerState::Running { restarts: state->BackingOff_restarts },
            ServerAction::Run,
        ),
    }
}

/// Decides how a module server goes on after an event.
pub fn run_module_server(policy: &RestartPolicy, state: ServerState, event: ServerEvent) -> (res: (
    ServerState,
    ServerAction,
))
    requires
        event_fits(state, event),
    ensures
        res == server_step(*policy, state, event),
{
    match event {
        ServerEvent::Linked => (ServerState::Running { restarts: 0 }, ServerAction::Run),
        ServerEvent::LinkFailed => (
            ServerState::Stopped,
            ServerAction::Stop(StopReason::LinkFailed),
        ),
        ServerEvent::Cancelled => (ServerState::Stopped, ServerAction::Stop(StopReason::Cancelled)),
        ServerEvent::Ended => match state {
            ServerState::Running { restarts } if restarts < policy.max_restarts => {
                let next: u32 = restarts + 1;
                (ServerState::BackingOff { restarts: next }, ServerAction::Sleep(policy.backoff_ms(next)))
            },
            _ => (ServerState::Stopped, ServerAction::Stop(StopReason::RestartsExhausted)),
        },
        ServerEvent::BackoffElapsed => match state {
            ServerState::BackingOff { restarts } => (
                ServerState::Running { restarts },
                ServerAction::Run,
            ),
            _ => (ServerState::Stopped, ServerAction::Stop(StopReason::Cancelled)),
        },
    }
}

/// The events can happen one after the other, beginning in the state.
pub open spec fn trace_fits(
    policy: RestartPolicy,
    state: ServerState,
    events: Seq<ServerEvent>,
) -> bool
    decreases events.len(),
{
    events.len() > 0 ==> {
        &&& event_fits(state, events.first())
        &&& trace_fits(
            policy,
            server_step(policy, state, events.first()).0,
            events.drop_first(),
        )
    }
}

/// How often the component is run while the events happen.
pub open spec fn runs(policy: RestartPolicy, state: ServerState, events: Seq<ServerEvent>) -> nat
    decreases events.len(),
{
    if events.len() == 0 {
        0
    } else {
        let (next, action) = server_step(policy, state, events.first());
        (if action is Run {
            1nat
        } else {
            0nat
        }) + runs(policy, next, events.drop_first())
    }
}

/// How often the component can still be run.
spec fn runs_left(policy: RestartPolicy, state: ServerState) -> int {
    match state {
        ServerState::Linking => policy.max_restarts + 1,
        ServerState::Running { restarts } => policy.max_restarts - restarts,
        ServerState::BackingOff { restarts } => policy.max_restarts - restarts + 1,
        ServerState::Stopped => 0,
    }
}

/// The restarts that a state counts are ones that the policy allows.
spec fn within_policy(policy: RestartPolicy, state: ServerState) -> bool {
    match state {
        ServerState::Running { restarts } => restarts <= policy.max_restarts,
        ServerState::BackingOff { restarts } => restarts <= policy.max_restarts,
        _ => true,
    }
}

proof fn lemma_runs_left(policy: RestartPolicy, state: ServerState, events: Seq<ServerEvent>)
    requires
        trace_fits(policy, state, events),
        within_policy(policy, state),
    ensures
        runs(policy, state, events) <= runs_left(policy, state),
    decreases events.len(),
{
    if events.len() > 0 {
        let next = server_step(policy, state, events.first()).0;
        lemma_runs_left(policy, next, events.drop_first());
    }
}

/// Whatever happens to a server, its component runs at most once more often than
/// it may be restarted.
pub proof fn law_runs_are_bounded(policy: RestartPolicy, events: Seq<ServerEvent>)
    requires
        trace_fits(policy, ServerState::Linking, events),
    ensures
        runs(policy, ServerState::Linking, events) <= policy.max_restarts + 1,
{
    lemma_runs_left(policy, ServerState::Linking, events);
}

/// The state of a server whose component ended `n` times, each pause being over.
pub open spec fn after_ends(policy: RestartPolicy, n: nat) -> ServerState
    decreases n,
{
    if n == 0 {
        server_step(policy, ServerState::Linking, ServerEvent::Linked).0
    } else {
        let before = after_ends(policy, (n - 1) as nat);
        if event_fits(before, ServerEvent::Ended) {
            let paused = server_step(policy, before, ServerEvent::Ended).0;
            if event_fits(paused, ServerEvent::BackoffElapsed) {
                server_step(policy, paused, ServerEvent::BackoffElapsed).0
            } else {
                paused
            }
        } else {
            before
        }
    }
}

/// A server whose component keeps ending is restarted exactly as often as its
/// policy allows, and is then given up.
pub proof fn law_gives_up_after_max_restarts(policy: RestartPolicy, n: nat)
    ensures
        n <= policy.max_restarts ==> after_ends(policy, n) == (ServerState::Running {
            restarts: n as u32,
        }),
        n > policy.max_restarts ==> after_ends(policy, n) == ServerState::Stopped,
    decreases n,
{
    if n > 0 {
        law_gives_up_after_max_restarts(policy, (n - 1) as nat);
    }
}

/// A cancelled server is over, wherever it stood.
pub proof fn law_cancel_stops(policy: RestartPolicy, state: ServerState)
    requires
        event_fits(state, ServerEvent::Cancelled),
    ensures
        server_step(policy, state, ServerEvent::Cancelled) == (
            ServerState::Stopped,
            ServerAction::Stop(StopReason::Cancelled),
        ),
{
}

/// A pause is never longer than the longest pause, and from the sixth restart on
/// it no longer changes.
pub proof fn law_backoff_is_bounded(policy: RestartPolicy, restart: int)
    requires
        restart >= 1,
    ensures
        0 <= policy.backoff_spec(restart) <= policy.max_backoff_ms,
        restart >= 6 ==> policy.backoff_spec(restart) == policy.backoff_spec(6),
{
}

/// Each of the first five restarts doubles the pause, as long as the longest pause is
/// not reached and the doubled initial pause fits 64 bits.
pub proof fn law_backoff_doubles(policy: RestartPolicy, restart: int)
    requires
        1 <= restart <= 5,
        policy.backoff_initial_ms * pow2(doublings(restart + 1)) <= u64::MAX,
    ensures
        policy.backoff_spec(restart + 1) == if 2 * policy.backoff_spec(restart)
            < policy.max_backoff_ms {
            2 * policy.backoff_spec(restart)
        } else {
            policy.max_backoff_ms as int
        },
{
    let before = doublings(restart);
    let initial = policy.backoff_initial_ms as int;
    lemma_pow2_unfold(before + 1);
    assert(initial * pow2(before + 1) == 2 * (initial * pow2(before))) by (nonlinear_arith)
        requires
            pow2(before + 1) == 2 * pow2(before),
    ;
    assert(0 <= initial * pow2(before)) by (nonlinear_arith)
        requires
            0 <= pow2(before),
            initial >= 0,
    ;
}

/// A later restart is never preceded by a shorter pause, where the doubled initial
/// pause fits 64 bits.
pub proof fn law_backoff_grows(policy: RestartPolicy, earlier: int, later: int)
    requires
        1 <= earlier <= later,
        policy.backoff_initial_ms * pow2(doublings(later)) <= u64::MAX,
    ensures
        policy.backoff_spec(earlier) <= policy.backoff_spec(later),
    decreases later - earlier,
{
    if earlier < later {
        let initial = policy.backoff_initial_ms as int;
        let (few, many) = (doublings(later - 1), doublings(later));
        assert(pow2(few) <= pow2(many)) by {
            if few < many {
                lemma_pow2_strictly_increases(few, many);
            }
        }
        assert(initial * pow2(few) <= initial * pow2(many)) by (nonlinear_arith)
            requires
                pow2(few) <= pow2(many),
                initial >= 0,
        ;
        law_backoff_grows(policy, earlier, later - 1);
        if later - 1 <= 5 {
            law_backoff_doubles(policy, later - 1);
        } else {
            law_backoff_is_bounded(policy, later - 1);
            law_backoff_is_bounded(policy, later);
        }
    }
}

/// Shifting left is multiplying by a power of two, without what exceeds 64 bits.
proof fn lemma_shl_wraps(x: u64, k: u32)
    requires
        k <= 5,
    ensures
        (x << k) == (x * pow2(k as nat)) % 0x1_0000_0000_0000_0000,
{
    lemma2_to64();
    assert(k == 0 ==> (x << k) == (x * 1) % 0x1_0000_0000_0000_0000) by (bit_vector);
    assert(k == 1 ==> (x << k) == (x * 2) % 0x1_0000_0000_0000_0000) by (bit_vector);
    assert(k == 2 ==> (x << k) == (x * 4) % 0x1_0000_0000_0000_0000) by (bit_vector);
    assert(k == 3 ==> (x << k) == (x * 8) % 0x1_0000_0000_0000_0000) by (bit_vector);
    assert(k == 4 ==> (x << k) == (x * 16) % 0x1_0000_0000_0000_0000) by (bit_vector);
    assert(k == 5 ==> (x << k) == (x * 32) % 0x1_0000_0000_0000_0000) by (bit_vector);
}

/// The pause before the first restart is the initial one. Each of the next five restarts
/// doubles the pause, without what exceeds 64 bits; all later ones leave it. And the
/// longest pause cuts off what exceeds it, and does nothing else.
pub proof fn law_backoff_begins_and_doubles(policy: RestartPolicy, restart: int)
    requires
        restart >= 1,
    ensures
        ({
            let uncut = RestartPolicy { max_backoff_ms: u64::MAX, ..policy };
            &&& uncut.backoff_spec(1) == policy.backoff_initial_ms
            &&& restart <= 5 ==> uncut.backoff_spec(restart + 1) == (2 * uncut.backoff_spec(
                restart,
            )) % 0x1_0000_0000_0000_0000
            &&& restart >= 6 ==> uncut.backoff_spec(restart + 1) == uncut.backoff_spec(restart)
            &&& policy.backoff_spec(restart) == if uncut.backoff_spec(restart)
                <= policy.max_backoff_ms {
                uncut.backoff_spec(restart)
            } else {
                policy.max_backoff_ms as int
            }
        }),
{
    let initial = policy.backoff_initial_ms as int;
    let uncut = RestartPolicy { max_backoff_ms: u64::MAX, ..policy };
    lemma2_to64();
    assert(forall|r: int| #[trigger]
        uncut.backoff_spec(r) == (initial * pow2(doublings(r))) % 0x1_0000_0000_0000_0000);
    assert(doublings(1) == 0 && pow2(0) == 1);
    assert(uncut.backoff_spec(1) == initial);
    if restart <= 5 {
        let before = doublings(restart);
        let raised = initial * pow2(before);
        assert(doublings(restart + 1) == before + 1);
        lemma_pow2_unfold(before + 1);
        assert(initial * pow2(before + 1) == 2 * raised) by (nonlinear_arith)
            requires
                pow2(before + 1) == 2 * pow2(before),
                raised == initial * pow2(before),
        ;
        assert((2 * (raised % 0x1_0000_0000_0000_0000)) % 0x1_0000_0000_0000_0000 == (2 * raised)
            % 0x1_0000_0000_0000_0000) by {
            vstd::arithmetic::div_mod::lemma_mul_mod_noop_right(
                2,
                raised,
                0x1_0000_0000_0000_0000,
            );
        }
    }
}

/// A server whose component ends for the time after the `n`-th restart pauses as its
/// policy says for the next restart, and then runs again; once there was the last
/// restart, it is given up.
pub proof fn law_each_end_is_followed_by_its_pause(policy: RestartPolicy, n: nat)
    requires
        n <= policy.max_restarts,
    ensures
        ({
            let (paused, action) = server_step(
                policy,
                after_ends(policy, n),
                ServerEvent::Ended,
            );
            &&& n < policy.max_restarts ==> action == ServerAction::Sleep(
                policy.backoff_spec(n as int + 1) as u64,
            )
            &&& n < policy.max_restarts ==> server_step(
                policy,
                paused,
                ServerEvent::BackoffElapsed,
            ) == (ServerState::Running { restarts: (n + 1) as u32 }, ServerAction::Run)
            &&& n == policy.max_restarts ==> (paused, action) == (
                ServerState::Stopped,
                ServerAction::Stop(StopReason::RestartsExhausted),
            )
        }),
{
    law_gives_up_after_max_restarts(policy, n);
}

/// A server runs its component at once where the host functions are there, and is over
/// where they are not. Only then can the component be run for the first time.
pub proof fn law_servers_begin_with_linking(policy: RestartPolicy, event: ServerEvent)
    ensures
        event_fits(ServerState::Linking, event) <==> event is Linked || event is LinkFailed,
        server_step(policy, ServerState::Linking, ServerEvent::Linked) == (
            ServerState::Running { restarts: 0 },
            ServerAction::Run,
        ),
        server_step(policy, ServerState::Linking, ServerEvent::LinkFailed) == (
            ServerState::Stopped,
            ServerAction::Stop(StopReason::LinkFailed),
        ),
        !event_fits(ServerState::Stopped, event),
{
}

/// A server can be cancelled whenever it runs or pauses.
pub proof fn law_running_and_pausing_can_be_cancelled(restarts: u32)
    ensures
        event_fits(ServerState::Running { restarts }, ServerEvent::Cancelled),
        event_fits(ServerState::BackingOff { restarts }, ServerEvent::Cancelled),
        event_fits(ServerState::Running { restarts }, ServerEvent::Ended),
        event_fits(ServerState::BackingOff { restarts }, ServerEvent::BackoffElapsed),
{
}

} // verus!
