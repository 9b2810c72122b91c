//! Ending a hub.

use vstd::prelude::*;
use vstd::string::*;
use vstd::utf8::encode_utf8;

use crate::connection_table::connections;
use crate::consumers::ConsumerRegistry;
use crate::providers::ProviderRegistry;

verus! {

/// The polling interval to check if all connections are drained during a graceful
/// shutdown, in milliseconds.
pub const GRACEFUL_SHUTDOWN_POLL_INTERVAL_MS: u64 = 500;

/// The maximum time to wait for connections to drain during a graceful shutdown,
/// in nanoseconds.
pub const GRACEFUL_SHUTDOWN_DRAIN_TIMEOUT_NS: u64 = 30_000_000_000;

/// How a hub is shut down.
#[derive(Clone, Copy, PartialEq, Eq, Structural, Debug)]
pub enum ShutdownMode {
    /// Tell the peers, then wait for their connections to drain.
    Graceful,
    /// Close at once.
    Immediate,
}

/// A signal to the process.
#[derive(Clone, Copy, PartialEq, Eq, Structural, Debug)]
pub enum Signal {
    /// Ctrl-C.
    Interrupt,
    Terminate,
    UserDefined1,
}

/// What a signal asks for.
#[derive(Clone, Copy, PartialEq, Eq, Structural, Debug)]
pub enum SignalAction {
    Shutdown(ShutdownMode),
    /// Load the configuration again.
    Reload,
}

/// What `signal` asks for.
pub fn on_signal(signal: Signal) -> (r: SignalAction)
    ensures
        r == (match signal {
            Signal::Interrupt => SignalAction::Shutdown(ShutdownMode::Immediate),
            Signal::Terminate => SignalAction::Shutdown(ShutdownMode::Graceful),
            Signal::UserDefined1 => SignalAction::Reload,
        }),
{
    match signal {
        Signal::Interrupt => SignalAction::Shutdown(ShutdownMode::Immediate),
        Signal::Terminate => SignalAction::Shutdown(ShutdownMode::Graceful),
        Signal::UserDefined1 => SignalAction::Reload,
    }
}

/// The mode of a shutdown. A hub that nobody can send a mode to any more shuts
/// down at once.
fn shutdown_mode(requested: Option<ShutdownMode>) -> (r: ShutdownMode)
    ensures
        r == (match requested {
            Some(mode) => mode,
            None => ShutdownMode::Immediate,
        }),
{
    match requested {
        Some(mode) => mode,
        None => ShutdownMode::Immediate,
    }
}

/// Where the wait for connections to drain stands.
#[derive(Clone, Copy, PartialEq, Eq, Structural, Debug)]
pub enum DrainStep {
    /// The time is up: close the connections that are left.
    TimedOut,
    /// No connection is left.
    Drained,
    /// Look again after [`GRACEFUL_SHUTDOWN_POLL_INTERVAL_MS`].
    Wait,
}

/// Looks at the connections `elapsed` nanoseconds into a graceful shutdown.
pub fn drain_step<P, C>(
    elapsed: u64,
    providers: &ProviderRegistry<P>,
    consumers: &ConsumerRegistry<C>,
) -> (r: DrainStep)
    requires
        providers.wf(),
        consumers.wf(),
    ensures
        r == (if elapsed >= GRACEFUL_SHUTDOWN_DRAIN_TIMEOUT_NS {
            DrainStep::TimedOut
        } else if connections(providers@).len() == 0 && connections(consumers@).len() == 0 {
            DrainStep::Drained
        } else {
            DrainStep::Wait
        }),
{
    if elapsed >= GRACEFUL_SHUTDOWN_DRAIN_TIMEOUT_NS {
        DrainStep::TimedOut
    } else if providers.count() == 0 && consumers.count() == 0 {
        DrainStep::Drained
    } else {
        DrainStep::Wait
    }
}

/// What the shutdown of a hub does next.
pub enum ShutdownStage {
    /// Tell every provider and every consumer.
    Announce,
    /// Look whether the connections have drained.
    Drain,
    /// Close the endpoint with this code and reason, and wait until it is idle.
    Close { code: u32, reason: Vec<u8> },
    /// Nothing is left to do.
    Done,
}

/// What the shutdown of a hub has done.
pub enum ShutdownEvent {
    Announced,
    /// What a look at the connections came to.
    Looked(DrainStep),
    Closed,
}

/// Whether `stage` closes the endpoint as a shutdown does: with the code for "going
/// away".
pub open spec fn closes_the_hub(stage: ShutdownStage) -> bool {
    match stage {
        ShutdownStage::Close { code, reason } => code == 0 && reason@ == encode_utf8(
            "server shutting down"@,
        ),
        _ => false,
    }
}

/// Whether a shutdown that was requested like this begins with `stage`.
pub open spec fn shutdown_begins(requested: Option<ShutdownMode>, stage: ShutdownStage) -> bool {
    if requested == Some(ShutdownMode::Graceful) {
        stage == ShutdownStage::Announce
    } else {
        closes_the_hub(stage)
    }
}

/// Whether `event` is the end of what `stage` asks for.
pub open spec fn shutdown_answers(stage: ShutdownStage, event: ShutdownEvent) -> bool {
    match stage {
        ShutdownStage::Announce => event is Announced,
        ShutdownStage::Drain => event is Looked,
        ShutdownStage::Close { .. } => event is Closed,
        ShutdownStage::Done => false,
    }
}

/// Whether `event` takes a shutdown to `next`.
pub open spec fn shutdown_step(event: ShutdownEvent, next: ShutdownStage) -> bool {
    match event {
        ShutdownEvent::Announced => next == ShutdownStage::Drain,
        ShutdownEvent::Looked(DrainStep::Wait) => next == ShutdownStage::Drain,
        ShutdownEvent::Looked(_) => closes_the_hub(next),
        ShutdownEvent::Closed => next == ShutdownStage::Done,
    }
}

fn close_the_hub() -> (r: ShutdownStage)
    ensures
        closes_the_hub(r),
{
    ShutdownStage::Close { code: 0, reason: "server shutting down".as_bytes_vec() }
}

impl ShutdownStage {
    /// Where a shutdown begins. A graceful one tells the peers first; an immediate
    /// one, or one that nobody can send a mode for any more, closes at once.
    pub fn begin(requested: Option<ShutdownMode>) -> (r: ShutdownStage)
        ensures
            shutdown_begins(requested, r),
    {
        match shutdown_mode(requested) {
            ShutdownMode::Graceful => ShutdownStage::Announce,
            ShutdownMode::Immediate => close_the_hub(),
        }
    }

    /// Goes on after `event`.
    pub fn advance(self, event: ShutdownEvent) -> (r: ShutdownStage)
        requires
            shutdown_answers(self, event),
        ensures
            shutdown_step(event, r),
    {
        match event {
            ShutdownEvent::Announced => ShutdownStage::Drain,
            ShutdownEvent::Looked(DrainStep::Wait) => ShutdownStage::Drain,
            ShutdownEvent::Looked(_) => close_the_hub(),
            ShutdownEvent::Closed => ShutdownStage::Done,
        }
    }
}

/// A shutdown that is not graceful tells nobody and waits for nothing: it closes
/// the endpoint and is done. One that nobody can send a mode for is no different.
pub proof fn law_immediate_shutdown_only_closes(
    requested: Option<ShutdownMode>,
    first: ShutdownStage,
    event: ShutdownEvent,
    second: ShutdownStage,
)
    requires
        requested != Some(ShutdownMode::Graceful),
        shutdown_begins(requested, first),
        shutdown_answers(first, event),
        shutdown_step(event, second),
    ensures
        closes_the_hub(first),
        second == ShutdownStage::Done,
{
}

/// A graceful shutdown tells the peers, then looks at the connections.
pub proof fn law_graceful_shutdown_announces_first(
    first: ShutdownStage,
    event: ShutdownEvent,
    second: ShutdownStage,
)
    requires
        shutdown_begins(Some(ShutdownMode::Graceful), first),
        shutdown_answers(first, event),
        shutdown_step(event, second),
    ensures
        first == ShutdownStage::Announce,
        second == ShutdownStage::Drain,
{
}

/// The events of a shutdown that began with `first` and went through `stages`.
pub open spec fn shutdown_run(
    first: ShutdownStage,
    events: Seq<ShutdownEvent>,
    stages: Seq<ShutdownStage>,
) -> bool {
    &&& stages.len() == events.len() + 1
    &&& stages[0] == first
    &&& forall|k: int|
        0 <= k < events.len() ==> shutdown_answers(stages[k], #[trigger] events[k])
            && shutdown_step(events[k], stages[k + 1])
}

proof fn lemma_close_comes_last(
    first: ShutdownStage,
    events: Seq<ShutdownEvent>,
    stages: Seq<ShutdownStage>,
    k: int,
)
    requires
        shutdown_run(first, events, stages),
        0 <= k < events.len(),
        stages[k] is Close,
    ensures
        k == events.len() - 1,
        stages[k + 1] is Done,
{
    assert(shutdown_answers(stages[k], events[k]));
    if k + 1 < events.len() {
        assert(shutdown_answers(stages[k + 1], events[k + 1]));
    }
}

/// However a shutdown goes, the endpoint is closed at most once, and a shutdown that
/// is done has closed it, as its last act.
pub proof fn law_shutdown_closes_once(
    requested: Option<ShutdownMode>,
    events: Seq<ShutdownEvent>,
    stages: Seq<ShutdownStage>,
)
    requires
        stages.len() > 0,
        shutdown_begins(requested, stages[0]),
        shutdown_run(stages[0], events, stages),
    ensures
        forall|i: int, j: int|
            0 <= i < stages.len() && 0 <= j < stages.len() && (#[trigger] stages[i]) is Close && (
            #[trigger] stages[j]) is Close ==> i == j,
        stages.last() is Done ==> stages.len() >= 2 && closes_the_hub(stages[stages.len() - 2]),
{
    assert forall|i: int, j: int|
        0 <= i < stages.len() && 0 <= j < stages.len() && (#[trigger] stages[i]) is Close && (
        #[trigger] stages[j]) is Close implies i == j by {
        if i < events.len() {
            lemma_close_comes_last(stages[0], events, stages, i);
        }
        if j < events.len() {
            lemma_close_comes_last(stages[0], events, stages, j);
        }
    }
    if stages.last() is Done {
        let n = events.len() as int;
        assert(n > 0);
        assert(shutdown_answers(stages[n - 1], events[n - 1]));
        assert(shutdown_step(events[n - 1], stages[n]));
        assert(stages[n - 1] is Close);
        if n > 1 {
            assert(shutdown_step(events[n - 2], stages[n - 1]));
        }
    }
}

/// A shutdown announces itself exactly where it was asked to be graceful. Every other
/// one begins by closing the endpoint, with code 0 and the reason for it.
pub proof fn law_only_a_graceful_shutdown_announces(
    requested: Option<ShutdownMode>,
    stage: ShutdownStage,
)
    requires
        shutdown_begins(requested, stage),
    ensures
        stage == ShutdownStage::Announce <==> requested == Some(ShutdownMode::Graceful),
        requested != Some(ShutdownMode::Graceful) ==> (stage matches ShutdownStage::Close {
            code,
            reason,
        } && code == 0 && reason@ == encode_utf8("server shutting down"@)),
{
}

/// What was announced is followed by a look at the connections. A look that wants to
/// wait is followed by another; any other one by the close, with code 0 and the reason
/// for it; and that by the end.
pub proof fn law_shutdown_takes_its_course(event: ShutdownEvent, next: ShutdownStage)
    requires
        shutdown_step(event, next),
    ensures
        event is Announced ==> next == ShutdownStage::Drain,
        event == ShutdownEvent::Looked(DrainStep::Wait) ==> next == ShutdownStage::Drain,
        event == ShutdownEvent::Looked(DrainStep::Drained) || event == ShutdownEvent::Looked(
            DrainStep::TimedOut,
        ) ==> (next matches ShutdownStage::Close { code, reason } && code == 0 && reason@
            == encode_utf8("server shutting down"@)),
        event is Closed ==> next == ShutdownStage::Done,
{
}

/// Each stage waits for its own outcome, and the end for nothing.
pub proof fn law_shutdown_stages_wait_for_their_outcome(
    stage: ShutdownStage,
    event: ShutdownEvent,
)
    ensures
        stage == ShutdownStage::Announce ==> shutdown_answers(stage, event) == (event is Announced),
        stage == ShutdownStage::Drain ==> shutdown_answers(stage, event) == (event is Looked),
        stage is Close ==> shutdown_answers(stage, event) == (event is Closed),
        stage == ShutdownStage::Done ==> !shutdown_answers(stage, event),
{
}

/// Draining takes at most thirty seconds, with two looks a second.
pub proof fn law_draining_takes_thirty_seconds()
    ensures
        GRACEFUL_SHUTDOWN_DRAIN_TIMEOUT_NS == 30 * 1_000_000_000,
        GRACEFUL_SHUTDOWN_POLL_INTERVAL_MS == 500,
{
}

} // verus!
