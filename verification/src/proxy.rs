//! Mediation between a consumer and its provider.

use vstd::prelude::*;
use vstd::string::*;
use vstd::utf8::encode_utf8;

use crate::clock::{milliseconds_between, truncated, Timestamp};
use crate::idle::StreamCounters;
use crate::session::{no_provider_reason, CloseReason, APP_ERR_CODE_NO_PROVIDER_FOUND};
use crate::text::{decimal, join3};

verus! {

/// Capacity for the channel that reports errors from stream proxy tasks.
pub const ERROR_CHANNEL_CAPACITY: usize = 32;

/// The delay between retries when a consumer fails to connect to a provider, to
/// prevent busy-looping, in milliseconds.
pub const CONSUMER_PROVIDER_RETRY_DELAY_MS: u64 = 500;

/// Distinguishes between different kinds of stream proxy errors.
pub enum ProxyError {
    /// Indicates a problem with the provider connection, suggesting a retry might
    /// be needed.
    ProviderConnection(String),
    /// Indicates an error during data transfer for a specific stream.
    DataTransfer { msg: String, stream_id: u64 },
}

/// Tells the kind of a stream proxy error. `connection_lost` says whether it is an
/// error of the provider's connection.
pub fn classify_proxy_error(connection_lost: bool, msg: String, stream_id: u64) -> (r: ProxyError)
    ensures
        r == (if connection_lost {
            ProxyError::ProviderConnection(msg)
        } else {
            ProxyError::DataTransfer { msg, stream_id }
        }),
{
    if connection_lost {
        ProxyError::ProviderConnection(msg)
    } else {
        ProxyError::DataTransfer { msg, stream_id }
    }
}

/// Represents the outcome of the stream proxying loop.
pub enum ProxyLoopResult {
    /// A recoverable error related to the provider occurred (e.g., connection
    /// lost). The handler should attempt to find a new provider.
    ProviderError,
    /// A fatal error occurred, or the consumer connection was closed. The handler
    /// should terminate.
    ConnectionClosed(CloseReason),
}

/// What happens while streams are proxied.
pub enum ProxyEvent {
    /// A stream proxy task reported an error.
    Failed(ProxyError),
    /// The consumer opened a stream.
    StreamAccepted,
    /// The consumer's connection ended.
    ConnectionEnded(CloseReason),
}

/// What the stream proxying loop does next.
pub enum ProxyAction {
    /// Wait for the next event.
    Continue,
    /// Forward the new stream to the provider, then wait for the next event.
    Forward,
    /// Leave the loop.
    Leave(ProxyLoopResult),
}

/// What `event` calls for.
pub open spec fn proxy_action(event: ProxyEvent) -> ProxyAction {
    match event {
        ProxyEvent::Failed(ProxyError::ProviderConnection(_)) => ProxyAction::Leave(
            ProxyLoopResult::ProviderError,
        ),
        ProxyEvent::Failed(ProxyError::DataTransfer { .. }) => ProxyAction::Continue,
        ProxyEvent::StreamAccepted => ProxyAction::Forward,
        ProxyEvent::ConnectionEnded(reason) => ProxyAction::Leave(
            ProxyLoopResult::ConnectionClosed(reason),
        ),
    }
}

/// One round of the loop that proxies the streams of a consumer to its provider.
/// `streams` are the consumer's.
pub fn proxy_streams_with_provider(streams: &mut StreamCounters, event: ProxyEvent) -> (r:
    ProxyAction)
    ensures
        r == proxy_action(event),
        *final(streams) == (if event is StreamAccepted {
            old(streams).with_open()
        } else {
            *old(streams)
        }),
{
    match event {
        ProxyEvent::Failed(ProxyError::ProviderConnection(_msg)) => ProxyAction::Leave(
            ProxyLoopResult::ProviderError,
        ),
        ProxyEvent::Failed(ProxyError::DataTransfer { .. }) => ProxyAction::Continue,
        ProxyEvent::StreamAccepted => {
            streams.open_stream();
            ProxyAction::Forward
        },
        ProxyEvent::ConnectionEnded(reason) => ProxyAction::Leave(
            ProxyLoopResult::ConnectionClosed(reason),
        ),
    }
}

/// What a consumer handler does next.
pub enum ConsumerStage {
    /// Search for a provider.
    Search,
    /// Proxy streams to this provider.
    Proxy(usize),
    /// Wait for [`CONSUMER_PROVIDER_RETRY_DELAY_MS`].
    Pause,
    /// Close the consumer's connection with this error code and reason.
    Close { code: u32, reason: Vec<u8> },
    /// The connection has ended.
    Ended(CloseReason),
}

/// What a consumer handler has done.
pub enum ConsumerEvent {
    /// The search for a provider has ended.
    Searched(Option<usize>),
    /// The loop that proxies streams has ended.
    Proxied(ProxyLoopResult),
    /// The wait is over.
    Paused,
    /// The connection was closed.
    Closed,
}

/// Whether `event` is the end of what `stage` asks for.
pub open spec fn consumer_answers(stage: ConsumerStage, event: ConsumerEvent) -> bool {
    match stage {
        ConsumerStage::Search => event is Searched,
        ConsumerStage::Proxy(_) => event is Proxied,
        ConsumerStage::Pause => event is Paused,
        ConsumerStage::Close { .. } => event is Closed,
        ConsumerStage::Ended(_) => false,
    }
}

/// Whether `next` has the connection closed because no provider was found.
pub open spec fn closes_without_provider(next: ConsumerStage) -> bool {
    match next {
        ConsumerStage::Close { code, reason } => code == APP_ERR_CODE_NO_PROVIDER_FOUND && reason@
            == encode_utf8("No provider available for the requested service"@),
        _ => false,
    }
}

/// Whether `event` takes a consumer handler from `stage` to `next`. A connection
/// that the hub closes ends as closed by the application, with the code and the
/// reason that it was closed with.
pub open spec fn consumer_step(
    stage: ConsumerStage,
    event: ConsumerEvent,
    next: ConsumerStage,
) -> bool {
    match event {
        ConsumerEvent::Searched(Some(id)) => next == ConsumerStage::Proxy(id),
        ConsumerEvent::Searched(None) => closes_without_provider(next),
        ConsumerEvent::Proxied(ProxyLoopResult::ProviderError) => next == ConsumerStage::Pause,
        ConsumerEvent::Proxied(ProxyLoopResult::ConnectionClosed(reason)) => next
            == ConsumerStage::Ended(reason),
        ConsumerEvent::Paused => next == ConsumerStage::Search,
        ConsumerEvent::Closed => match stage {
            ConsumerStage::Close { code, reason } => next == ConsumerStage::Ended(
                CloseReason::ApplicationClosed { code: code as u64, reason },
            ),
            _ => true,
        },
    }
}

impl ConsumerStage {
    /// Where the handler of a new consumer connection begins.
    pub fn start() -> (r: ConsumerStage)
        ensures
            r == ConsumerStage::Search,
    {
        ConsumerStage::Search
    }

    /// Goes on after `event`. A consumer keeps its connection while providers come
    /// and go; it ends with the connection, which is closed when no provider is
    /// found.
    pub fn advance(self, event: ConsumerEvent) -> (r: ConsumerStage)
        requires
            consumer_answers(self, event),
        ensures
            consumer_step(self, event, r),
    {
        match event {
            ConsumerEvent::Searched(Some(id)) => ConsumerStage::Proxy(id),
            ConsumerEvent::Searched(None) => ConsumerStage::Close {
                code: APP_ERR_CODE_NO_PROVIDER_FOUND,
                reason: no_provider_reason(),
            },
            ConsumerEvent::Proxied(ProxyLoopResult::ProviderError) => ConsumerStage::Pause,
            ConsumerEvent::Proxied(ProxyLoopResult::ConnectionClosed(reason)) =>
                ConsumerStage::Ended(reason),
            ConsumerEvent::Paused => ConsumerStage::Search,
            ConsumerEvent::Closed => match self {
                ConsumerStage::Close { code, reason } => ConsumerStage::Ended(
                    CloseReason::ApplicationClosed { code: code as u64, reason },
                ),
                // Nothing is closed in any other stage.
                other => other,
            },
        }
    }
}

/// The name of a QUIC stream: who opened it, its directions and its number among
/// the streams of that kind.
pub open spec fn stream_name(id: u64) -> Seq<char> {
    (if id % 2 == 0 {
        "client"@
    } else {
        "server"@
    }) + " "@ + (if (id / 2) % 2 == 0 {
        "bi"@
    } else {
        "uni"@
    }) + "directional stream "@ + decimal((id / 4) as int)
}

/// Makes a `quinn::VarInt` and from it a `quinn::StreamId`, and writes that out
/// with its `Display`. The lowest bit of the id is the side that opened the
/// stream, the next one its directions, and the rest its number.
#[verifier::external_body]
fn write_stream_id(id: u64) -> (r: String)
    requires
        id < 0x4000_0000_0000_0000,
    ensures
        r@ == stream_name(id),
{
    quinn::StreamId::from(quinn::VarInt::from_u64(id).unwrap()).to_string()
}

/// The name of a mediated stream, which is made of a stream of the consumer and
/// one of the provider. The ids are those of QUIC, with two bits to spare.
pub fn spn_connection_id(consumer_stream: u64, provider_stream: u64) -> (r: String)
    requires
        consumer_stream < 0x4000_0000_0000_0000,
        provider_stream < 0x4000_0000_0000_0000,
    ensures
        r@ == stream_name(consumer_stream) + "-"@ + stream_name(provider_stream),
{
    let consumer = write_stream_id(consumer_stream);
    let provider = write_stream_id(provider_stream);
    join3(consumer.as_str(), "-", provider.as_str())
}

/// The kinds of I/O error that the hub tells apart.
#[derive(Clone, Copy, PartialEq, Eq, Structural, Debug)]
pub enum TransferErrorKind {
    ConnectionReset,
    BrokenPipe,
    Other,
}

/// What is logged when a mediated stream has ended.
pub struct StreamEnd {
    /// How long it was open, in milliseconds.
    pub elapsed_ms: i64,
    pub disconnect_reason: &'static str,
}

/// What the log says of why a mediated stream ended.
pub open spec fn disconnect_reason_of(error: Option<TransferErrorKind>) -> Seq<char> {
    match error {
        None => "closed"@,
        Some(TransferErrorKind::ConnectionReset) => "closedByPeer"@,
        Some(TransferErrorKind::BrokenPipe) => "closedByPeer"@,
        Some(TransferErrorKind::Other) => "error"@,
    }
}

/// Composes what is logged when a mediated stream that started at `start_at` has
/// ended at `now`, with the error that ended it, if any.
pub fn stream_end(start_at: Timestamp, now: Timestamp, error: Option<TransferErrorKind>) -> (r:
    StreamEnd)
    requires
        start_at.wf(),
        now.wf(),
    ensures
        r.elapsed_ms == truncated(now.instant() - start_at.instant(), 1_000_000),
        r.disconnect_reason@ == disconnect_reason_of(error),
{
    StreamEnd {
        elapsed_ms: milliseconds_between(now, start_at),
        disconnect_reason: match error {
            None => "closed",
            Some(TransferErrorKind::ConnectionReset) => "closedByPeer",
            Some(TransferErrorKind::BrokenPipe) => "closedByPeer",
            Some(TransferErrorKind::Other) => "error",
        },
    }
}

/// An error on one stream leaves the other streams of the consumer alone: the
/// loop goes on.
pub proof fn law_stream_error_is_not_fatal(msg: String, stream_id: u64)
    ensures
        proxy_action(ProxyEvent::Failed(ProxyError::DataTransfer { msg, stream_id }))
            == ProxyAction::Continue,
{
}

/// A consumer whose provider is lost searches for a new one after a pause.
pub proof fn law_lost_provider_is_replaced(
    id: usize,
    msg: String,
    s1: ConsumerStage,
    s2: ConsumerStage,
)
    requires
        proxy_action(ProxyEvent::Failed(ProxyError::ProviderConnection(msg))) matches
            ProxyAction::Leave(result) && consumer_step(
            ConsumerStage::Proxy(id),
            ConsumerEvent::Proxied(result),
            s1,
        ),
        consumer_answers(s1, ConsumerEvent::Paused),
        consumer_step(s1, ConsumerEvent::Paused, s2),
    ensures
        s1 == ConsumerStage::Pause,
        s2 == ConsumerStage::Search,
{
}

/// A consumer that no provider is found for has its connection closed with the code
/// and the reason for that. There is no search and no stream after it: the next
/// stage is the end.
pub proof fn law_no_provider_closes_the_connection(
    s1: ConsumerStage,
    event: ConsumerEvent,
    s2: ConsumerStage,
)
    requires
        consumer_step(ConsumerStage::Search, ConsumerEvent::Searched(None), s1),
        consumer_answers(s1, event),
        consumer_step(s1, event, s2),
    ensures
        closes_without_provider(s1),
        s2 is Ended,
{
}

/// A consumer handler ends only when the consumer's connection has ended, by itself
/// or because the hub closed it, and the hub closes it only when a search finds no
/// provider.
pub proof fn law_consumer_outlives_its_provider(
    stage: ConsumerStage,
    event: ConsumerEvent,
    next: ConsumerStage,
)
    requires
        consumer_answers(stage, event),
        consumer_step(stage, event, next),
    ensures
        next is Ended <==> event == ConsumerEvent::Closed || (event matches
            ConsumerEvent::Proxied(result) && result is ConnectionClosed),
        next is Close <==> event == ConsumerEvent::Searched(None),
{
}

/// Whatever ended the consumer's connection, the loop is left with that reason, and
/// the handler ends with it.
pub proof fn law_end_of_the_connection_ends_the_handler(
    id: usize,
    reason: CloseReason,
    next: ConsumerStage,
)
    requires
        proxy_action(ProxyEvent::ConnectionEnded(reason)) matches ProxyAction::Leave(result)
            && consumer_step(ConsumerStage::Proxy(id), ConsumerEvent::Proxied(result), next),
    ensures
        next == ConsumerStage::Ended(reason),
{
}

/// The loop is left exactly when the consumer's connection has ended or an error of
/// the provider's connection was reported, and it tells which. It goes on otherwise,
/// and forwards every stream that the consumer opens.
pub proof fn law_proxy_loop_ends_for_two_reasons(event: ProxyEvent, reason: CloseReason)
    ensures
        proxy_action(event) == ProxyAction::Leave(ProxyLoopResult::ProviderError) <==> (event
            matches ProxyEvent::Failed(error) && error is ProviderConnection),
        event == ProxyEvent::ConnectionEnded(reason) <==> proxy_action(event)
            == ProxyAction::Leave(ProxyLoopResult::ConnectionClosed(reason)),
        event is ConnectionEnded ==> proxy_action(event) is Leave,
        proxy_action(event) is Forward <==> event is StreamAccepted,
        proxy_action(event) is Continue <==> (event matches ProxyEvent::Failed(error)
            && error is DataTransfer),
{
}

/// A provider that a search found is the one that streams are proxied to.
pub proof fn law_found_provider_gets_the_streams(
    stage: ConsumerStage,
    id: usize,
    next: ConsumerStage,
)
    requires
        consumer_step(stage, ConsumerEvent::Searched(Some(id)), next),
    ensures
        next == ConsumerStage::Proxy(id),
{
}

/// A lost provider makes the handler pause, and a pause is followed by a search.
pub proof fn law_pause_before_the_next_search(stage: ConsumerStage, next: ConsumerStage)
    ensures
        consumer_step(
            stage,
            ConsumerEvent::Proxied(ProxyLoopResult::ProviderError),
            next,
        ) <==> next == ConsumerStage::Pause,
        consumer_step(stage, ConsumerEvent::Paused, next) <==> next == ConsumerStage::Search,
{
}

/// A search without result has the connection closed with code 100 and the reason for
/// it, and the session ends with that code and reason.
pub proof fn law_no_provider_means_code_100(s1: ConsumerStage, s2: ConsumerStage)
    requires
        consumer_step(ConsumerStage::Search, ConsumerEvent::Searched(None), s1),
        consumer_step(s1, ConsumerEvent::Closed, s2),
    ensures
        s1 matches ConsumerStage::Close { code, reason } && code == 100 && reason@ == encode_utf8(
            "No provider available for the requested service"@,
        ) && s2 == ConsumerStage::Ended(CloseReason::ApplicationClosed { code: 100, reason }),
{
}

/// Each stage of a handler waits for its own outcome, and the end for nothing.
pub proof fn law_consumer_stages_wait_for_their_outcome(
    stage: ConsumerStage,
    event: ConsumerEvent,
)
    ensures
        stage == ConsumerStage::Search ==> consumer_answers(stage, event) == (event is Searched),
        stage is Proxy ==> consumer_answers(stage, event) == (event is Proxied),
        stage == ConsumerStage::Pause ==> consumer_answers(stage, event) == (event is Paused),
        stage is Close ==> consumer_answers(stage, event) == (event is Closed),
        stage is Ended ==> !consumer_answers(stage, event),
{
}

/// A mediated stream without an error was closed, one that the peer broke off was
/// closed by it, and any other one ended in an error.
pub proof fn law_stream_ends_in_the_log(error: Option<TransferErrorKind>)
    ensures
        error is None ==> disconnect_reason_of(error) == "closed"@,
        error == Some(TransferErrorKind::ConnectionReset) || error == Some(
            TransferErrorKind::BrokenPipe,
        ) ==> disconnect_reason_of(error) == "closedByPeer"@,
        error == Some(TransferErrorKind::Other) ==> disconnect_reason_of(error) == "error"@,
{
}

/// The name of a stream tells who opened it, its directions and its number: four ids
/// in a row have the same number.
pub proof fn law_stream_names(n: u64)
    requires
        n < 0x1000_0000_0000_0000,
    ensures
        stream_name((4 * n) as u64) == "client"@ + " "@ + "bi"@ + "directional stream "@ + decimal(
            n as int,
        ),
        stream_name((4 * n + 1) as u64) == "server"@ + " "@ + "bi"@ + "directional stream "@
            + decimal(n as int),
        stream_name((4 * n + 2) as u64) == "client"@ + " "@ + "uni"@ + "directional stream "@
            + decimal(n as int),
        stream_name((4 * n + 3) as u64) == "server"@ + " "@ + "uni"@ + "directional stream "@
            + decimal(n as int),
{
}

/// The times and sizes of the mediation.
pub proof fn law_retry_delay_is_half_a_second()
    ensures
        CONSUMER_PROVIDER_RETRY_DELAY_MS == 500,
        ERROR_CHANNEL_CAPACITY == 32,
{
}

} // verus!
