//! Control datagrams.

use vstd::prelude::*;
use vstd::string::*;
use vstd::utf8::{decode_utf8, encode_utf8, valid_utf8};

use crate::connection_table::group;
use crate::name_map::NameMap;
use crate::providers::{with_status, ProviderRegistry, ProviderStatus};
use crate::text::{from_utf8_lossy, lemma_trimmed_keeps, same_text, trim, trimmed};

verus! {

/// The minimum interval between on-demand start requests from the same consumer
/// to prevent abuse, in nanoseconds.
pub const ONDEMAND_SERVICE_START_RATE_LIMIT_PER_CONSUMER_NS: u64 = 10_000_000_000;

/// A control message of a provider.
#[derive(Clone, Copy, PartialEq, Eq, Structural, Debug)]
pub enum ProviderMessage {
    /// The provider is starting a graceful shutdown.
    NotifyShutdown,
    Unknown,
}

/// A control message of a consumer.
#[derive(Clone, Copy, PartialEq, Eq, Structural, Debug)]
pub enum ConsumerMessage {
    /// Triggers on-demand provider start.
    RequestProviderStart,
    /// The consumer is starting a graceful shutdown.
    NotifyShutdown,
    Unknown,
}

/// What a control message of a consumer calls for.
#[derive(Clone, Copy, PartialEq, Eq, Structural, Debug)]
pub enum ConsumerReaction {
    /// Start the provider of the consumer's service.
    StartProvider,
    /// The last start request was too short a time ago.
    RateLimited,
    /// A start request from a consumer without a configured service.
    NoService,
    /// The consumer shuts down: nothing to do.
    ShutdownNoted,
    /// The message is unknown.
    UnknownMessage,
}

/// The text of a datagram: its characters without the white space around them.
/// Bytes that are not UTF-8 are no text.
pub open spec fn datagram_text(bytes: Seq<u8>) -> Option<Seq<char>> {
    if valid_utf8(bytes) {
        Some(trimmed(decode_utf8(bytes)))
    } else {
        None
    }
}

/// The message that a provider sends with `bytes`.
pub open spec fn provider_message(bytes: Seq<u8>) -> ProviderMessage {
    if datagram_text(bytes) == Some("notify_shutdown"@) {
        ProviderMessage::NotifyShutdown
    } else {
        ProviderMessage::Unknown
    }
}

/// The message that a consumer sends with `bytes`.
pub open spec fn consumer_message(bytes: Seq<u8>) -> ConsumerMessage {
    if datagram_text(bytes) == Some("request_provider_start"@) {
        ConsumerMessage::RequestProviderStart
    } else if datagram_text(bytes) == Some("notify_shutdown"@) {
        ConsumerMessage::NotifyShutdown
    } else {
        ConsumerMessage::Unknown
    }
}

proof fn lemma_replacement_is_no_command(s: Seq<char>)
    requires
        s.contains('\u{FFFD}'),
    ensures
        trimmed(s) != "notify_shutdown"@,
        trimmed(s) != "request_provider_start"@,
{
    lemma_trimmed_keeps(s, '\u{FFFD}');
    reveal_strlit("notify_shutdown");
    reveal_strlit("request_provider_start");
    let t = trimmed(s);
    let i = choose|i: int| 0 <= i < t.len() && t[i] == '\u{FFFD}';
    assert(t[i] == '\u{FFFD}');
}

/// Reads a control datagram of a provider.
pub fn parse_provider_message(bytes: &[u8]) -> (r: ProviderMessage)
    ensures
        r == provider_message(bytes@),
{
    let message = from_utf8_lossy(bytes);
    proof {
        if !valid_utf8(bytes@) {
            lemma_replacement_is_no_command(message@);
        }
    }
    if same_text(trim(message.as_str()), "notify_shutdown") {
        ProviderMessage::NotifyShutdown
    } else {
        ProviderMessage::Unknown
    }
}

/// Reads a control datagram of a consumer.
pub fn parse_consumer_message(bytes: &[u8]) -> (r: ConsumerMessage)
    ensures
        r == consumer_message(bytes@),
{
    let message = from_utf8_lossy(bytes);
    proof {
        if !valid_utf8(bytes@) {
            lemma_replacement_is_no_command(message@);
        }
    }
    let command = trim(message.as_str());
    if same_text(command, "request_provider_start") {
        ConsumerMessage::RequestProviderStart
    } else if same_text(command, "notify_shutdown") {
        ConsumerMessage::NotifyShutdown
    } else {
        ConsumerMessage::Unknown
    }
}

/// Handles a control datagram of provider `id` of `service`: one that announces
/// its shutdown gets no new consumers.
pub fn handle_provider_datagram<C>(
    registry: &mut ProviderRegistry<C>,
    service: &str,
    id: usize,
    bytes: &[u8],
) -> (r: ProviderMessage)
    requires
        old(registry).wf(),
    ensures
        final(registry).wf(),
        r == provider_message(bytes@),
        final(registry)@ == (if r == ProviderMessage::NotifyShutdown && group(
            old(registry)@,
            service@,
        ).contains_key(id) {
            old(registry)@.insert(
                service@,
                with_status(group(old(registry)@, service@), id, ProviderStatus::ShuttingDown),
            )
        } else {
            old(registry)@
        }),
{
    let message = parse_provider_message(bytes);
    if message == ProviderMessage::NotifyShutdown {
        registry.mark_shutting_down(service, id);
    }
    message
}

/// Limits the start requests of each consumer, over all of its connections.
pub struct StartRequestLimiter {
    /// When the last request of a consumer (CN) was let through, on a monotonic
    /// clock in nanoseconds.
    last_request_at: NameMap<u64>,
}

/// Whether a request of `consumer` at `now` is let through: the last one of this
/// consumer that was lies at least the rate limit back.
pub open spec fn lets_through(
    last_request_at: Map<Seq<char>, u64>,
    consumer: Seq<char>,
    now: u64,
) -> bool {
    last_request_at.contains_key(consumer) ==> now - last_request_at[consumer]
        >= ONDEMAND_SERVICE_START_RATE_LIMIT_PER_CONSUMER_NS
}

impl View for StartRequestLimiter {
    type V = Map<Seq<char>, u64>;

    closed spec fn view(&self) -> Map<Seq<char>, u64> {
        self.last_request_at@
    }
}

impl StartRequestLimiter {
    /// A consumer occurs at most once.
    pub closed spec fn wf(&self) -> bool {
        self.last_request_at.wf()
    }

    /// No request yet.
    pub fn new() -> (r: StartRequestLimiter)
        ensures
            r.wf(),
            r@ == Map::<Seq<char>, u64>::empty(),
    {
        StartRequestLimiter { last_request_at: NameMap::new() }
    }

    /// Lets a request of `consumer` at `now` through, or not. One that is not let
    /// through leaves no trace.
    pub fn let_through(&mut self, consumer: &str, now: u64) -> (r: bool)
        requires
            old(self).wf(),
        ensures
            final(self).wf(),
            r == lets_through(old(self)@, consumer@, now),
            final(self)@ == (if r {
                old(self)@.insert(consumer@, now)
            } else {
                old(self)@
            }),
    {
        match self.last_request_at.get(consumer) {
            Some(last) => {
                let last: u64 = *last;
                if now < last || now - last < ONDEMAND_SERVICE_START_RATE_LIMIT_PER_CONSUMER_NS {
                    return false;
                }
            },
            None => {},
        }
        self.last_request_at.insert(consumer.to_owned(), now);
        true
    }
}

/// Handles a control datagram of `consumer` (CN) at `now`, on a monotonic clock in
/// nanoseconds. `has_service` says whether the consumer's service is configured.
pub fn handle_consumer_datagram(
    limiter: &mut StartRequestLimiter,
    consumer: &str,
    has_service: bool,
    bytes: &[u8],
    now: u64,
) -> (r: ConsumerReaction)
    requires
        old(limiter).wf(),
    ensures
        final(limiter).wf(),
        r == (match consumer_message(bytes@) {
            ConsumerMessage::RequestProviderStart => if !has_service {
                ConsumerReaction::NoService
            } else if lets_through(old(limiter)@, consumer@, now) {
                ConsumerReaction::StartProvider
            } else {
                ConsumerReaction::RateLimited
            },
            ConsumerMessage::NotifyShutdown => ConsumerReaction::ShutdownNoted,
            ConsumerMessage::Unknown => ConsumerReaction::UnknownMessage,
        }),
        final(limiter)@ == (if r == ConsumerReaction::StartProvider {
            old(limiter)@.insert(consumer@, now)
        } else {
            old(limiter)@
        }),
{
    match parse_consumer_message(bytes) {
        ConsumerMessage::RequestProviderStart => {
            if !has_service {
                ConsumerReaction::NoService
            } else if limiter.let_through(consumer, now) {
                ConsumerReaction::StartProvider
            } else {
                ConsumerReaction::RateLimited
            }
        },
        ConsumerMessage::NotifyShutdown => ConsumerReaction::ShutdownNoted,
        ConsumerMessage::Unknown => ConsumerReaction::UnknownMessage,
    }
}

/// The datagram that announces the hub's shutdown.
pub fn notify_shutdown() -> (r: Vec<u8>)
    ensures
        r@ == encode_utf8("notify_shutdown"@),
{
    "notify_shutdown".as_bytes_vec()
}

/// The datagram that tells a consumer that its provider was stopped.
pub fn notify_provider_stopped() -> (r: Vec<u8>)
    ensures
        r@ == encode_utf8("notify_provider_stopped"@),
{
    "notify_provider_stopped".as_bytes_vec()
}

/// A peer's message is recognised by its text alone: white space around it does
/// not matter, anything else does.
pub proof fn law_commands_are_recognised(text: Seq<char>)
    ensures
        provider_message(encode_utf8(text)) == ProviderMessage::NotifyShutdown <==> trimmed(text)
            == "notify_shutdown"@,
        consumer_message(encode_utf8(text)) == ConsumerMessage::NotifyShutdown <==> trimmed(text)
            == "notify_shutdown"@,
        consumer_message(encode_utf8(text)) == ConsumerMessage::RequestProviderStart <==> trimmed(
            text,
        ) == "request_provider_start"@,
{
    vstd::utf8::encode_utf8_valid_utf8(text);
    vstd::utf8::encode_utf8_decode_utf8(text);
    reveal_strlit("notify_shutdown");
    reveal_strlit("request_provider_start");
    assert("notify_shutdown"@.len() != "request_provider_start"@.len());
}

/// The hub's own shutdown announcement reads as one.
pub proof fn law_shutdown_announcement_is_understood()
    ensures
        provider_message(encode_utf8("notify_shutdown"@)) == ProviderMessage::NotifyShutdown,
        consumer_message(encode_utf8("notify_shutdown"@)) == ConsumerMessage::NotifyShutdown,
{
    let text = "notify_shutdown"@;
    reveal_strlit("notify_shutdown");
    assert(trimmed(text) == text);
    law_commands_are_recognised(text);
}

/// A start request: the consumer and the time, on whichever of its connections.
pub type StartRequest = (Seq<char>, u64);

/// The limiter that has let the requests `granted` through.
pub open spec fn limiter_after(granted: Seq<StartRequest>) -> Map<Seq<char>, u64>
    decreases granted.len(),
{
    if granted.len() == 0 {
        Map::empty()
    } else {
        limiter_after(granted.drop_last()).insert(granted.last().0, granted.last().1)
    }
}

/// Which of the requests `asked` a new limiter lets through.
pub open spec fn granted_of(asked: Seq<StartRequest>) -> Seq<StartRequest>
    decreases asked.len(),
{
    if asked.len() == 0 {
        seq![]
    } else {
        let granted = granted_of(asked.drop_last());
        let (consumer, now) = asked.last();
        if lets_through(limiter_after(granted), consumer, now) {
            granted.push(asked.last())
        } else {
            granted
        }
    }
}

/// Whether any two requests of one consumer lie at least the rate limit apart.
pub open spec fn keep_their_distance(granted: Seq<StartRequest>) -> bool {
    forall|i: int, j: int|
        0 <= i < j < granted.len() && (#[trigger] granted[i]).0 == (#[trigger] granted[j]).0
            ==> granted[j].1 - granted[i].1 >= ONDEMAND_SERVICE_START_RATE_LIMIT_PER_CONSUMER_NS
}

proof fn lemma_limiter_knows_the_last(granted: Seq<StartRequest>, i: int)
    requires
        keep_their_distance(granted),
        0 <= i < granted.len(),
    ensures
        limiter_after(granted).contains_key(granted[i].0),
        limiter_after(granted)[granted[i].0] >= granted[i].1,
    decreases granted.len(),
{
    let last = granted.len() - 1;
    if i < last {
        let front = granted.drop_last();
        assert(front[i] == granted[i]);
        if granted[i].0 == granted[last].0 {
            assert(granted[last].1 - granted[i].1
                >= ONDEMAND_SERVICE_START_RATE_LIMIT_PER_CONSUMER_NS);
        } else {
            assert forall|a: int, b: int|
                0 <= a < b < front.len() && (#[trigger] front[a]).0 == (#[trigger] front[b]).0 implies front[b].1
                - front[a].1 >= ONDEMAND_SERVICE_START_RATE_LIMIT_PER_CONSUMER_NS by {
                assert(granted[a] == front[a] && granted[b] == front[b]);
            }
            lemma_limiter_knows_the_last(front, i);
        }
    }
}

/// However a consumer times its start requests and over however many connections
/// it sends them, any two that are let through lie at least the rate limit apart.
pub proof fn law_start_requests_keep_their_distance(asked: Seq<StartRequest>)
    ensures
        keep_their_distance(granted_of(asked)),
    decreases asked.len(),
{
    if asked.len() > 0 {
        law_start_requests_keep_their_distance(asked.drop_last());
        let before = granted_of(asked.drop_last());
        let all = granted_of(asked);
        assert forall|i: int, j: int|
            0 <= i < j < all.len() && (#[trigger] all[i]).0 == (#[trigger] all[j]).0 implies all[j].1
            - all[i].1 >= ONDEMAND_SERVICE_START_RATE_LIMIT_PER_CONSUMER_NS by {
            assert(all[i] == before[i]);
            if j < before.len() {
                assert(all[j] == before[j]);
            } else {
                lemma_limiter_knows_the_last(before, i);
            }
        }
    }
}

/// Bytes that are not UTF-8 are no command, whatever else they hold.
pub proof fn law_broken_text_is_no_command(bytes: Seq<u8>)
    requires
        !valid_utf8(bytes),
    ensures
        provider_message(bytes) == ProviderMessage::Unknown,
        consumer_message(bytes) == ConsumerMessage::Unknown,
{
}

/// The first request of a consumer is let through, and the next one exactly when ten
/// seconds have gone by since the last that was.
pub proof fn law_requests_are_let_through_after_ten_seconds(
    last_request_at: Map<Seq<char>, u64>,
    consumer: Seq<char>,
    now: u64,
)
    ensures
        !last_request_at.contains_key(consumer) ==> lets_through(last_request_at, consumer, now),
        last_request_at.contains_key(consumer) ==> (lets_through(last_request_at, consumer, now)
            <==> now >= last_request_at[consumer] + 10_000_000_000),
{
}

/// The requests of one consumer do not count against another.
pub proof fn law_consumers_do_not_limit_each_other(
    last_request_at: Map<Seq<char>, u64>,
    consumer: Seq<char>,
    other: Seq<char>,
    at: u64,
    now: u64,
)
    requires
        other != consumer,
    ensures
        lets_through(last_request_at.insert(other, at), consumer, now) == lets_through(
            last_request_at,
            consumer,
            now,
        ),
{
}

proof fn lemma_limiter_holds_a_granted_request(granted: Seq<StartRequest>, consumer: Seq<char>)
    requires
        limiter_after(granted).contains_key(consumer),
    ensures
        exists|i: int|
            0 <= i < granted.len() && #[trigger] granted[i] == (
                consumer,
                limiter_after(granted)[consumer],
            ),
    decreases granted.len(),
{
    let last = granted.len() - 1;
    if granted.len() > 0 {
        if granted[last].0 == consumer {
            assert(granted[last] == (consumer, limiter_after(granted)[consumer]));
        } else {
            let front = granted.drop_last();
            lemma_limiter_holds_a_granted_request(front, consumer);
            let i = choose|i: int|
                0 <= i < front.len() && #[trigger] front[i] == (
                    consumer,
                    limiter_after(front)[consumer],
                );
            assert(granted[i] == front[i]);
        }
    }
}

/// A request that is refused has a reason: a request of the same consumer was let
/// through less than ten seconds before it, or after it.
pub proof fn law_refused_request_came_too_soon(asked: Seq<StartRequest>) -> (i: int)
    requires
        asked.len() > 0,
        granted_of(asked) == granted_of(asked.drop_last()),
    ensures
        0 <= i < granted_of(asked).len(),
        granted_of(asked)[i].0 == asked.last().0,
        asked.last().1 < granted_of(asked)[i].1 + 10_000_000_000,
{
    let granted = granted_of(asked.drop_last());
    let (consumer, now) = asked.last();
    if lets_through(limiter_after(granted), consumer, now) {
        assert(granted.push(asked.last()).len() == granted.len() + 1);
    }
    lemma_limiter_holds_a_granted_request(granted, consumer);
    choose|i: int|
        0 <= i < granted.len() && #[trigger] granted[i] == (
            consumer,
            limiter_after(granted)[consumer],
        )
}

} // verus!
