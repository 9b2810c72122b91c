use spnhub::clock::Timestamp;
use spnhub::control::{
    handle_consumer_datagram, handle_provider_datagram, notify_provider_stopped, notify_shutdown,
    parse_consumer_message, parse_provider_message, ConsumerMessage, ConsumerReaction,
    ProviderMessage, StartRequestLimiter,
};
use spnhub::providers::{ProviderRegistry, ProviderStatus};

const SECOND: u64 = 1_000_000_000;

#[test]
fn provider_messages_are_recognised() {
    assert_eq!(parse_provider_message(b"notify_shutdown"), ProviderMessage::NotifyShutdown);
    assert_eq!(parse_provider_message(b"  notify_shutdown\r\n"), ProviderMessage::NotifyShutdown);
    assert_eq!(parse_provider_message(b"NOTIFY_SHUTDOWN"), ProviderMessage::Unknown);
    assert_eq!(parse_provider_message(b"notify_shutdown\xff"), ProviderMessage::Unknown);
    assert_eq!(parse_provider_message(b"request_provider_start"), ProviderMessage::Unknown);
    assert_eq!(parse_provider_message(b""), ProviderMessage::Unknown);
}

#[test]
fn consumer_messages_are_recognised() {
    assert_eq!(
        parse_consumer_message(b"request_provider_start"),
        ConsumerMessage::RequestProviderStart
    );
    assert_eq!(parse_consumer_message(b"\tnotify_shutdown "), ConsumerMessage::NotifyShutdown);
    assert_eq!(parse_consumer_message(b"request provider start"), ConsumerMessage::Unknown);
    assert_eq!(parse_consumer_message(b"\xffrequest_provider_start"), ConsumerMessage::Unknown);
}

#[test]
fn announcements_are_those_that_peers_know() {
    assert_eq!(notify_shutdown(), b"notify_shutdown".to_vec());
    assert_eq!(notify_provider_stopped(), b"notify_provider_stopped".to_vec());
    assert_eq!(parse_provider_message(&notify_shutdown()), ProviderMessage::NotifyShutdown);
    assert_eq!(parse_consumer_message(&notify_shutdown()), ConsumerMessage::NotifyShutdown);
}

#[test]
fn a_provider_that_announces_its_shutdown_is_marked() {
    let mut registry = ProviderRegistry::new();
    registry.register("svc", 1, (), "p".to_string(), Timestamp { secs: 1, nanos: 0 });
    assert_eq!(
        handle_provider_datagram(&mut registry, "svc", 1, b"hello"),
        ProviderMessage::Unknown
    );
    assert_eq!(registry.get("svc", 1).unwrap().status, ProviderStatus::Active);
    assert_eq!(
        handle_provider_datagram(&mut registry, "svc", 1, b"notify_shutdown"),
        ProviderMessage::NotifyShutdown
    );
    assert_eq!(registry.get("svc", 1).unwrap().status, ProviderStatus::ShuttingDown);
}

#[test]
fn start_requests_are_rate_limited() {
    let mut limiter = StartRequestLimiter::new();
    let request = b"request_provider_start";
    let mut ask = |now: u64| handle_consumer_datagram(&mut limiter, "alice", true, request, now);
    assert_eq!(ask(5 * SECOND), ConsumerReaction::StartProvider);
    assert_eq!(ask(15 * SECOND - 1), ConsumerReaction::RateLimited);
    assert_eq!(ask(15 * SECOND), ConsumerReaction::StartProvider);
    assert_eq!(ask(14 * SECOND), ConsumerReaction::RateLimited);
    assert_eq!(ask(25 * SECOND), ConsumerReaction::StartProvider);
}

#[test]
fn each_consumer_has_its_own_limit() {
    let mut limiter = StartRequestLimiter::new();
    assert!(limiter.let_through("alice", SECOND));
    assert!(limiter.let_through("bob", 2 * SECOND));
    assert!(!limiter.let_through("alice", 11 * SECOND - 1));
    assert!(!limiter.let_through("bob", 11 * SECOND));
    assert!(limiter.let_through("alice", 11 * SECOND));
    assert!(limiter.let_through("bob", 12 * SECOND));
}

#[test]
fn a_request_without_a_service_does_not_count() {
    let mut limiter = StartRequestLimiter::new();
    let request = b"request_provider_start";
    let mut send = |has_service: bool, bytes: &[u8], now: u64| {
        handle_consumer_datagram(&mut limiter, "alice", has_service, bytes, now)
    };
    assert_eq!(send(false, request, 1), ConsumerReaction::NoService);
    assert_eq!(send(true, request, 2), ConsumerReaction::StartProvider);
    assert_eq!(send(true, b"notify_shutdown", 3), ConsumerReaction::ShutdownNoted);
    assert_eq!(send(true, b"?", 4), ConsumerReaction::UnknownMessage);
    assert_eq!(send(true, request, 5), ConsumerReaction::RateLimited);
    assert_eq!(send(true, request, 2 + 10 * SECOND), ConsumerReaction::StartProvider);
}
