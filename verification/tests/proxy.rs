use spnhub::clock::Timestamp;
use spnhub::idle::StreamCounters;
use spnhub::proxy::{
    classify_proxy_error, proxy_streams_with_provider, spn_connection_id, stream_end,
    ConsumerEvent, ConsumerStage, ProxyAction, ProxyError, ProxyEvent, ProxyLoopResult,
    TransferErrorKind,
};
use spnhub::session::CloseReason;

#[test]
fn stream_errors_are_told_apart() {
    assert!(matches!(
        classify_proxy_error(true, "lost".to_string(), 4),
        ProxyError::ProviderConnection(m) if m == "lost"
    ));
    assert!(matches!(
        classify_proxy_error(false, "reset".to_string(), 4),
        ProxyError::DataTransfer { msg, stream_id: 4 } if msg == "reset"
    ));
}

#[test]
fn an_error_on_a_stream_does_not_end_the_loop() {
    let mut streams = StreamCounters::new();
    let event = ProxyEvent::Failed(ProxyError::DataTransfer { msg: String::new(), stream_id: 0 });
    assert!(matches!(proxy_streams_with_provider(&mut streams, event), ProxyAction::Continue));
    assert_eq!(streams, StreamCounters::new());
}

#[test]
fn accepted_streams_are_counted_and_forwarded() {
    let mut streams = StreamCounters::new();
    let action = proxy_streams_with_provider(&mut streams, ProxyEvent::StreamAccepted);
    assert!(matches!(action, ProxyAction::Forward));
    assert_eq!(streams, StreamCounters { opened: 1, closed: 0 });
}

#[test]
fn the_end_of_the_connection_ends_the_loop() {
    let mut streams = StreamCounters::new();
    let event = ProxyEvent::ConnectionEnded(CloseReason::TimedOut);
    assert!(matches!(
        proxy_streams_with_provider(&mut streams, event),
        ProxyAction::Leave(ProxyLoopResult::ConnectionClosed(CloseReason::TimedOut))
    ));
}

#[test]
fn a_lost_provider_is_replaced_after_a_pause() {
    let stage = ConsumerStage::start();
    let stage = stage.advance(ConsumerEvent::Searched(Some(3)));
    assert!(matches!(stage, ConsumerStage::Proxy(3)));
    let mut streams = StreamCounters::new();
    let event = ProxyEvent::Failed(ProxyError::ProviderConnection("lost".to_string()));
    let result = match proxy_streams_with_provider(&mut streams, event) {
        ProxyAction::Leave(result) => result,
        _ => panic!("the loop went on"),
    };
    let stage = stage.advance(ConsumerEvent::Proxied(result));
    assert!(matches!(stage, ConsumerStage::Pause));
    let stage = stage.advance(ConsumerEvent::Paused);
    assert!(matches!(stage, ConsumerStage::Search));
}

#[test]
fn a_consumer_without_a_provider_is_closed() {
    let text = b"No provider available for the requested service".to_vec();
    let stage = ConsumerStage::start().advance(ConsumerEvent::Searched(None));
    match &stage {
        ConsumerStage::Close { code, reason } => {
            assert_eq!(*code, 100);
            assert_eq!(*reason, text);
        }
        _ => panic!("not closed"),
    }
    match stage.advance(ConsumerEvent::Closed) {
        ConsumerStage::Ended(CloseReason::ApplicationClosed { code, reason }) => {
            assert_eq!(code, 100);
            assert_eq!(reason, text);
        }
        _ => panic!("not ended"),
    }
}

#[test]
fn a_consumer_ends_with_its_connection() {
    let stage = ConsumerStage::Proxy(1).advance(ConsumerEvent::Proxied(
        ProxyLoopResult::ConnectionClosed(CloseReason::LocallyClosed),
    ));
    assert!(matches!(stage, ConsumerStage::Ended(CloseReason::LocallyClosed)));
}

#[test]
fn mediated_streams_are_named_after_both_sides() {
    assert_eq!(
        spn_connection_id(0, 1),
        "client bidirectional stream 0-server bidirectional stream 0"
    );
    assert_eq!(
        spn_connection_id(4 * 7 + 2, 4 * 123 + 3),
        "client unidirectional stream 7-server unidirectional stream 123"
    );
    let last = 0x3fff_ffff_ffff_fffc;
    assert_eq!(
        spn_connection_id(last, 0),
        "client bidirectional stream 1152921504606846975-client bidirectional stream 0"
    );
}

#[test]
fn the_end_of_a_stream_is_described() {
    let start = Timestamp { secs: 10, nanos: 0 };
    let now = Timestamp { secs: 11, nanos: 1_999_999 };
    let end = stream_end(start, now, None);
    assert_eq!(end.elapsed_ms, 1001);
    assert_eq!(end.disconnect_reason, "closed");
    let reset = stream_end(now, start, Some(TransferErrorKind::ConnectionReset));
    assert_eq!(reset.elapsed_ms, -1001);
    assert_eq!(reset.disconnect_reason, "closedByPeer");
    let broken = stream_end(start, now, Some(TransferErrorKind::BrokenPipe));
    assert_eq!(broken.disconnect_reason, "closedByPeer");
    let other = stream_end(start, now, Some(TransferErrorKind::Other));
    assert_eq!(other.disconnect_reason, "error");
}
