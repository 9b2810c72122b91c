use spnhub::clock::Timestamp;
use spnhub::consumers::ConsumerRegistry;
use spnhub::providers::ProviderRegistry;
use spnhub::shutdown::{
    drain_step, on_signal, DrainStep, ShutdownEvent, ShutdownMode, ShutdownStage, Signal,
    SignalAction,
};

const SECOND: u64 = 1_000_000_000;

#[test]
fn signals_have_their_meaning() {
    assert_eq!(on_signal(Signal::Interrupt), SignalAction::Shutdown(ShutdownMode::Immediate));
    assert_eq!(on_signal(Signal::Terminate), SignalAction::Shutdown(ShutdownMode::Graceful));
    assert_eq!(on_signal(Signal::UserDefined1), SignalAction::Reload);
}

fn closes(stage: &ShutdownStage) -> bool {
    matches!(stage, ShutdownStage::Close { code: 0, reason } if reason == b"server shutting down")
}

#[test]
fn an_immediate_shutdown_only_closes() {
    for requested in [Some(ShutdownMode::Immediate), None] {
        let stage = ShutdownStage::begin(requested);
        assert!(closes(&stage));
        assert!(matches!(stage.advance(ShutdownEvent::Closed), ShutdownStage::Done));
    }
}

#[test]
fn a_graceful_shutdown_announces_drains_and_closes() {
    let stage = ShutdownStage::begin(Some(ShutdownMode::Graceful));
    assert!(matches!(stage, ShutdownStage::Announce));
    let stage = stage.advance(ShutdownEvent::Announced);
    assert!(matches!(stage, ShutdownStage::Drain));
    let stage = stage.advance(ShutdownEvent::Looked(DrainStep::Wait));
    assert!(matches!(stage, ShutdownStage::Drain));
    let stage = stage.advance(ShutdownEvent::Looked(DrainStep::Drained));
    assert!(closes(&stage));
    assert!(matches!(stage.advance(ShutdownEvent::Closed), ShutdownStage::Done));
    let late = ShutdownStage::Drain.advance(ShutdownEvent::Looked(DrainStep::TimedOut));
    assert!(closes(&late));
}

#[test]
fn connections_drain_or_time_out() {
    let mut providers = ProviderRegistry::new();
    let mut consumers = ConsumerRegistry::new();
    assert_eq!(drain_step(0, &providers, &consumers), DrainStep::Drained);
    providers.register("svc", 1, (), "p".to_string(), Timestamp { secs: 1, nanos: 0 });
    consumers.add_connection("alice", 2, ());
    assert_eq!(drain_step(0, &providers, &consumers), DrainStep::Wait);
    providers.deregister("svc", 1);
    assert_eq!(drain_step(30 * SECOND - 1, &providers, &consumers), DrainStep::Wait);
    assert_eq!(drain_step(30 * SECOND, &providers, &consumers), DrainStep::TimedOut);
    consumers.remove_connection("alice", 2);
    assert_eq!(drain_step(1, &providers, &consumers), DrainStep::Drained);
}
