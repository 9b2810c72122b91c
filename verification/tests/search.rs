use spnhub::clock::Timestamp;
use spnhub::providers::{ProviderRegistry, ProviderStatus};
use spnhub::search::{ProviderSearch, SearchStep, PROVIDER_SEARCH_TIMEOUT_NS};

const SECOND: u64 = 1_000_000_000;

fn at(secs: i64) -> Timestamp {
    Timestamp { secs, nanos: 0 }
}

#[test]
fn an_active_provider_is_found_at_once() {
    let mut registry = ProviderRegistry::new();
    registry.register("svc", 1, (), "p".to_string(), at(1));
    let mut search = ProviderSearch::new();
    let step = search.find_and_set_target_provider(
        &mut registry,
        "svc",
        true,
        0,
        PROVIDER_SEARCH_TIMEOUT_NS,
    );
    assert_eq!(step, SearchStep::Found(1));
    assert!(!search.start_attempted);
}

#[test]
fn a_standby_is_promoted_for_the_consumer() {
    let mut registry = ProviderRegistry::new();
    registry.register("svc", 1, (), "p1".to_string(), at(1));
    registry.register("svc", 2, (), "p2".to_string(), at(2));
    registry.mark_shutting_down("svc", 1);
    let mut search = ProviderSearch::new();
    let step = search.find_and_set_target_provider(&mut registry, "svc", true, 0, 1);
    assert_eq!(step, SearchStep::Found(2));
    assert_eq!(registry.get("svc", 2).unwrap().status, ProviderStatus::Active);
}

#[test]
fn a_search_has_a_provider_started_once() {
    let mut registry: ProviderRegistry<()> = ProviderRegistry::new();
    let mut search = ProviderSearch::new();
    let mut look = |elapsed: u64| {
        search.find_and_set_target_provider(
            &mut registry,
            "svc",
            true,
            elapsed,
            PROVIDER_SEARCH_TIMEOUT_NS,
        )
    };
    assert_eq!(look(0), SearchStep::Wait { start_provider: true });
    assert_eq!(look(SECOND), SearchStep::Wait { start_provider: false });
    assert_eq!(look(600 * SECOND - 1), SearchStep::Wait { start_provider: false });
    assert_eq!(look(600 * SECOND), SearchStep::GiveUp { start_provider: false });
    assert_eq!(registry.service_count(), 0);
}

#[test]
fn nothing_is_started_for_a_consumer_without_a_service() {
    let mut search = ProviderSearch::new();
    assert_eq!(search.advance(None, false, 0, 10), SearchStep::Wait { start_provider: false });
    assert!(search.start_attempted);
    assert_eq!(search.advance(None, true, 1, 10), SearchStep::Wait { start_provider: false });
}

#[test]
fn a_search_without_time_still_has_a_provider_started() {
    let mut search = ProviderSearch::new();
    assert_eq!(search.advance(None, true, 0, 0), SearchStep::GiveUp { start_provider: true });
}
