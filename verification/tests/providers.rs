use spnhub::clock::Timestamp;
use spnhub::idle::StreamCounters;
use spnhub::providers::{Lookup, ProviderRegistry, ProviderStatus};

fn at(secs: i64) -> Timestamp {
    Timestamp { secs, nanos: 0 }
}

fn status(registry: &ProviderRegistry<&'static str>, id: usize) -> Option<ProviderStatus> {
    registry.get("svc", id).map(|e| e.status)
}

#[test]
fn first_provider_is_active_and_others_stand_by() {
    let mut registry = ProviderRegistry::new();
    assert_eq!(registry.register("svc", 1, "a", "p1".to_string(), at(10)), ProviderStatus::Active);
    assert_eq!(registry.register("svc", 2, "b", "p2".to_string(), at(11)), ProviderStatus::StandBy);
    assert_eq!(registry.register("other", 3, "c", "p3".to_string(), at(12)), ProviderStatus::Active);
    assert_eq!(registry.count(), 3);
    assert_eq!(registry.service_count(), 2);
    assert_eq!(registry.get("svc", 1).unwrap().uri, "p1");
    assert_eq!(registry.get("svc", 1).unwrap().idle.idle_since, 10);
    assert!(registry.get("svc", 3).is_none());
}

#[test]
fn oldest_standby_takes_over_from_the_active_provider() {
    let mut registry = ProviderRegistry::new();
    registry.register("svc", 1, "a", "p1".to_string(), at(10));
    registry.register("svc", 2, "b", "p2".to_string(), at(30));
    registry.register("svc", 3, "c", "p3".to_string(), at(20));
    let departure = registry.deregister("svc", 1);
    assert!(departure.removed);
    assert_eq!(departure.promoted, Some(3));
    assert_eq!(status(&registry, 3), Some(ProviderStatus::Active));
    assert_eq!(status(&registry, 2), Some(ProviderStatus::StandBy));
}

#[test]
fn nanoseconds_decide_between_standbys_of_the_same_second() {
    let mut registry = ProviderRegistry::new();
    registry.register("svc", 1, "a", "p1".to_string(), at(10));
    registry.register("svc", 2, "b", "p2".to_string(), Timestamp { secs: 20, nanos: 5 });
    registry.register("svc", 3, "c", "p3".to_string(), Timestamp { secs: 20, nanos: 4 });
    assert_eq!(registry.deregister("svc", 1).promoted, Some(3));
}

#[test]
fn a_leaving_standby_promotes_nobody() {
    let mut registry = ProviderRegistry::new();
    registry.register("svc", 1, "a", "p1".to_string(), at(10));
    registry.register("svc", 2, "b", "p2".to_string(), at(11));
    registry.register("svc", 3, "c", "p3".to_string(), at(12));
    let departure = registry.deregister("svc", 2);
    assert!(departure.removed);
    assert_eq!(departure.promoted, None);
    assert_eq!(status(&registry, 1), Some(ProviderStatus::Active));
    assert_eq!(status(&registry, 3), Some(ProviderStatus::StandBy));
}

#[test]
fn a_leaving_provider_that_shut_down_promotes_nobody() {
    let mut registry = ProviderRegistry::new();
    registry.register("svc", 1, "a", "p1".to_string(), at(10));
    registry.register("svc", 2, "b", "p2".to_string(), at(11));
    assert!(registry.mark_shutting_down("svc", 1));
    assert_eq!(registry.deregister("svc", 1).promoted, None);
    assert_eq!(status(&registry, 2), Some(ProviderStatus::StandBy));
}

#[test]
fn last_provider_takes_its_service_along() {
    let mut registry = ProviderRegistry::new();
    registry.register("svc", 1, "a", "p1".to_string(), at(10));
    registry.deregister("svc", 1);
    assert_eq!(registry.count(), 0);
    assert_eq!(registry.service_count(), 0);
    assert!(!registry.deregister("svc", 1).removed);
}

#[test]
fn a_provider_that_shuts_down_gets_no_consumers() {
    let mut registry = ProviderRegistry::new();
    registry.register("svc", 1, "a", "p1".to_string(), at(10));
    registry.mark_shutting_down("svc", 1);
    assert_eq!(registry.lookup("svc"), Lookup { active: None, has_standby: false });
    assert_eq!(registry.acquire("svc"), None);
    assert_eq!(registry.register("svc", 2, "b", "p2".to_string(), at(11)), ProviderStatus::Active);
    assert_eq!(registry.acquire("svc"), Some(2));
    assert!(!registry.mark_shutting_down("svc", 9));
    assert!(!registry.mark_shutting_down("nowhere", 1));
}

#[test]
fn consumers_share_the_active_provider() {
    let mut registry = ProviderRegistry::new();
    registry.register("svc", 1, "a", "p1".to_string(), at(10));
    registry.register("svc", 2, "b", "p2".to_string(), at(11));
    assert_eq!(registry.lookup("svc"), Lookup { active: Some(1), has_standby: true });
    assert_eq!(registry.acquire("svc"), Some(1));
    assert_eq!(registry.acquire("svc"), Some(1));
}

#[test]
fn standby_becomes_active_when_a_consumer_needs_it() {
    let mut registry = ProviderRegistry::new();
    registry.register("svc", 1, "a", "p1".to_string(), at(10));
    registry.register("svc", 2, "b", "p2".to_string(), at(30));
    registry.register("svc", 3, "c", "p3".to_string(), at(20));
    registry.mark_shutting_down("svc", 1);
    assert_eq!(registry.acquire("svc"), Some(3));
    assert_eq!(status(&registry, 3), Some(ProviderStatus::Active));
    assert_eq!(status(&registry, 1), Some(ProviderStatus::ShuttingDown));
}

#[test]
fn arrival_and_departure_leave_the_others_as_they_were() {
    let mut registry = ProviderRegistry::new();
    registry.register("svc", 1, "a", "p1".to_string(), at(10));
    registry.register("svc", 2, "b", "p2".to_string(), at(11));
    registry.deregister("svc", 2);
    assert_eq!(registry.count(), 1);
    assert_eq!(status(&registry, 1), Some(ProviderStatus::Active));
}

#[test]
fn samples_move_the_idle_clock() {
    let mut registry = ProviderRegistry::new();
    registry.register("svc", 1, "a", "p1".to_string(), at(100));
    let idle = StreamCounters { opened: 0, closed: 0 };
    let busy = StreamCounters { opened: 1, closed: 0 };
    let done = StreamCounters { opened: 1, closed: 1 };
    let s = registry.sample("svc", 1, idle, 110).unwrap();
    assert_eq!(s.service, "svc");
    assert_eq!(s.uri, "p1");
    assert_eq!(s.status, ProviderStatus::Active);
    assert_eq!(s.idle_since, Some(at(100)));
    assert_eq!(registry.sample("svc", 1, busy, 120).unwrap().idle_since, None);
    assert_eq!(registry.sample("svc", 1, done, 130).unwrap().idle_since, Some(at(130)));
    assert_eq!(registry.sample("svc", 1, done, 140).unwrap().idle_since, Some(at(130)));
    assert!(registry.sample("svc", 2, idle, 140).is_none());
}

#[test]
fn providers_are_listed_once_each() {
    let mut registry = ProviderRegistry::new();
    registry.register("svc", 1, "a", "p1".to_string(), at(10));
    registry.register("svc", 2, "b", "p2".to_string(), at(11));
    registry.register("other", 3, "c", "p3".to_string(), at(12));
    let mut keys: Vec<(String, usize)> =
        registry.list().into_iter().map(|k| (k.name, k.id)).collect();
    keys.sort();
    assert_eq!(
        keys,
        vec![("other".to_string(), 3), ("svc".to_string(), 1), ("svc".to_string(), 2)]
    );
}
