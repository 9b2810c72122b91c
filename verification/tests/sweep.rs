use spnhub::clock::Timestamp;
use spnhub::config::{
    AppConfig, AvailabilityManagementConfig, HubConfig, RealmConfig, ServiceConfig,
};
use spnhub::connection_table::ConnectionKey;
use spnhub::idle::StreamCounters;
use spnhub::providers::{ProviderRegistry, ProviderSample, ProviderStatus};
use spnhub::service_map::build_service_map;
use spnhub::sweep::{
    consumers_to_notify, idle_close, idle_status, plan_idle_stops, take_samples,
};

fn service(name: &str, consumers: &[&str], idle_timeout: u64) -> ServiceConfig {
    ServiceConfig {
        name: name.to_string(),
        urn: format!("urn:{name}"),
        provider: format!("{name}-provider"),
        consumers: consumers.iter().map(|c| c.to_string()).collect(),
        availability_management: AvailabilityManagementConfig {
            cluster_manager_urn: None,
            service_id: name.to_string(),
            image: String::new(),
            options: None,
            env: None,
            command: None,
            idle_timeout,
            ondemand_start_on_consumer: false,
            ondemand_start_on_payload: false,
        },
    }
}

fn inventory(services: Vec<ServiceConfig>) -> AppConfig {
    AppConfig {
        realms: vec![RealmConfig {
            realm_name: "realm".to_string(),
            disabled: true,
            realm_ca_cert: String::new(),
            hubs: vec![HubConfig {
                name: "hub".to_string(),
                server_address: "0.0.0.0".to_string(),
                server_port: 4433,
                server_cert: String::new(),
                server_cert_key: String::new(),
                services,
            }],
        }],
    }
}

fn sample(service: &str, id: usize, idle_since: Option<i64>) -> ProviderSample {
    ProviderSample {
        service: service.to_string(),
        id,
        uri: format!("{service}-provider"),
        status: ProviderStatus::Active,
        streams: StreamCounters { opened: 0, closed: 0 },
        idle_since: idle_since.map(|secs| Timestamp { secs, nanos: 0 }),
    }
}

fn key(name: &str, id: usize) -> ConnectionKey {
    ConnectionKey { name: name.to_string(), id }
}

fn clock(n: usize, secs: i64) -> Vec<Timestamp> {
    vec![Timestamp { secs, nanos: 0 }; n]
}

#[test]
fn overdue_providers_are_stopped_with_their_consumers_told() {
    let config = inventory(vec![service("mail", &["alice", "bob"], 60), service("files", &["carol"], 0)]);
    let map = build_service_map(&config.realms[0].hubs[0].services);
    let samples = vec![
        sample("mail", 1, Some(940)),
        sample("mail", 2, Some(941)),
        sample("mail", 3, None),
        sample("files", 4, Some(0)),
        sample("unknown", 5, Some(0)),
    ];
    let consumers = vec![key("carol", 10), key("bob", 11), key("stranger", 12), key("alice", 13)];
    let plan =
        plan_idle_stops(&config, "realm", "hub", &samples, &clock(5, 1000), &consumers, &map);
    assert_eq!(plan.hub, Some((0, 0)));
    assert_eq!(plan.stops.len(), 1);
    let stop = plan.stops.into_iter().next().unwrap();
    assert_eq!(stop.provider, 0);
    assert_eq!(stop.service, 0);
    assert_eq!(stop.idle_duration, 60);
    assert_eq!(stop.consumers, vec![1, 3]);
    assert_eq!(consumers_to_notify(stop, true), vec![1, 3]);
}

#[test]
fn nobody_is_told_of_a_stop_that_failed() {
    let config = inventory(vec![service("mail", &["alice"], 1)]);
    let map = build_service_map(&config.realms[0].hubs[0].services);
    let samples = vec![sample("mail", 1, Some(0))];
    let plan = plan_idle_stops(
        &config,
        "realm",
        "hub",
        &samples,
        &clock(1, 10),
        &vec![key("alice", 2)],
        &map,
    );
    let stop = plan.stops.into_iter().next().unwrap();
    assert!(consumers_to_notify(stop, false).is_empty());
}

#[test]
fn an_unconfigured_hub_stops_nothing() {
    let config = inventory(vec![service("mail", &[], 1)]);
    let map = build_service_map(&[]);
    let samples = vec![sample("mail", 1, Some(0))];
    let plan =
        plan_idle_stops(&config, "realm", "elsewhere", &samples, &clock(1, 10), &vec![], &map);
    assert_eq!(plan.hub, None);
    assert!(plan.stops.is_empty());
}

#[test]
fn parts_of_a_second_do_not_count() {
    let config = inventory(vec![service("mail", &[], 60)]);
    let map = build_service_map(&[]);
    let samples = vec![sample("mail", 1, Some(940))];
    let early = vec![Timestamp { secs: 999, nanos: 999_999_999 }];
    let plan = plan_idle_stops(&config, "realm", "hub", &samples, &early, &vec![], &map);
    assert!(plan.stops.is_empty());
}

#[test]
fn a_clock_that_went_back_makes_the_idle_time_huge() {
    let config = inventory(vec![service("mail", &[], 60)]);
    let map = build_service_map(&[]);
    let samples = vec![sample("mail", 1, Some(1000))];
    let plan = plan_idle_stops(&config, "realm", "hub", &samples, &clock(1, 998), &vec![], &map);
    assert_eq!(plan.stops[0].idle_duration, u64::MAX - 1);
}

#[test]
fn idle_status_in_words() {
    let since = Timestamp { secs: 100, nanos: 500_000_000 };
    assert_eq!(idle_status(Some(since), Timestamp { secs: 163, nanos: 0 }), "idle for 62s");
    assert_eq!(idle_status(Some(since), Timestamp { secs: 98, nanos: 0 }), "idle for -2s");
    assert_eq!(idle_status(None, since), "busy");
}

#[test]
fn a_sweep_samples_every_provider() {
    let mut registry = ProviderRegistry::new();
    registry.register("mail", 1, (), "p1".to_string(), Timestamp { secs: 100, nanos: 0 });
    registry.register("mail", 2, (), "p2".to_string(), Timestamp { secs: 110, nanos: 0 });
    registry.register("files", 3, (), "p3".to_string(), Timestamp { secs: 120, nanos: 0 });
    let keys = registry.list();
    let streams: Vec<StreamCounters> = keys
        .iter()
        .map(|k| StreamCounters { opened: if k.id == 2 { 1 } else { 0 }, closed: 0 })
        .collect();
    let samples = take_samples(&mut registry, &keys, &streams, &vec![200; keys.len()]);
    assert_eq!(samples.len(), 3);
    for (key, sample) in keys.iter().zip(&samples) {
        assert_eq!(sample.service, key.name);
        assert_eq!(sample.id, key.id);
        assert_eq!(sample.uri, format!("p{}", key.id));
        let expected = match key.id {
            1 => Some(Timestamp { secs: 100, nanos: 0 }),
            3 => Some(Timestamp { secs: 120, nanos: 0 }),
            _ => None,
        };
        assert_eq!(sample.idle_since, expected);
    }
    assert_eq!(registry.get("mail", 2).unwrap().idle.idle_since, 0);
    assert_eq!(registry.get("mail", 1).unwrap().idle.idle_since, 100);
    assert_eq!(registry.count(), 3);
}

#[test]
fn idle_providers_are_closed_with_their_reason() {
    assert_eq!(idle_close(), (0, b"idle timeout".to_vec()));
}
