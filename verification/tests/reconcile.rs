use spnhub::config::{
    AppConfig, AvailabilityManagementConfig, HubConfig, RealmConfig, ServiceConfig,
};
use spnhub::name_map::NameMap;
use spnhub::reconcile::{hub_places, HubTable, Review};

fn hub(name: &str, port: u16, cert: &str) -> HubConfig {
    HubConfig {
        name: name.to_string(),
        server_address: "0.0.0.0".to_string(),
        server_port: port,
        server_cert: cert.to_string(),
        server_cert_key: "key".to_string(),
        services: Vec::new(),
    }
}

fn realm(name: &str, disabled: bool, hubs: Vec<HubConfig>) -> RealmConfig {
    RealmConfig {
        realm_name: name.to_string(),
        disabled,
        realm_ca_cert: "ca".to_string(),
        hubs,
    }
}

fn service(name: &str, consumers: &[&str]) -> ServiceConfig {
    let mut env = NameMap::new();
    env.insert("MODE".to_string(), "fast".to_string());
    ServiceConfig {
        name: name.to_string(),
        urn: format!("urn:{name}"),
        provider: format!("{name}-provider"),
        consumers: consumers.iter().map(|c| c.to_string()).collect(),
        availability_management: AvailabilityManagementConfig {
            cluster_manager_urn: Some("docker:".to_string()),
            service_id: name.to_string(),
            image: "img".to_string(),
            options: Some(vec!["--privileged".to_string()]),
            env: Some(env),
            command: None,
            idle_timeout: 60,
            ondemand_start_on_consumer: true,
            ondemand_start_on_payload: false,
        },
    }
}

fn serving(services: Vec<ServiceConfig>) -> AppConfig {
    let mut x = hub("x", 1, "c");
    x.services = services;
    AppConfig { realms: vec![realm("a", false, vec![x])] }
}

fn unchanged(review: Review, at: (usize, usize)) -> bool {
    matches!(
        review,
        Review::Stay { place, load_certificates: false, reload_services: false } if place == at
    )
}

fn wants_certificates(review: Review) -> bool {
    matches!(
        review,
        Review::Stay { place: (0, 0), load_certificates: true, reload_services: false }
    )
}

fn wants_services(review: Review) -> bool {
    matches!(
        review,
        Review::Stay { place: (0, 0), load_certificates: false, reload_services: true }
    )
}

/// Runs a whole reconciliation in which every certificate load and every start
/// succeeds. Returns the hubs that were stopped.
fn reconcile(table: &mut HubTable<u32>, config: &AppConfig, handle: u32) -> Vec<String> {
    let reloaded = vec![true; table.review_all(config).len()];
    let stopped = table.settle_all(config, &reloaded);
    start_missing(table, config, handle);
    stopped.into_iter().map(|h| h.hub_name).collect()
}

fn start_missing(table: &mut HubTable<u32>, config: &AppConfig, handle: u32) {
    let places = hub_places(config);
    let mut from = 0;
    while let Some(k) = table.next_missing(config, &places, from) {
        table.insert(config, places[k], handle);
        from = k + 1;
    }
}

fn running(table: &HubTable<u32>) -> Vec<(String, u16, u32)> {
    (0..table.len())
        .map(|i| {
            let h = table.get(i);
            (format!("{}/{}", h.realm_name, h.hub_name), h.config.server_port, h.handle)
        })
        .collect()
}

#[test]
fn hubs_of_enabled_realms_are_started() {
    let config = AppConfig {
        realms: vec![
            realm("a", false, vec![hub("x", 1, "c"), hub("y", 2, "c")]),
            realm("b", true, vec![hub("z", 3, "c")]),
            realm("c", false, vec![hub("x", 4, "c")]),
        ],
    };
    assert_eq!(hub_places(&config), vec![(0, 0), (0, 1), (2, 0)]);
    let mut table = HubTable::new();
    assert!(reconcile(&mut table, &config, 7).is_empty());
    assert_eq!(
        running(&table),
        vec![
            ("a/x".to_string(), 1, 7),
            ("a/y".to_string(), 2, 7),
            ("c/x".to_string(), 4, 7)
        ]
    );
}

#[test]
fn a_second_reconciliation_changes_nothing() {
    let config = AppConfig { realms: vec![realm("a", false, vec![hub("x", 1, "c"), hub("y", 2, "c")])] };
    let mut table = HubTable::new();
    reconcile(&mut table, &config, 7);
    let reviews = table.review_all(&config);
    assert!(unchanged(reviews[0], (0, 0)));
    assert!(unchanged(reviews[1], (0, 1)));
    assert!(reconcile(&mut table, &config, 8).is_empty());
    assert_eq!(running(&table), vec![("a/x".to_string(), 1, 7), ("a/y".to_string(), 2, 7)]);
}

#[test]
fn removed_and_disabled_hubs_are_stopped() {
    let before = AppConfig {
        realms: vec![
            realm("a", false, vec![hub("x", 1, "c"), hub("y", 2, "c")]),
            realm("b", false, vec![hub("z", 3, "c")]),
        ],
    };
    let mut table = HubTable::new();
    reconcile(&mut table, &before, 1);
    let after = AppConfig {
        realms: vec![
            realm("a", false, vec![hub("y", 2, "c")]),
            realm("b", true, vec![hub("z", 3, "c")]),
        ],
    };
    assert_eq!(reconcile(&mut table, &after, 2), vec!["x".to_string(), "z".to_string()]);
    assert_eq!(running(&table), vec![("a/y".to_string(), 2, 1)]);
}

#[test]
fn a_hub_with_a_new_port_is_restarted() {
    let mut table = HubTable::new();
    let before = AppConfig { realms: vec![realm("a", false, vec![hub("x", 1, "c")])] };
    reconcile(&mut table, &before, 1);
    let after = AppConfig { realms: vec![realm("a", false, vec![hub("x", 9, "c")])] };
    assert!(matches!(table.review_all(&after)[0], Review::Restart));
    assert_eq!(reconcile(&mut table, &after, 2), vec!["x".to_string()]);
    assert_eq!(running(&table), vec![("a/x".to_string(), 9, 2)]);
}

#[test]
fn new_certificates_are_loaded_into_the_running_hub() {
    let mut table = HubTable::new();
    let before = AppConfig { realms: vec![realm("a", false, vec![hub("x", 1, "old")])] };
    reconcile(&mut table, &before, 1);
    let after = AppConfig { realms: vec![realm("a", false, vec![hub("x", 1, "new")])] };
    assert!(wants_certificates(table.review_all(&after)[0]));

    assert!(table.settle_all(&after, &vec![false]).is_empty());
    assert_eq!(table.get(0).config.server_cert, "old");
    assert!(wants_certificates(table.review_all(&after)[0]));

    assert!(table.settle_all(&after, &vec![true]).is_empty());
    assert_eq!(table.get(0).config.server_cert, "new");
    assert_eq!(table.get(0).handle, 1);
    assert!(unchanged(table.review_all(&after)[0], (0, 0)));
}

#[test]
fn a_new_realm_certificate_is_loaded_too() {
    let mut table = HubTable::new();
    let mut config = AppConfig { realms: vec![realm("a", false, vec![hub("x", 1, "c")])] };
    reconcile(&mut table, &config, 1);
    config.realms[0].realm_ca_cert = "other".to_string();
    assert!(wants_certificates(table.review_all(&config)[0]));
}

#[test]
fn a_hub_that_is_listed_twice_runs_once() {
    let config = AppConfig { realms: vec![realm("a", false, vec![hub("x", 1, "c"), hub("x", 2, "c")])] };
    let mut table = HubTable::new();
    reconcile(&mut table, &config, 1);
    assert_eq!(running(&table), vec![("a/x".to_string(), 1, 1)]);
}

#[test]
fn a_failed_start_is_made_up_for_later() {
    let config = AppConfig { realms: vec![realm("a", false, vec![hub("x", 1, "c"), hub("y", 2, "c")])] };
    let mut table = HubTable::new();
    let places = hub_places(&config);
    assert_eq!(table.next_missing(&config, &places, 0), Some(0));
    table.insert(&config, places[1], 1);
    assert_eq!(table.next_missing(&config, &places, 1), None);
    reconcile(&mut table, &config, 2);
    assert_eq!(running(&table), vec![("a/y".to_string(), 2, 1), ("a/x".to_string(), 1, 2)]);
}

#[test]
fn a_changed_service_list_is_reloaded_without_a_restart() {
    let mut table = HubTable::new();
    let before = serving(vec![service("mail", &["alice"])]);
    reconcile(&mut table, &before, 1);
    assert_eq!(table.get(0).service_map.resolve("alice").name, "mail");
    assert!(table.get(0).service_map.get("bob").is_none());

    let after = serving(vec![service("mail", &["bob"]), service("files", &["carol"])]);
    assert!(wants_services(table.review_all(&after)[0]));
    assert!(reconcile(&mut table, &after, 2).is_empty());
    assert_eq!(running(&table), vec![("a/x".to_string(), 1, 1)]);
    let hub = table.get(0);
    assert!(hub.service_map.get("alice").is_none());
    assert_eq!(hub.service_map.resolve("bob").urn, "urn:mail");
    assert_eq!(hub.service_map.resolve("files-provider").name, "files");
    assert_eq!(hub.config.services.len(), 2);
    assert_eq!(hub.config.services[1].consumers, vec!["carol".to_string()]);
    assert!(unchanged(table.review_all(&after)[0], (0, 0)));
}

#[test]
fn any_difference_in_a_service_counts() {
    let mut table = HubTable::new();
    let config = serving(vec![service("mail", &["alice"])]);
    reconcile(&mut table, &config, 1);
    assert!(unchanged(table.review_all(&serving(vec![service("mail", &["alice"])]))[0], (0, 0)));
    assert!(wants_services(table.review_all(&serving(vec![]))[0]));

    let changes: Vec<fn(&mut ServiceConfig)> = vec![
        |s| s.urn = "other".to_string(),
        |s| s.provider = "other".to_string(),
        |s| s.consumers.push("bob".to_string()),
        |s| s.availability_management.cluster_manager_urn = None,
        |s| s.availability_management.image = "other".to_string(),
        |s| s.availability_management.options = None,
        |s| s.availability_management.command = Some(Vec::new()),
        |s| s.availability_management.idle_timeout = 61,
        |s| s.availability_management.ondemand_start_on_payload = true,
        |s| s.availability_management.env = None,
        |s| s.availability_management.env = Some(NameMap::new()),
        |s| {
            let mut env = NameMap::new();
            env.insert("MODE".to_string(), "slow".to_string());
            s.availability_management.env = Some(env);
        },
        |s| {
            let mut env = NameMap::new();
            env.insert("MODE".to_string(), "fast".to_string());
            env.insert("MORE".to_string(), "yes".to_string());
            s.availability_management.env = Some(env);
        },
    ];
    for (i, change) in changes.into_iter().enumerate() {
        let mut changed = service("mail", &["alice"]);
        change(&mut changed);
        assert!(wants_services(table.review_all(&serving(vec![changed]))[0]), "change {i}");
    }
}

#[test]
fn services_wait_for_the_certificates() {
    let mut table = HubTable::new();
    reconcile(&mut table, &serving(vec![service("mail", &["alice"])]), 1);
    let mut after = serving(vec![service("mail", &["bob"])]);
    after.realms[0].hubs[0].server_cert = "new".to_string();
    assert!(matches!(
        table.review_all(&after)[0],
        Review::Stay { place: (0, 0), load_certificates: true, reload_services: true }
    ));
    assert!(table.settle_all(&after, &vec![false]).is_empty());
    assert_eq!(table.get(0).service_map.resolve("alice").name, "mail");
    assert_eq!(table.get(0).config.services[0].consumers, vec!["alice".to_string()]);
    assert!(table.settle_all(&after, &vec![true]).is_empty());
    assert_eq!(table.get(0).service_map.resolve("bob").name, "mail");
    assert!(table.get(0).service_map.get("alice").is_none());
}

#[test]
fn a_failed_start_keeps_no_other_hub_from_being_started() {
    let config = AppConfig {
        realms: vec![
            realm("a", false, vec![hub("x", 1, "c"), hub("y", 2, "c")]),
            realm("b", true, vec![hub("off", 3, "c")]),
            realm("c", false, vec![hub("z", 4, "c")]),
        ],
    };
    let mut table = HubTable::new();
    let places = hub_places(&config);
    let mut tried = Vec::new();
    let mut from = 0;
    while let Some(k) = table.next_missing(&config, &places, from) {
        tried.push(k);
        if k != 0 {
            table.insert(&config, places[k], 1);
        }
        from = k + 1;
    }
    assert_eq!(tried, vec![0, 1, 2]);
    assert_eq!(running(&table), vec![("a/y".to_string(), 2, 1), ("c/z".to_string(), 4, 1)]);
}
