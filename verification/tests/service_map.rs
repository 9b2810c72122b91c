use spnhub::config::{AvailabilityManagementConfig, ServiceConfig};
use spnhub::service_map::build_service_map;

fn service(name: &str, provider: &str, consumers: &[&str]) -> ServiceConfig {
    ServiceConfig {
        name: name.to_string(),
        urn: format!("urn:{name}"),
        provider: provider.to_string(),
        consumers: consumers.iter().map(|c| c.to_string()).collect(),
        availability_management: AvailabilityManagementConfig {
            cluster_manager_urn: None,
            service_id: name.to_string(),
            image: String::new(),
            options: None,
            env: None,
            command: None,
            idle_timeout: 0,
            ondemand_start_on_consumer: false,
            ondemand_start_on_payload: false,
        },
    }
}

#[test]
fn providers_and_consumers_are_mapped_to_their_service() {
    let map = build_service_map(&[
        service("mail", "mail-provider", &["alice", "bob"]),
        service("files", "files-provider", &["carol"]),
    ]);
    for cn in ["mail-provider", "alice", "bob"] {
        let info = map.get(cn).unwrap();
        assert_eq!(info.name, "mail");
        assert_eq!(info.urn, "urn:mail");
    }
    assert_eq!(map.get("carol").unwrap().name, "files");
    assert!(map.get("mallory").is_none());
}

#[test]
fn a_later_service_wins() {
    let map = build_service_map(&[
        service("first", "p", &["shared"]),
        service("second", "shared", &[]),
    ]);
    assert_eq!(map.get("shared").unwrap().name, "second");
    assert_eq!(map.get("p").unwrap().name, "first");
}

#[test]
fn unlisted_clients_are_unknown() {
    let map = build_service_map(&[]);
    let info = map.resolve("anyone");
    assert_eq!(info.name, "unknown");
    assert_eq!(info.urn, "unknown");
}
