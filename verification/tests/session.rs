use spnhub::clock::Timestamp;
use spnhub::config::{
    AppConfig, AvailabilityManagementConfig, HubConfig, RealmConfig, ServiceConfig,
};
use spnhub::service_map::build_service_map;
use spnhub::session::{
    find_configured_service, identify_client, log_connection_close, map_reason_to_string,
    CloseReason, ConnectionContext, Identification, LogLevel, Role,
};

fn text(s: &str) -> Option<String> {
    Some(s.to_string())
}

fn service(name: &str) -> ServiceConfig {
    ServiceConfig {
        name: name.to_string(),
        urn: format!("urn:{name}"),
        provider: format!("{name}-provider"),
        consumers: vec!["alice".to_string()],
        availability_management: AvailabilityManagementConfig {
            cluster_manager_urn: None,
            service_id: name.to_string(),
            image: String::new(),
            options: None,
            env: None,
            command: None,
            idle_timeout: 0,
            ondemand_start_on_consumer: false,
            ondemand_start_on_payload: false,
        },
    }
}

fn context() -> ConnectionContext {
    ConnectionContext::new(
        Role::Consumer,
        "alice",
        12,
        Timestamp { secs: 100, nanos: 900_000_000 },
        &build_service_map(&[service("mail")]),
    )
}

#[test]
fn clients_are_identified_by_cn_and_alpn() {
    match identify_client(text("p"), text("sc01-provider")) {
        Identification::Client { role, cn } => {
            assert_eq!(role, Role::Provider);
            assert_eq!(cn, "p");
        }
        _ => panic!("rejected"),
    }
    match identify_client(text("c"), text("sc01-consumer")) {
        Identification::Client { role, cn } => {
            assert_eq!(role, Role::Consumer);
            assert_eq!(cn, "c");
        }
        _ => panic!("rejected"),
    }
}

#[test]
fn clients_without_identity_are_rejected() {
    for (cn, alpn) in [(None, text("sc01-provider")), (text("p"), None), (None, None)] {
        match identify_client(cn, alpn) {
            Identification::Rejected { code, reason } => {
                assert_eq!(code, 1);
                assert_eq!(reason, "Missing CN or ALPN");
            }
            _ => panic!("let in"),
        }
    }
}

#[test]
fn clients_with_another_role_are_rejected() {
    match identify_client(text("p"), text("h3")) {
        Identification::Rejected { code, reason } => {
            assert_eq!(code, 2);
            assert_eq!(reason, "Unsupported client role");
        }
        _ => panic!("let in"),
    }
}

#[test]
fn a_session_knows_its_service() {
    let c = context();
    assert_eq!(c.connection_id, 12);
    assert_eq!(c.uri, "alice");
    assert_eq!(c.endpoint_type, "serviceConsumer");
    assert_eq!(c.service, "mail");
    assert_eq!(c.service_urn, "urn:mail");
    let now = Timestamp { secs: 1, nanos: 0 };
    let p = ConnectionContext::new(Role::Provider, "who", 1, now, &build_service_map(&[]));
    assert_eq!(p.endpoint_type, "serviceProvider");
    assert_eq!(p.service, "unknown");
    assert_eq!(p.service_urn, "unknown");
}

#[test]
fn configured_services_are_found() {
    let config = AppConfig {
        realms: vec![RealmConfig {
            realm_name: "r".to_string(),
            disabled: true,
            realm_ca_cert: String::new(),
            hubs: vec![HubConfig {
                name: "h".to_string(),
                server_address: String::new(),
                server_port: 1,
                server_cert: String::new(),
                server_cert_key: String::new(),
                services: vec![service("mail"), service("files")],
            }],
        }],
    };
    assert_eq!(find_configured_service(&config, "r", "h", "files").unwrap().urn, "urn:files");
    assert!(find_configured_service(&config, "r", "h", "unknown").is_none());
    assert!(find_configured_service(&config, "r", "x", "mail").is_none());
    assert!(find_configured_service(&config, "x", "h", "mail").is_none());
}

#[test]
fn reasons_are_mapped_to_strings() {
    let app = CloseReason::ApplicationClosed { code: 0, reason: Vec::new() };
    let peer = CloseReason::ConnectionClosed { error: String::new(), reason: Vec::new() };
    let transport = CloseReason::TransportError { error: String::new(), details: String::new() };
    assert_eq!(map_reason_to_string(&app), "terminatedByPeer");
    assert_eq!(map_reason_to_string(&peer), "terminatedByPeer");
    assert_eq!(map_reason_to_string(&CloseReason::LocallyClosed), "shutdown");
    assert_eq!(map_reason_to_string(&CloseReason::TimedOut), "error");
    assert_eq!(map_reason_to_string(&transport), "error");
    assert_eq!(map_reason_to_string(&CloseReason::Other(String::new())), "error");
}

#[test]
fn the_end_of_a_session_is_described() {
    let now = Timestamp { secs: 103, nanos: 400_500_000 };
    let reason = CloseReason::ApplicationClosed { code: 42, reason: b"bye \xff".to_vec() };
    let end = log_connection_close(&context(), &reason, 5, now);
    assert_eq!(end.level, LogLevel::Info);
    assert_eq!(
        end.message,
        "serviceConsumer connection for 'alice' closed by the application. Code: 42, Reason: 'bye \u{fffd}'"
    );
    assert_eq!(end.elapsed_ms, 2500);
    assert_eq!(end.total_connections, 5);
    assert_eq!(end.terminate_reason, "terminatedByPeer");
}

#[test]
fn each_end_has_its_words_and_its_level() {
    let start = Timestamp { secs: 100, nanos: 900_000_000 };
    let cases = vec![
        (
            CloseReason::ConnectionClosed { error: "no error".to_string(), reason: b"x".to_vec() },
            LogLevel::Info,
            "closed by the peer. Code: no error, Reason: 'x'",
        ),
        (CloseReason::TimedOut, LogLevel::Warn, "timed out."),
        (CloseReason::LocallyClosed, LogLevel::Info, "was closed locally."),
        (
            CloseReason::TransportError { error: "C".to_string(), details: "r".to_string() },
            LogLevel::Error,
            "failed due to a transport error. Code: C, Reason: 'r'",
        ),
        (
            CloseReason::Other("Reset".to_string()),
            LogLevel::Error,
            "closed with an unexpected error: Reset",
        ),
    ];
    for (reason, level, words) in cases {
        let end = log_connection_close(&context(), &reason, 0, start);
        assert_eq!(end.level, level);
        assert_eq!(end.message, format!("serviceConsumer connection for 'alice' {words}"));
        assert_eq!(end.elapsed_ms, 0);
    }
}
