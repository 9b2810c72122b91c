use spnhub::config::AvailabilityManagementConfig;
use spnhub::microservice::StartPlan;
use spnhub::ondemand::{execute_ondemand_start, OndemandStart};

fn config(urn: Option<&str>, on_consumer: bool, on_payload: bool) -> AvailabilityManagementConfig {
    AvailabilityManagementConfig {
        cluster_manager_urn: urn.map(|s| s.to_string()),
        service_id: "svc".to_string(),
        image: "img".to_string(),
        options: None,
        env: None,
        command: None,
        idle_timeout: 0,
        ondemand_start_on_consumer: on_consumer,
        ondemand_start_on_payload: on_payload,
    }
}

#[test]
fn each_trigger_has_its_switch() {
    let consumer = config(Some("docker:"), true, false);
    let payload = config(Some("docker:"), false, true);
    assert!(matches!(
        execute_ondemand_start(&consumer, "consumer"),
        OndemandStart::Initiated(StartPlan::Docker(plan)) if plan.name == "spn_svc"
    ));
    assert!(matches!(execute_ondemand_start(&consumer, "payload"), OndemandStart::Skipped));
    assert!(matches!(execute_ondemand_start(&payload, "payload"), OndemandStart::Initiated(_)));
    assert!(matches!(execute_ondemand_start(&payload, "consumer"), OndemandStart::Skipped));
    let both = config(Some("docker:"), true, true);
    assert!(matches!(execute_ondemand_start(&both, "operator"), OndemandStart::Skipped));
}

#[test]
fn a_start_without_cluster_manager_fails() {
    match execute_ondemand_start(&config(None, true, false), "consumer") {
        OndemandStart::Failed(e) => {
            assert_eq!(e.message(), "Error: clusterManagerUrn is required but missing")
        }
        _ => panic!("no failure"),
    }
    match execute_ondemand_start(&config(Some("x:"), true, false), "consumer") {
        OndemandStart::Failed(e) => {
            assert_eq!(e.message(), "Error: Unsupported cluster manager URN: x:")
        }
        _ => panic!("no failure"),
    }
}
