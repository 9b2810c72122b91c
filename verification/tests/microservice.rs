use spnhub::config::AvailabilityManagementConfig;
use spnhub::microservice::docker_backend::{
    container_name, parse_options, start_container, stop_container, ContainerStart, DockerFailure,
    StartEvent, StartStage, StopEvent, StopStage,
};
use spnhub::microservice::k8s_backend::{deployment_url, scale_deployment};
use spnhub::microservice::nomad_backend::{scale_outcome, scale_task};
use spnhub::microservice::{
    mask_token, start_provider, started_by_scaling, stop_provider, stopped_by_scaling, BodyValue,
    StartError, StartPlan, StopError, StopPlan,
};
use spnhub::name_map::NameMap;

fn strings(items: &[&str]) -> Vec<String> {
    items.iter().map(|s| s.to_string()).collect()
}

fn config(urn: Option<&str>, token: Option<&str>) -> AvailabilityManagementConfig {
    AvailabilityManagementConfig {
        cluster_manager_urn: urn.map(|s| s.to_string()),
        service_id: "mail.service".to_string(),
        image: "mail:1".to_string(),
        options: Some(strings(&["-p", "8080:80"])),
        env: token.map(|t| {
            let mut env = NameMap::new();
            env.insert("MODE".to_string(), "fast".to_string());
            env.insert("ACCESS_TOKEN".to_string(), t.to_string());
            env
        }),
        command: Some(strings(&["run", "--now"])),
        idle_timeout: 0,
        ondemand_start_on_consumer: false,
        ondemand_start_on_payload: false,
    }
}

fn failure(status: Option<u16>) -> DockerFailure {
    DockerFailure { status, message: "went wrong".to_string() }
}

fn fresh_start() -> ContainerStart {
    start_container("img", None, "svc", None, None)
}

#[test]
fn container_names_are_sanitized() {
    assert_eq!(container_name("mail.service-1"), "spn_mail_service_1");
    assert_eq!(container_name("straße/日本"), "spn_straße_日本");
    assert_eq!(container_name(""), "spn_");
    let ascii: String = (0u8..128).map(|b| b as char).collect();
    let expected: String =
        ascii.chars().map(|c| if c.is_ascii_alphanumeric() { c } else { '_' }).collect();
    assert_eq!(container_name(&ascii), format!("spn_{expected}"));
}

#[test]
fn container_options_are_read() {
    let o = parse_options(&strings(&[
        "-p", "8080:80", "--publish", "9090:80", "-p", "53:53", "--network", "a", "-v", "/x:/y",
        "--volume", "/z", "--privileged", "--cap-add", "NET_ADMIN", "--network", "b",
    ]));
    assert_eq!(o.network_mode.as_deref(), Some("b"));
    assert_eq!(o.binds, strings(&["/x:/y", "/z"]));
    assert!(o.privileged);
    assert_eq!(o.cap_add, strings(&["NET_ADMIN"]));
    assert_eq!(o.port_bindings.len(), 2);
    let web: Vec<(&str, &str)> = o
        .port_bindings
        .get("80/tcp")
        .unwrap()
        .iter()
        .map(|b| (b.host_ip.as_str(), b.host_port.as_str()))
        .collect();
    assert_eq!(web, vec![("0.0.0.0", "8080"), ("0.0.0.0", "9090")]);
    assert_eq!(o.port_bindings.get("53/tcp").unwrap().len(), 1);
}

#[test]
fn odd_container_options_are_skipped() {
    let o = parse_options(&strings(&["what", "-p", "8080", "--network"]));
    assert_eq!(o.network_mode, None);
    assert_eq!(o.port_bindings.len(), 0);
    assert!(!o.privileged);
    let o = parse_options(&strings(&["-v", "--privileged", "-p", "1:2:3"]));
    assert_eq!(o.binds, strings(&["--privileged"]));
    assert!(!o.privileged);
    assert_eq!(o.port_bindings.get("2:3/tcp").unwrap()[0].host_port, "1");
    let o = parse_options(&[]);
    assert!(o.binds.is_empty() && o.cap_add.is_empty());
}

#[test]
fn a_container_is_created_and_started() {
    let c = config(Some("docker:"), Some("secret"));
    let plan = match start_provider(&c).unwrap() {
        StartPlan::Docker(plan) => plan,
        _ => panic!("another backend"),
    };
    assert_eq!(plan.name, "spn_mail_service");
    assert_eq!(plan.body.image, "mail:1");
    assert_eq!(plan.body.env, Some(strings(&["MODE=fast", "ACCESS_TOKEN=secret"])));
    assert_eq!(plan.body.cmd, Some(strings(&["run", "--now"])));
    assert_eq!(plan.body.options.port_bindings.get("80/tcp").unwrap()[0].host_port, "8080");
    assert!(matches!(plan.stage, StartStage::Connect));
    let plan = plan.advance(StartEvent::Connected(Ok(())));
    assert!(matches!(plan.stage, StartStage::Create));
    let plan = plan.advance(StartEvent::Created(Ok("id1".to_string())));
    let plan = plan.advance(StartEvent::Started(Ok(())));
    assert_eq!(plan.name, "spn_mail_service");
    assert!(matches!(plan.stage, StartStage::Done(Ok(h)) if h.id == "id1"));
}

#[test]
fn a_running_container_is_taken_as_it_is() {
    let plan = fresh_start()
        .advance(StartEvent::Connected(Ok(())))
        .advance(StartEvent::Created(Err(failure(Some(409)))));
    assert!(matches!(plan.stage, StartStage::Inspect));
    let plan = plan
        .advance(StartEvent::Inspected(Ok(Some("old".to_string()))))
        .advance(StartEvent::Started(Err(failure(Some(304)))));
    assert!(matches!(plan.stage, StartStage::Done(Ok(h)) if h.id == "old"));
}

#[test]
fn failures_of_a_container_start_are_reported() {
    let connect = fresh_start().advance(StartEvent::Connected(Err(failure(None))));
    let create = fresh_start()
        .advance(StartEvent::Connected(Ok(())))
        .advance(StartEvent::Created(Err(failure(Some(500)))));
    let inspect = fresh_start()
        .advance(StartEvent::Connected(Ok(())))
        .advance(StartEvent::Created(Err(failure(Some(409)))))
        .advance(StartEvent::Inspected(Err(failure(Some(404)))));
    let start = fresh_start()
        .advance(StartEvent::Connected(Ok(())))
        .advance(StartEvent::Created(Ok("id".to_string())))
        .advance(StartEvent::Started(Err(failure(Some(500)))));
    for plan in [connect, create, inspect, start] {
        match plan.stage {
            StartStage::Done(Err(e)) => assert_eq!(e.message(), "Docker error: went wrong"),
            _ => panic!("no failure"),
        }
    }
    let nameless = fresh_start()
        .advance(StartEvent::Connected(Ok(())))
        .advance(StartEvent::Created(Err(failure(Some(409)))))
        .advance(StartEvent::Inspected(Ok(None)));
    match nameless.stage {
        StartStage::Done(Err(e)) => {
            assert_eq!(e.message(), "Error: Container exists but has no ID")
        }
        _ => panic!("no failure"),
    }
}

#[test]
fn a_container_is_stopped_and_removed() {
    let plan = stop_container("mail.service");
    assert_eq!(plan.name, "spn_mail_service");
    let plan = plan.advance(StopEvent::Connected(Ok(()))).advance(StopEvent::Stopped(Ok(())));
    assert!(matches!(plan.stage, StopStage::Remove));
    let plan = plan.advance(StopEvent::Removed(Ok(())));
    assert!(matches!(plan.stage, StopStage::Done(Ok(()))));
}

#[test]
fn a_missing_container_counts_as_stopped() {
    let plan = stop_container("x")
        .advance(StopEvent::Connected(Ok(())))
        .advance(StopEvent::Stopped(Err(failure(Some(404)))))
        .advance(StopEvent::Removed(Err(failure(Some(500)))));
    assert!(matches!(plan.stage, StopStage::Done(Ok(()))));
}

#[test]
fn failures_of_a_container_stop_are_reported() {
    let connect = stop_container("x").advance(StopEvent::Connected(Err(failure(None))));
    let stop = stop_container("x")
        .advance(StopEvent::Connected(Ok(())))
        .advance(StopEvent::Stopped(Err(failure(None))));
    for plan in [connect, stop] {
        match plan.stage {
            StopStage::Done(Err(e)) => assert_eq!(e.message(), "Docker error: went wrong"),
            _ => panic!("no failure"),
        }
    }
}

#[test]
fn errors_in_words() {
    let m = "x".to_string();
    assert_eq!(StartError::Docker(m.clone()).message(), "Docker error: x");
    assert_eq!(StartError::Nomad(m.clone()).message(), "Nomad error: x");
    assert_eq!(StartError::K8s(m.clone()).message(), "Kubernetes error: x");
    assert_eq!(StartError::Other(m.clone()).message(), "Error: x");
    assert_eq!(StopError::Docker(m.clone()).message(), "Docker error: x");
    assert_eq!(StopError::Nomad(m.clone()).message(), "Nomad error: x");
    assert_eq!(StopError::K8s(m.clone()).message(), "Kubernetes error: x");
    assert_eq!(StopError::Other(m).message(), "Error: x");
}

#[test]
fn missing_and_unsupported_cluster_managers_are_errors() {
    let start = |urn| start_provider(&config(urn, None)).err().unwrap().message();
    let stop = |urn| stop_provider(&config(urn, None)).err().unwrap().message();
    assert_eq!(start(None), "Error: clusterManagerUrn is required but missing");
    assert_eq!(stop(None), "Error: clusterManagerUrn is required but missing");
    assert_eq!(start(Some("ecs:x")), "Error: Unsupported cluster manager URN: ecs:x");
    assert_eq!(
        stop(Some("ecs:x")),
        "Error: Unsupported or invalid cluster manager URN prefix: ecs:x"
    );
    assert_eq!(start(Some("Docker:")), "Error: Unsupported cluster manager URN: Docker:");
}

#[test]
fn a_deployment_is_scaled_up_and_down() {
    let c = config(Some("k8s:prod"), Some("topsecret"));
    let up = match start_provider(&c).unwrap() {
        StartPlan::Kubernetes(plan) => plan,
        _ => panic!("another backend"),
    };
    let down = match stop_provider(&c).unwrap() {
        StopPlan::Kubernetes(plan) => plan,
        _ => panic!("another backend"),
    };
    assert_eq!(up.count, 1);
    assert_eq!(down.count, 0);
    for plan in [up, down] {
        assert_eq!(plan.cluster_url, None);
        assert_eq!(plan.namespace, "prod");
        assert_eq!(plan.token.as_deref(), Some("topsecret"));
        assert_eq!(plan.name, "mail.service");
        assert_eq!(plan.patch.len(), 1);
        assert_eq!(plan.patch[0].path, strings(&["spec", "replicas"]));
        assert!(matches!(plan.patch[0].value, BodyValue::Number(n) if n == plan.count));
    }
}

#[test]
fn cluster_and_namespace_are_read_from_the_urn() {
    let read = |urn: &str| {
        let plan = scale_deployment(&config(Some(urn), None), 1).unwrap();
        (plan.cluster_url, plan.namespace)
    };
    assert_eq!(read("k8s:"), (None, "default".to_string()));
    assert_eq!(read("k8s:/ns"), (None, "ns".to_string()));
    assert_eq!(
        read("k8s:https://k:6443/ns"),
        (Some("https://k:6443".to_string()), "ns".to_string())
    );
    assert_eq!(
        read("k8s:https://k:6443/"),
        (Some("https://k:6443".to_string()), "default".to_string())
    );
    let wrong = scale_deployment(&config(Some("nomad:x"), None), 1).err().unwrap();
    assert_eq!(wrong, "Invalid Kubernetes URN prefix (must start with 'k8s:')");
    let missing = scale_deployment(&config(None, None), 1).err().unwrap();
    assert_eq!(missing, "Kubernetes cluster manager URN is missing");
}

#[test]
fn deployments_have_their_url() {
    assert_eq!(
        deployment_url("https://k:6443//", "prod", "mail"),
        "https://k:6443/apis/apps/v1/namespaces/prod/deployments/mail"
    );
    let plan = scale_deployment(&config(Some("k8s:https://k:6443/prod"), None), 1).unwrap();
    let (server, url) = plan.target("https://inferred/").unwrap();
    assert_eq!(server, "https://k:6443/");
    assert_eq!(url, "https://k:6443/apis/apps/v1/namespaces/prod/deployments/mail.service");
    let plan = scale_deployment(&config(Some("k8s:prod"), None), 1).unwrap();
    let (server, url) = plan.target("https://inferred/").unwrap();
    assert_eq!(server, "https://inferred/");
    assert_eq!(url, "https://inferred/apis/apps/v1/namespaces/prod/deployments/mail.service");
    let plan = scale_deployment(&config(Some("k8s:not a url/prod"), None), 1).unwrap();
    assert_eq!(plan.target("https://inferred/").err().unwrap(), "invalid uri character");
}

#[test]
fn a_task_group_is_scaled() {
    let c = config(Some("nomad:http://n:4646/v1/job/mail//"), Some("tok"));
    let plan = match start_provider(&c).unwrap() {
        StartPlan::Nomad(plan) => plan,
        _ => panic!("another backend"),
    };
    assert_eq!(plan.url, "http://n:4646/v1/job/mail/scale");
    assert_eq!(plan.group, "mail:1");
    assert_eq!(plan.count, 1);
    assert_eq!(plan.token.as_deref(), Some("tok"));
    assert_eq!(plan.body.len(), 3);
    assert_eq!(plan.body[0].path, strings(&["Target", "Group"]));
    assert!(matches!(&plan.body[0].value, BodyValue::Text(t) if t == "mail:1"));
    assert_eq!(plan.body[1].path, strings(&["Count"]));
    assert!(matches!(plan.body[1].value, BodyValue::Number(1)));
    assert_eq!(plan.body[2].path, strings(&["ErrorOnConflict"]));
    assert!(matches!(plan.body[2].value, BodyValue::Flag(false)));
    match stop_provider(&c).unwrap() {
        StopPlan::Nomad(down) => {
            assert_eq!(down.count, 0);
            assert_eq!(down.url, plan.url);
        }
        _ => panic!("another backend"),
    }
    let wrong = scale_task(&config(Some("k8s:x"), None), 1).err().unwrap();
    assert_eq!(wrong, "Invalid Nomad URN prefix (must start with 'nomad:')");
    let missing = scale_task(&config(None, None), 1).err().unwrap();
    assert_eq!(missing, "Nomad cluster manager URN is missing");
    assert_eq!(scale_task(&config(Some("nomad:u"), None), 1).unwrap().token, None);
}

#[test]
fn the_answer_of_nomad_decides() {
    assert_eq!(scale_outcome(200, None), Ok(()));
    assert_eq!(scale_outcome(299, Some("x".to_string())), Ok(()));
    assert_eq!(
        scale_outcome(404, Some("job not found".to_string())),
        Err("Nomad API error (404 Not Found): job not found".to_string())
    );
    assert_eq!(
        scale_outcome(500, None),
        Err("Nomad API error (500 Internal Server Error): Empty response body".to_string())
    );
    assert_eq!(
        scale_outcome(199, Some(String::new())),
        Err("Nomad API error (199 <unknown status code>): ".to_string())
    );
    assert!(scale_outcome(300, None).is_err());
}

#[test]
fn scaling_ends_in_a_handle_or_an_error() {
    let c = config(Some("k8s:"), None);
    assert_eq!(started_by_scaling(&c, Ok(())).unwrap().id, "mail.service");
    let e = started_by_scaling(&c, Err("no".to_string())).err().unwrap();
    assert_eq!(e.message(), "Error: no");
    assert!(stopped_by_scaling(Ok(())).is_ok());
    let e = stopped_by_scaling(Err("no".to_string())).err().unwrap();
    assert_eq!(e.message(), "Error: no");
}

#[test]
fn tokens_are_masked_in_the_log() {
    assert_eq!(mask_token("abcdefghi"), "abc...ghi");
    assert_eq!(mask_token("abcdef"), "abc...def");
    assert_eq!(mask_token("abcde"), "***");
    assert_eq!(mask_token(""), "***");
    assert_eq!(mask_token("äöüxyzßéè"), "äöü...ßéè");
    assert_eq!(mask_token("abc-one-xyz"), mask_token("abc-another-xyz"));
}
