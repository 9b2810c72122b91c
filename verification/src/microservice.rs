//! # Microservice Management
//!
//! The control plane for the lifecycle of microservices: it decides how the
//! provider of a service is started and stopped.
//!
//! The cluster manager is selected by the prefix of `cluster_manager_urn`:
//! - `docker:`: local container management.
//! - `nomad:`: Nomad job and task scaling.
//! - `k8s:`: Kubernetes deployment scaling.

use vstd::prelude::*;
use vstd::string::*;

use crate::config::AvailabilityManagementConfig;
use crate::text::{has_prefix, join, join3, text_of};
use docker_backend::{
    container_name_of, start_container, stop_container, ContainerStart, ContainerStop, StartStage,
    StopStage,
};
use k8s_backend::{scale_deployment, DeploymentScale};
use nomad_backend::{scale_task, TaskScale};

pub mod docker_backend;
pub mod k8s_backend;
pub mod nomad_backend;

verus! {

/// A handle to a started container.
#[derive(Debug)]
pub struct ContainerHandle {
    /// Backend-specific container/task ID.
    pub id: String,
}

/// Errors that can occur during microservice startup, with the words of the
/// backend that failed.
#[derive(Debug)]
pub enum StartError {
    Docker(String),
    Nomad(String),
    K8s(String),
    Other(String),
}

/// Errors that can occur during microservice shutdown, with the words of the
/// backend that failed.
#[derive(Debug)]
pub enum StopError {
    Docker(String),
    Nomad(String),
    K8s(String),
    Other(String),
}

impl StartError {
    /// The error in words.
    pub fn message(&self) -> (r: String)
        ensures
            r@ == (match *self {
                StartError::Docker(m) => "Docker error: "@ + m@,
                StartError::Nomad(m) => "Nomad error: "@ + m@,
                StartError::K8s(m) => "Kubernetes error: "@ + m@,
                StartError::Other(m) => "Error: "@ + m@,
            }),
    {
        match self {
            StartError::Docker(m) => join("Docker error: ", m.as_str()),
            StartError::Nomad(m) => join("Nomad error: ", m.as_str()),
            StartError::K8s(m) => join("Kubernetes error: ", m.as_str()),
            StartError::Other(m) => join("Error: ", m.as_str()),
        }
    }
}

impl StopError {
    /// The error in words.
    pub fn message(&self) -> (r: String)
        ensures
            r@ == (match *self {
                StopError::Docker(m) => "Docker error: "@ + m@,
                StopError::Nomad(m) => "Nomad error: "@ + m@,
                StopError::K8s(m) => "Kubernetes error: "@ + m@,
                StopError::Other(m) => "Error: "@ + m@,
            }),
    {
        match self {
            StopError::Docker(m) => join("Docker error: ", m.as_str()),
            StopError::Nomad(m) => join("Nomad error: ", m.as_str()),
            StopError::K8s(m) => join("Kubernetes error: ", m.as_str()),
            StopError::Other(m) => join("Error: ", m.as_str()),
        }
    }
}

/// What is left of an access token in the log: the first and the last three
/// characters, or nothing of a short one.
pub open spec fn masked(token: Seq<char>) -> Seq<char> {
    if token.len() >= 6 {
        token.take(3) + "..."@ + token.skip(token.len() - 3)
    } else {
        "***"@
    }
}

/// Masks an access token for the log.
pub fn mask_token(token: &str) -> (r: String)
    ensures
        r@ == masked(token@),
{
    let n: usize = token.unicode_len();
    if n >= 6 {
        let head = token.substring_char(0, 3);
        let tail = token.substring_char(n - 3, n);
        proof {
            assert(head@ =~= token@.take(3));
            assert(tail@ =~= token@.skip(token@.len() - 3));
        }
        join3(head, "...", tail)
    } else {
        "***".to_owned()
    }
}

/// The log tells two tokens apart only by their first and last three characters.
pub proof fn law_log_hides_the_token(a: Seq<char>, b: Seq<char>)
    requires
        a.len() >= 6,
        b.len() >= 6,
        a.take(3) == b.take(3),
        a.skip(a.len() - 3) == b.skip(b.len() - 3),
    ensures
        masked(a) == masked(b),
{
}

/// The access token in the environment of the service.
pub open spec fn access_token_of(config: AvailabilityManagementConfig) -> Option<Seq<char>> {
    match config.env {
        Some(env) => if env@.contains_key("ACCESS_TOKEN"@) {
            Some(env@["ACCESS_TOKEN"@]@)
        } else {
            None
        },
        None => None,
    }
}

fn access_token(config: &AvailabilityManagementConfig) -> (r: Option<String>)
    requires
        config.wf(),
    ensures
        text_of(r) == access_token_of(*config),
{
    match &config.env {
        Some(env) => match env.get("ACCESS_TOKEN") {
            Some(token) => Some(token.as_str().to_owned()),
            None => None,
        },
        None => None,
    }
}

/// A value in the body of a request.
pub enum BodyValue {
    Text(String),
    Number(i32),
    Flag(bool),
}

/// One value in the body of a request, and where it stands.
pub struct BodyField {
    pub path: Vec<String>,
    pub value: BodyValue,
}

/// A value in the body of a request.
pub enum FieldValue {
    Text(Seq<char>),
    Number(int),
    Flag(bool),
}

impl View for BodyValue {
    type V = FieldValue;

    open spec fn view(&self) -> FieldValue {
        match *self {
            BodyValue::Text(s) => FieldValue::Text(s@),
            BodyValue::Number(n) => FieldValue::Number(n as int),
            BodyValue::Flag(b) => FieldValue::Flag(b),
        }
    }
}

impl BodyField {
    /// Whether this sets the value at `path` to `value`.
    pub open spec fn sets(self, path: Seq<Seq<char>>, value: FieldValue) -> bool {
        &&& self.path@.map_values(|s: String| s@) == path
        &&& self.value@ == value
    }
}

fn body_field(first: &str, second: Option<&str>, value: BodyValue) -> (r: BodyField)
    ensures
        r.sets(
            match second {
                Some(s) => seq![first@, s@],
                None => seq![first@],
            },
            value@,
        ),
{
    let mut path: Vec<String> = Vec::new();
    path.push(first.to_owned());
    match second {
        Some(s) => {
            path.push(s.to_owned());
            proof {
                assert(path@.map_values(|t: String| t@) =~= seq![first@, s@]);
            }
        },
        None => {
            proof {
                assert(path@.map_values(|t: String| t@) =~= seq![first@]);
            }
        },
    }
    BodyField { path, value }
}

/// The cluster managers, by the prefix of the URN.
pub enum ClusterManager {
    Kubernetes,
    Nomad,
    Docker,
}

/// The cluster manager that `urn` selects.
pub open spec fn cluster_manager_of(urn: Seq<char>) -> Option<ClusterManager> {
    if "k8s:"@.is_prefix_of(urn) {
        Some(ClusterManager::Kubernetes)
    } else if "nomad:"@.is_prefix_of(urn) {
        Some(ClusterManager::Nomad)
    } else if "docker:"@.is_prefix_of(urn) {
        Some(ClusterManager::Docker)
    } else {
        None
    }
}

/// The cluster manager that `urn` selects.
pub fn cluster_manager(urn: &str) -> (r: Option<ClusterManager>)
    ensures
        r == cluster_manager_of(urn@),
{
    if has_prefix(urn, "k8s:") {
        Some(ClusterManager::Kubernetes)
    } else if has_prefix(urn, "nomad:") {
        Some(ClusterManager::Nomad)
    } else if has_prefix(urn, "docker:") {
        Some(ClusterManager::Docker)
    } else {
        None
    }
}

/// How a provider is started.
pub enum StartPlan {
    Kubernetes(DeploymentScale),
    Nomad(TaskScale),
    Docker(ContainerStart),
}

/// How a provider is stopped.
pub enum StopPlan {
    Kubernetes(DeploymentScale),
    Nomad(TaskScale),
    Docker(ContainerStop),
}

/// The slice in `o`.
pub open spec fn slice_of(o: Option<Vec<String>>) -> Option<Seq<String>> {
    match o {
        Some(v) => Some(v@),
        None => None,
    }
}

fn as_slice(o: &Option<Vec<String>>) -> (r: Option<&[String]>)
    ensures
        match r {
            Some(s) => slice_of(*o) == Some(s@),
            None => *o is None,
        },
{
    match o {
        Some(v) => Some(v.as_slice()),
        None => None,
    }
}

/// Whether `plan` starts the provider of `config`, whose URN is `urn`.
pub open spec fn starts(
    plan: StartPlan,
    config: AvailabilityManagementConfig,
    urn: Seq<char>,
) -> bool {
    match plan {
        StartPlan::Kubernetes(scale) => {
            &&& cluster_manager_of(urn) == Some(ClusterManager::Kubernetes)
            &&& scale.scales(config, urn.skip("k8s:"@.len() as int), 1)
        },
        StartPlan::Nomad(scale) => {
            &&& cluster_manager_of(urn) == Some(ClusterManager::Nomad)
            &&& scale.scales(config, urn.skip("nomad:"@.len() as int), 1)
        },
        StartPlan::Docker(start) => {
            &&& cluster_manager_of(urn) == Some(ClusterManager::Docker)
            &&& start.name@ == container_name_of(config.service_id@)
            &&& start.body.describes(
                config.image@,
                slice_of(config.options),
                config.env,
                slice_of(config.command),
            )
            &&& start.stage == StartStage::Connect
        },
    }
}

/// Whether `plan` stops the provider of `config`, whose URN is `urn`.
pub open spec fn stops(
    plan: StopPlan,
    config: AvailabilityManagementConfig,
    urn: Seq<char>,
) -> bool {
    match plan {
        StopPlan::Kubernetes(scale) => {
            &&& cluster_manager_of(urn) == Some(ClusterManager::Kubernetes)
            &&& scale.scales(config, urn.skip("k8s:"@.len() as int), 0)
        },
        StopPlan::Nomad(scale) => {
            &&& cluster_manager_of(urn) == Some(ClusterManager::Nomad)
            &&& scale.scales(config, urn.skip("nomad:"@.len() as int), 0)
        },
        StopPlan::Docker(stop) => {
            &&& cluster_manager_of(urn) == Some(ClusterManager::Docker)
            &&& stop.name@ == container_name_of(config.service_id@)
            &&& stop.stage == StopStage::Connect
        },
    }
}

/// Routes the start request to the appropriate backend based on the URN prefix.
pub fn start_provider(config: &AvailabilityManagementConfig) -> (r: Result<StartPlan, StartError>)
    requires
        config.wf(),
    ensures
        match config.cluster_manager_urn {
            Some(urn) => if cluster_manager_of(urn@) is Some {
                r matches Ok(plan) && starts(plan, *config, urn@)
            } else {
                r matches Err(StartError::Other(m)) && m@ == "Unsupported cluster manager URN: "@
                    + urn@
            },
            None => r matches Err(StartError::Other(m)) && m@
                == "clusterManagerUrn is required but missing"@,
        },
{
    let urn = match &config.cluster_manager_urn {
        Some(urn) => urn.as_str(),
        None => {
            return Err(StartError::Other("clusterManagerUrn is required but missing".to_owned()));
        },
    };
    match cluster_manager(urn) {
        Some(ClusterManager::Kubernetes) => match scale_deployment(config, 1) {
            Ok(scale) => Ok(StartPlan::Kubernetes(scale)),
            Err(e) => Err(StartError::Other(e)),
        },
        Some(ClusterManager::Nomad) => match scale_task(config, 1) {
            Ok(scale) => Ok(StartPlan::Nomad(scale)),
            Err(e) => Err(StartError::Other(e)),
        },
        Some(ClusterManager::Docker) => Ok(
            StartPlan::Docker(
                start_container(
                    config.image.as_str(),
                    as_slice(&config.options),
                    config.service_id.as_str(),
                    match &config.env {
                        Some(env) => Some(env),
                        None => None,
                    },
                    as_slice(&config.command),
                ),
            ),
        ),
        None => Err(StartError::Other(join("Unsupported cluster manager URN: ", urn))),
    }
}

/// Routes the stop request to the appropriate backend based on the URN prefix.
pub fn stop_provider(config: &AvailabilityManagementConfig) -> (r: Result<StopPlan, StopError>)
    requires
        config.wf(),
    ensures
        match config.cluster_manager_urn {
            Some(urn) => if cluster_manager_of(urn@) is Some {
                r matches Ok(plan) && stops(plan, *config, urn@)
            } else {
                r matches Err(StopError::Other(m)) && m@
                    == "Unsupported or invalid cluster manager URN prefix: "@ + urn@
            },
            None => r matches Err(StopError::Other(m)) && m@
                == "clusterManagerUrn is required but missing"@,
        },
{
    let urn = match &config.cluster_manager_urn {
        Some(urn) => urn.as_str(),
        None => {
            return Err(StopError::Other("clusterManagerUrn is required but missing".to_owned()));
        },
    };
    match cluster_manager(urn) {
        Some(ClusterManager::Kubernetes) => match scale_deployment(config, 0) {
            Ok(scale) => Ok(StopPlan::Kubernetes(scale)),
            Err(e) => Err(StopError::Other(e)),
        },
        Some(ClusterManager::Nomad) => match scale_task(config, 0) {
            Ok(scale) => Ok(StopPlan::Nomad(scale)),
            Err(e) => Err(StopError::Other(e)),
        },
        Some(ClusterManager::Docker) => Ok(
            StopPlan::Docker(stop_container(config.service_id.as_str())),
        ),
        None => Err(
            StopError::Other(
                join("Unsupported or invalid cluster manager URN prefix: ", urn),
            ),
        ),
    }
}

/// What a start by scaling up came to. The service itself is the handle.
pub fn started_by_scaling(
    config: &AvailabilityManagementConfig,
    outcome: Result<(), String>,
) -> (r: Result<ContainerHandle, StartError>)
    ensures
        match outcome {
            Ok(_) => r matches Ok(handle) && handle.id@ == config.service_id@,
            Err(e) => r == Err::<ContainerHandle, StartError>(StartError::Other(e)),
        },
{
    match outcome {
        Ok(_) => Ok(ContainerHandle { id: config.service_id.as_str().to_owned() }),
        Err(e) => Err(StartError::Other(e)),
    }
}

/// What a stop by scaling down came to.
pub fn stopped_by_scaling(outcome: Result<(), String>) -> (r: Result<(), StopError>)
    ensures
        match outcome {
            Ok(_) => r is Ok,
            Err(e) => r == Err::<(), StopError>(StopError::Other(e)),
        },
{
    match outcome {
        Ok(_) => Ok(()),
        Err(e) => Err(StopError::Other(e)),
    }
}

/// A stop is aimed at what the start brought up: the same deployment, the same
/// task group or the same container, at the same place.
pub proof fn law_stop_is_aimed_at_what_was_started(
    config: AvailabilityManagementConfig,
    urn: Seq<char>,
    start: StartPlan,
    stop: StopPlan,
)
    requires
        starts(start, config, urn),
        stops(stop, config, urn),
    ensures
        match (start, stop) {
            (StartPlan::Kubernetes(up), StopPlan::Kubernetes(down)) => {
                &&& text_of(up.cluster_url) == text_of(down.cluster_url)
                &&& up.namespace@ == down.namespace@
                &&& up.name@ == down.name@
                &&& up.count == 1
                &&& down.count == 0
            },
            (StartPlan::Nomad(up), StopPlan::Nomad(down)) => {
                &&& up.url@ == down.url@
                &&& up.group@ == down.group@
                &&& up.count == 1
                &&& down.count == 0
            },
            (StartPlan::Docker(up), StopPlan::Docker(down)) => up.name@ == down.name@,
            _ => false,
        },
{
}

/// The log shows the first and the last three characters of a token of six or more,
/// with three dots between, and nothing of a shorter one.
pub proof fn law_masked_token_shows_both_ends(token: Seq<char>)
    ensures
        token.len() >= 6 ==> {
            &&& masked(token).len() == 9
            &&& forall|i: int| 0 <= i < 3 ==> #[trigger] masked(token)[i] == token[i]
            &&& forall|i: int| 3 <= i < 6 ==> #[trigger] masked(token)[i] == '.'
            &&& forall|i: int|
                6 <= i < 9 ==> #[trigger] masked(token)[i] == token[token.len() - 9 + i]
        },
        token.len() < 6 ==> masked(token) == seq!['*', '*', '*'],
{
    reveal_strlit("...");
    reveal_strlit("***");
    if token.len() < 6 {
        assert("***"@ =~= seq!['*', '*', '*']);
    }
}

/// The access token is the variable `ACCESS_TOKEN` of the environment, and there is
/// none without it.
pub proof fn law_access_token_comes_from_the_environment(config: AvailabilityManagementConfig)
    ensures
        config.env is None ==> access_token_of(config) is None,
        config.env matches Some(env) ==> (access_token_of(config) is Some
            <==> env@.contains_key("ACCESS_TOKEN"@)),
        config.env matches Some(env) ==> (env@.contains_key("ACCESS_TOKEN"@) ==> access_token_of(
            config,
        ) == Some(env@["ACCESS_TOKEN"@]@)),
{
}

/// A URN selects the cluster manager that it begins with, whatever follows, and no
/// other beginning selects one.
pub proof fn law_prefix_selects_the_cluster_manager(urn: Seq<char>, rest: Seq<char>)
    ensures
        cluster_manager_of("k8s:"@ + rest) == Some(ClusterManager::Kubernetes),
        cluster_manager_of("nomad:"@ + rest) == Some(ClusterManager::Nomad),
        cluster_manager_of("docker:"@ + rest) == Some(ClusterManager::Docker),
        cluster_manager_of(urn) == Some(ClusterManager::Kubernetes) ==> "k8s:"@.is_prefix_of(urn),
        cluster_manager_of(urn) == Some(ClusterManager::Nomad) ==> "nomad:"@.is_prefix_of(urn),
        cluster_manager_of(urn) == Some(ClusterManager::Docker) ==> "docker:"@.is_prefix_of(urn),
        cluster_manager_of(urn) is None ==> !"k8s:"@.is_prefix_of(urn) && !"nomad:"@.is_prefix_of(
            urn,
        ) && !"docker:"@.is_prefix_of(urn),
{
    reveal_strlit("k8s:");
    reveal_strlit("nomad:");
    reveal_strlit("docker:");
    let k = "k8s:"@ + rest;
    let n = "nomad:"@ + rest;
    let d = "docker:"@ + rest;
    assert(k.take("k8s:"@.len() as int) =~= "k8s:"@);
    assert(n.take("nomad:"@.len() as int) =~= "nomad:"@);
    assert(d.take("docker:"@.len() as int) =~= "docker:"@);
    assert(k[0] == 'k' && n[0] == 'n' && d[0] == 'd');
    if "k8s:"@.is_prefix_of(n) {
        assert(n.take("k8s:"@.len() as int)[0] == 'n');
    }
    if "k8s:"@.is_prefix_of(d) {
        assert(d.take("k8s:"@.len() as int)[0] == 'd');
    }
    if "nomad:"@.is_prefix_of(d) {
        assert(d.take("nomad:"@.len() as int)[0] == 'd');
    }
}

/// A start scales one replica or task up, or runs the container that the
/// configuration describes, at the place that the URN names.
pub proof fn law_start_brings_one_up(
    plan: StartPlan,
    config: AvailabilityManagementConfig,
    rest: Seq<char>,
)
    ensures
        starts(plan, config, "k8s:"@ + rest) ==> (plan matches StartPlan::Kubernetes(scale)
            && scale.scales(config, rest, 1) && scale.count == 1 && scale.name@
            == config.service_id@),
        starts(plan, config, "nomad:"@ + rest) ==> (plan matches StartPlan::Nomad(scale)
            && scale.scales(config, rest, 1) && scale.count == 1 && scale.group@ == config.image@),
        starts(plan, config, "docker:"@ + rest) ==> (plan matches StartPlan::Docker(start)
            && start.name@ == container_name_of(config.service_id@) && start.body.image@
            == config.image@ && start.stage == StartStage::Connect && start.body.describes(
            config.image@,
            slice_of(config.options),
            config.env,
            slice_of(config.command),
        )),
{
    law_prefix_selects_the_cluster_manager(rest, rest);
    assert(("k8s:"@ + rest).skip("k8s:"@.len() as int) =~= rest);
    assert(("nomad:"@ + rest).skip("nomad:"@.len() as int) =~= rest);
}

/// A stop scales down to none, or stops and removes the container of the service.
pub proof fn law_stop_takes_all_down(
    plan: StopPlan,
    config: AvailabilityManagementConfig,
    rest: Seq<char>,
)
    ensures
        stops(plan, config, "k8s:"@ + rest) ==> (plan matches StopPlan::Kubernetes(scale)
            && scale.scales(config, rest, 0) && scale.count == 0 && scale.name@
            == config.service_id@),
        stops(plan, config, "nomad:"@ + rest) ==> (plan matches StopPlan::Nomad(scale)
            && scale.scales(config, rest, 0) && scale.count == 0 && scale.group@ == config.image@),
        stops(plan, config, "docker:"@ + rest) ==> (plan matches StopPlan::Docker(stop)
            && stop.name@ == container_name_of(config.service_id@) && stop.stage
            == StopStage::Connect),
{
    law_prefix_selects_the_cluster_manager(rest, rest);
    assert(("k8s:"@ + rest).skip("k8s:"@.len() as int) =~= rest);
    assert(("nomad:"@ + rest).skip("nomad:"@.len() as int) =~= rest);
}

/// A field of a body stands at its path, name by name, and has its value.
pub proof fn law_field_has_its_place_and_value(
    field: BodyField,
    path: Seq<Seq<char>>,
    value: FieldValue,
)
    requires
        field.sets(path, value),
    ensures
        field.path@.len() == path.len(),
        forall|i: int| 0 <= i < path.len() ==> (#[trigger] field.path@[i])@ == path[i],
        match field.value {
            BodyValue::Text(s) => value == FieldValue::Text(s@),
            BodyValue::Number(n) => value == FieldValue::Number(n as int),
            BodyValue::Flag(b) => value == FieldValue::Flag(b),
        },
{
    let names = field.path@.map_values(|s: String| s@);
    assert(names.len() == field.path@.len());
    assert forall|i: int| 0 <= i < path.len() implies (#[trigger] field.path@[i])@ == path[i] by {
        assert(names[i] == field.path@[i]@);
    }
}

/// The options and the command of a configuration are handed on as they are.
pub proof fn law_lists_are_handed_on(o: Option<Vec<String>>)
    ensures
        o is None ==> slice_of(o) is None,
        o matches Some(v) ==> slice_of(o) == Some(v@),
{
}

} // verus!
