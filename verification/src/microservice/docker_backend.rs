//! Local containers.
//!
//! Starting and stopping a container takes several calls to the Docker API. A
//! [`ContainerStart`] or [`ContainerStop`] says which call comes next; the
//! answer moves it on.

use vstd::prelude::*;
use vstd::string::*;

use super::{ContainerHandle, StartError, StopError};
use crate::name_map::NameMap;
use crate::text::{
    alphanumeric, copy_texts, is_alphanumeric, join, join3, same_text, split_first, split_once, texts,
};

verus! {

/// The seconds that a container gets to stop.
pub const STOP_TIMEOUT_SECS: i32 = 10;

/// A port of the host that leads to a port of the container.
pub struct PortBinding {
    pub host_ip: String,
    pub host_port: String,
}

/// What the options of a container ask for.
pub struct ContainerOptions {
    pub network_mode: Option<String>,
    pub binds: Vec<String>,
    /// By container port.
    pub port_bindings: NameMap<Vec<PortBinding>>,
    pub privileged: bool,
    pub cap_add: Vec<String>,
}

/// The container to create.
pub struct ContainerBody {
    pub image: String,
    pub env: Option<Vec<String>>,
    pub cmd: Option<Vec<String>>,
    pub options: ContainerOptions,
}

/// `service_id` with an underscore in place of everything but letters and digits.
pub open spec fn sanitized(service_id: Seq<char>) -> Seq<char> {
    service_id.map_values(
        |c: char|
            if alphanumeric(c) {
                c
            } else {
                '_'
            },
    )
}

/// The name of the container of `service_id`.
pub open spec fn container_name_of(service_id: Seq<char>) -> Seq<char> {
    "spn_"@ + sanitized(service_id)
}

/// Generates the name of the container of `service_id`.
pub fn container_name(service_id: &str) -> (r: String)
    ensures
        r@ == container_name_of(service_id@),
{
    let n: usize = service_id.unicode_len();
    let mut r = "spn_".to_owned();
    let mut i: usize = 0;
    proof {
        reveal_strlit("_");
        assert("_"@ =~= seq!['_']);
        assert(sanitized(service_id@).take(0) =~= seq![]);
        assert(r@ =~= "spn_"@ + sanitized(service_id@).take(0));
    }
    while i < n
        invariant
            i <= n,
            n == service_id@.len(),
            "_"@ == seq!['_'],
            r@ == "spn_"@ + sanitized(service_id@).take(i as int),
        decreases n - i,
    {
        let ghost before = r@;
        if is_alphanumeric(service_id.get_char(i)) {
            r.append(service_id.substring_char(i, i + 1));
        } else {
            r.append("_");
        }
        proof {
            assert(sanitized(service_id@).take(i + 1) =~= sanitized(service_id@).take(i as int).push(
                sanitized(service_id@)[i as int],
            ));
            assert(r@ =~= before.push(sanitized(service_id@)[i as int]));
        }
        i = i + 1;
    }
    proof {
        assert(sanitized(service_id@).take(n as int) =~= sanitized(service_id@));
    }
    r
}

/// One setting that the options of a container make.
pub enum Directive {
    Publish(Seq<char>),
    Network(Seq<char>),
    Volume(Seq<char>),
    Privileged,
    CapAdd(Seq<char>),
}

/// The setting of a flag that is followed by a value, if it is one.
pub open spec fn valued_flag(flag: Seq<char>, value: Seq<char>) -> Option<Directive> {
    if flag == "-p"@ || flag == "--publish"@ {
        Some(Directive::Publish(value))
    } else if flag == "--network"@ {
        Some(Directive::Network(value))
    } else if flag == "-v"@ || flag == "--volume"@ {
        Some(Directive::Volume(value))
    } else if flag == "--cap-add"@ {
        Some(Directive::CapAdd(value))
    } else {
        None
    }
}

/// The settings in `options`. A flag that wants a value takes the next option;
/// at the end of the options it means nothing. Anything else is skipped.
pub open spec fn directives(options: Seq<String>) -> Seq<Directive>
    decreases options.len(),
{
    if options.len() == 0 {
        seq![]
    } else if options.len() > 1 && valued_flag(options[0]@, options[1]@) is Some {
        seq![valued_flag(options[0]@, options[1]@)->0] + directives(options.skip(2))
    } else if options[0]@ == "--privileged"@ {
        seq![Directive::Privileged] + directives(options.skip(1))
    } else {
        directives(options.skip(1))
    }
}

/// A host address and a host port.
pub type Binding = (Seq<char>, Seq<char>);

/// The settings of a container.
#[verifier::ext_equal]
pub struct Settings {
    pub network_mode: Option<Seq<char>>,
    pub binds: Seq<Seq<char>>,
    pub port_bindings: Map<Seq<char>, Seq<Binding>>,
    pub privileged: bool,
    pub cap_add: Seq<Seq<char>>,
}

impl Settings {
    /// No settings.
    pub open spec fn none() -> Settings {
        Settings {
            network_mode: None,
            binds: seq![],
            port_bindings: Map::empty(),
            privileged: false,
            cap_add: seq![],
        }
    }

    /// The bindings of the container port `port`.
    pub open spec fn bindings(self, port: Seq<char>) -> Seq<Binding> {
        if self.port_bindings.contains_key(port) {
            self.port_bindings[port]
        } else {
            seq![]
        }
    }

    /// The settings with one more. `host:container` publishes a TCP port of the
    /// container on all addresses of the host.
    pub open spec fn with(self, d: Directive) -> Settings {
        match d {
            Directive::Publish(v) => match split_first(v, ':') {
                Some((host, container)) => Settings {
                    port_bindings: self.port_bindings.insert(
                        container + "/tcp"@,
                        self.bindings(container + "/tcp"@).push(("0.0.0.0"@, host)),
                    ),
                    ..self
                },
                None => self,
            },
            Directive::Network(v) => Settings { network_mode: Some(v), ..self },
            Directive::Volume(v) => Settings { binds: self.binds.push(v), ..self },
            Directive::Privileged => Settings { privileged: true, ..self },
            Directive::CapAdd(v) => Settings { cap_add: self.cap_add.push(v), ..self },
        }
    }
}

/// The settings that `ds` make, one after the other.
pub open spec fn settings(ds: Seq<Directive>) -> Settings
    decreases ds.len(),
{
    if ds.len() == 0 {
        Settings::none()
    } else {
        settings(ds.drop_last()).with(ds.last())
    }
}

impl PortBinding {
    pub open spec fn binding(self) -> Binding {
        (self.host_ip@, self.host_port@)
    }
}

/// The host ports of `v`.
pub open spec fn bindings_of(v: Vec<PortBinding>) -> Seq<Binding> {
    v@.map_values(|b: PortBinding| b.binding())
}

impl View for ContainerOptions {
    type V = Settings;

    open spec fn view(&self) -> Settings {
        Settings {
            network_mode: match self.network_mode {
                Some(s) => Some(s@),
                None => None,
            },
            binds: texts(self.binds@),
            port_bindings: self.port_bindings@.map_values(|v: Vec<PortBinding>| bindings_of(v)),
            privileged: self.privileged,
            cap_add: texts(self.cap_add@),
        }
    }
}

impl ContainerOptions {
    fn publish(&mut self, value: &str)
        requires
            old(self).port_bindings.wf(),
        ensures
            final(self).port_bindings.wf(),
            final(self)@ == old(self)@.with(Directive::Publish(value@)),
    {
        match split_once(value, ':') {
            Some((host, container)) => {
                let container_port = join(container, "/tcp");
                let binding = PortBinding {
                    host_ip: "0.0.0.0".to_owned(),
                    host_port: host.to_owned(),
                };
                let mut bindings: Vec<PortBinding> = match self.port_bindings.remove(
                    container_port.as_str(),
                ) {
                    Some(v) => v,
                    None => Vec::new(),
                };
                let ghost before = bindings;
                bindings.push(binding);
                proof {
                    assert(bindings_of(before) =~= old(self)@.bindings(container_port@));
                    assert(bindings_of(bindings) =~= bindings_of(before).push(binding.binding()));
                }
                self.port_bindings.insert(container_port, bindings);
                proof {
                    assert(self@.port_bindings =~= old(self)@.with(
                        Directive::Publish(value@),
                    ).port_bindings);
                }
            },
            None => {},
        }
    }

    fn apply(&mut self, flag: &str, value: &str) -> (r: bool)
        requires
            old(self).port_bindings.wf(),
        ensures
            final(self).port_bindings.wf(),
            match valued_flag(flag@, value@) {
                Some(d) => r && final(self)@ == old(self)@.with(d),
                None => !r && *final(self) == *old(self),
            },
    {
        if same_text(flag, "-p") || same_text(flag, "--publish") {
            self.publish(value);
            true
        } else if same_text(flag, "--network") {
            self.network_mode = Some(value.to_owned());
            true
        } else if same_text(flag, "-v") || same_text(flag, "--volume") {
            self.binds.push(value.to_owned());
            proof {
                assert(self@.binds =~= old(self)@.binds.push(value@));
            }
            true
        } else if same_text(flag, "--cap-add") {
            self.cap_add.push(value.to_owned());
            proof {
                assert(self@.cap_add =~= old(self)@.cap_add.push(value@));
            }
            true
        } else {
            false
        }
    }
}

/// Reads the options of a container.
pub fn parse_options(options: &[String]) -> (r: ContainerOptions)
    ensures
        r.port_bindings.wf(),
        r@ == settings(directives(options@)),
{
    let mut parsed = ContainerOptions {
        network_mode: None,
        binds: Vec::new(),
        port_bindings: NameMap::new(),
        privileged: false,
        cap_add: Vec::new(),
    };
    let ghost mut done: Seq<Directive> = seq![];
    let mut i: usize = 0;
    proof {
        assert(parsed@ =~= Settings::none());
        assert(options@.skip(0) =~= options@);
        assert(done + directives(options@) =~= directives(options@));
    }
    while i < options.len()
        invariant
            i <= options@.len(),
            parsed.port_bindings.wf(),
            parsed@ == settings(done),
            done + directives(options@.skip(i as int)) == directives(options@),
        decreases options@.len() - i,
    {
        let ghost rest = options@.skip(i as int);
        let ghost before = done;
        if i + 1 < options.len() && parsed.apply(options[i].as_str(), options[i + 1].as_str()) {
            proof {
                let d = valued_flag(rest[0]@, rest[1]@)->0;
                done = before.push(d);
                assert(done.drop_last() =~= before);
                assert(rest.skip(2) =~= options@.skip(i + 2));
                assert(before + (seq![d] + directives(rest.skip(2))) =~= done + directives(rest.skip(2)));
            }
            i = i + 2;
        } else {
            if same_text(options[i].as_str(), "--privileged") {
                parsed.privileged = true;
                proof {
                    done = before.push(Directive::Privileged);
                    assert(done.drop_last() =~= before);
                    assert(before + (seq![Directive::Privileged] + directives(rest.skip(1))) =~= done
                        + directives(rest.skip(1)));
                }
            }
            proof {
                assert(rest.skip(1) =~= options@.skip(i + 1));
            }
            i = i + 1;
        }
    }
    proof {
        assert(done + directives(options@.skip(i as int)) =~= done);
    }
    parsed
}

/// The environment as `name=value` lines.
pub open spec fn env_lines(env: NameMap<String>) -> Seq<Seq<char>> {
    Seq::new(env.names().len(), |i: int| env.names()[i] + "="@ + env@[env.names()[i]]@)
}

fn env_vars(env: &NameMap<String>) -> (r: Vec<String>)
    requires
        env.wf(),
    ensures
        texts(r@) == env_lines(*env),
{
    let mut r: Vec<String> = Vec::new();
    let mut i: usize = 0;
    let n: usize = env.len();
    while i < n
        invariant
            env.wf(),
            n == env.names().len(),
            i <= n,
            r@.len() == i,
            forall|j: int| 0 <= j < i ==> #[trigger] r@[j]@ == env_lines(*env)[j],
        decreases n - i,
    {
        r.push(join3(env.name_at(i), "=", env.value_at(i).as_str()));
        i = i + 1;
    }
    proof {
        assert(texts(r@) =~= env_lines(*env));
    }
    r
}

impl ContainerBody {
    /// Whether this is the container that the arguments of [`start_container`] ask for.
    pub open spec fn describes(
        self,
        image: Seq<char>,
        options: Option<Seq<String>>,
        env: Option<NameMap<String>>,
        command: Option<Seq<String>>,
    ) -> bool {
        &&& self.image@ == image
        &&& self.options.port_bindings.wf()
        &&& self.options@ == (match options {
            Some(o) => settings(directives(o)),
            None => Settings::none(),
        })
        &&& match (self.env, env) {
            (Some(lines), Some(map)) => texts(lines@) == env_lines(map),
            (None, None) => true,
            _ => false,
        }
        &&& match (self.cmd, command) {
            (Some(words), Some(given)) => texts(words@) == texts(given),
            (None, None) => true,
            _ => false,
        }
    }
}

/// A call to the Docker API that failed: the status that the daemon answered
/// with, if it answered, and the error in words.
pub struct DockerFailure {
    pub status: Option<u16>,
    pub message: String,
}

/// Where the start of a container stands, and so which call comes next.
pub enum StartStage {
    /// Connect to the daemon.
    Connect,
    /// Create the container.
    Create,
    /// The name is taken: ask for the container that has it.
    Inspect,
    /// Start the container with this id.
    Start(String),
    /// Nothing is left to do.
    Done(Result<ContainerHandle, StartError>),
}

/// What a call of [`ContainerStart`] came back with.
pub enum StartEvent {
    Connected(Result<(), DockerFailure>),
    /// The id of the new container.
    Created(Result<String, DockerFailure>),
    /// The id of the container that was there.
    Inspected(Result<Option<String>, DockerFailure>),
    Started(Result<(), DockerFailure>),
}

/// The start of a container.
pub struct ContainerStart {
    pub name: String,
    pub body: ContainerBody,
    pub stage: StartStage,
}

/// Whether `event` is the outcome of the call that `stage` asks for.
pub open spec fn start_answers(stage: StartStage, event: StartEvent) -> bool {
    match stage {
        StartStage::Connect => event is Connected,
        StartStage::Create => event is Created,
        StartStage::Inspect => event is Inspected,
        StartStage::Start(_) => event is Started,
        StartStage::Done(_) => false,
    }
}

/// The outcome of a start that failed in a Docker call.
pub open spec fn start_failed(failure: DockerFailure) -> StartStage {
    StartStage::Done(Err(StartError::Docker(failure.message)))
}

/// How `event` moves a start from `stage` to `next`.
pub open spec fn start_step(stage: StartStage, event: StartEvent, next: StartStage) -> bool {
    match event {
        StartEvent::Connected(Ok(_)) => next == StartStage::Create,
        StartEvent::Connected(Err(f)) => next == start_failed(f),
        StartEvent::Created(Ok(id)) => next == StartStage::Start(id),
        StartEvent::Created(Err(f)) => next == (if f.status == Some(409u16) {
            StartStage::Inspect
        } else {
            start_failed(f)
        }),
        StartEvent::Inspected(Ok(Some(id))) => next == StartStage::Start(id),
        StartEvent::Inspected(Ok(None)) => match next {
            StartStage::Done(Err(StartError::Other(m))) => m@ == "Container exists but has no ID"@,
            _ => false,
        },
        StartEvent::Inspected(Err(f)) => next == start_failed(f),
        StartEvent::Started(outcome) => {
            let running = match outcome {
                Ok(_) => true,
                Err(f) => f.status == Some(304u16),
            };
            if running {
                next == StartStage::Done(Ok(ContainerHandle { id: stage->Start_0 }))
            } else {
                next == start_failed(outcome->Err_0)
            }
        },
    }
}

/// Starts a Docker container: creates it, or finds the one that has its name,
/// and starts it.
pub fn start_container(
    image: &str,
    options: Option<&[String]>,
    service_id: &str,
    env: Option<&NameMap<String>>,
    command: Option<&[String]>,
) -> (r: ContainerStart)
    requires
        env matches Some(map) ==> map.wf(),
    ensures
        r.name@ == container_name_of(service_id@),
        r.body.describes(
            image@,
            match options {
                Some(o) => Some(o@),
                None => None,
            },
            match env {
                Some(map) => Some(*map),
                None => None,
            },
            match command {
                Some(words) => Some(words@),
                None => None,
            },
        ),
        r.stage == StartStage::Connect,
{
    let none: [String; 0] = [];
    let options = match options {
        Some(o) => parse_options(o),
        None => {
            proof {
                assert(directives(none@) =~= seq![]);
            }
            parse_options(&none)
        },
    };
    ContainerStart {
        name: container_name(service_id),
        body: ContainerBody {
            image: image.to_owned(),
            env: match env {
                Some(map) => Some(env_vars(map)),
                None => None,
            },
            cmd: match command {
                Some(words) => Some(copy_texts(words)),
                None => None,
            },
            options,
        },
        stage: StartStage::Connect,
    }
}

impl ContainerStart {
    /// Takes in the outcome of the call that the stage asks for.
    pub fn advance(self, event: StartEvent) -> (r: ContainerStart)
        requires
            start_answers(self.stage, event),
        ensures
            r.name == self.name,
            r.body == self.body,
            start_step(self.stage, event, r.stage),
    {
        let stage = match event {
            StartEvent::Connected(Ok(_)) => StartStage::Create,
            StartEvent::Connected(Err(f)) => StartStage::Done(Err(StartError::Docker(f.message))),
            StartEvent::Created(Ok(id)) => StartStage::Start(id),
            StartEvent::Created(Err(f)) => {
                if f.status == Some(409u16) {
                    StartStage::Inspect
                } else {
                    StartStage::Done(Err(StartError::Docker(f.message)))
                }
            },
            StartEvent::Inspected(Ok(Some(id))) => StartStage::Start(id),
            StartEvent::Inspected(Ok(None)) => StartStage::Done(
                Err(StartError::Other("Container exists but has no ID".to_owned())),
            ),
            StartEvent::Inspected(Err(f)) => StartStage::Done(Err(StartError::Docker(f.message))),
            StartEvent::Started(outcome) => {
                let id = match self.stage {
                    StartStage::Start(id) => id,
                    // Nothing is started in any other stage.
                    _ => "".to_owned(),
                };
                match outcome {
                    Ok(_) => StartStage::Done(Ok(ContainerHandle { id })),
                    Err(f) => {
                        if f.status == Some(304u16) {
                            StartStage::Done(Ok(ContainerHandle { id }))
                        } else {
                            StartStage::Done(Err(StartError::Docker(f.message)))
                        }
                    },
                }
            },
        };
        ContainerStart { name: self.name, body: self.body, stage }
    }
}

/// Where the stop of a container stands, and so which call comes next.
pub enum StopStage {
    /// Connect to the daemon.
    Connect,
    /// Stop the container, which gets [`STOP_TIMEOUT_SECS`] for it.
    Stop,
    /// Remove the container by force.
    Remove,
    /// Nothing is left to do.
    Done(Result<(), StopError>),
}

/// What a call of [`ContainerStop`] came back with.
pub enum StopEvent {
    Connected(Result<(), DockerFailure>),
    Stopped(Result<(), DockerFailure>),
    Removed(Result<(), DockerFailure>),
}

/// The stop of a container.
pub struct ContainerStop {
    pub name: String,
    pub stage: StopStage,
}

/// Whether `event` is the outcome of the call that `stage` asks for.
pub open spec fn stop_answers(stage: StopStage, event: StopEvent) -> bool {
    match stage {
        StopStage::Connect => event is Connected,
        StopStage::Stop => event is Stopped,
        StopStage::Remove => event is Removed,
        StopStage::Done(_) => false,
    }
}

/// Where `event` takes a stop.
pub open spec fn stop_next(event: StopEvent) -> StopStage {
    match event {
        StopEvent::Connected(Ok(_)) => StopStage::Stop,
        StopEvent::Connected(Err(f)) => StopStage::Done(Err(StopError::Docker(f.message))),
        StopEvent::Stopped(Ok(_)) => StopStage::Remove,
        StopEvent::Stopped(Err(f)) => if f.status == Some(404u16) {
            StopStage::Remove
        } else {
            StopStage::Done(Err(StopError::Docker(f.message)))
        },
        StopEvent::Removed(_) => StopStage::Done(Ok(())),
    }
}

/// Stops and removes a Docker container.
pub fn stop_container(service_id: &str) -> (r: ContainerStop)
    ensures
        r.name@ == container_name_of(service_id@),
        r.stage == StopStage::Connect,
{
    ContainerStop { name: container_name(service_id), stage: StopStage::Connect }
}

impl ContainerStop {
    /// Takes in the outcome of the call that the stage asks for. A container that
    /// is not there counts as stopped, and a failed removal is not an error.
    pub fn advance(self, event: StopEvent) -> (r: ContainerStop)
        requires
            stop_answers(self.stage, event),
        ensures
            r.name == self.name,
            r.stage == stop_next(event),
    {
        let stage = match event {
            StopEvent::Connected(Ok(_)) => StopStage::Stop,
            StopEvent::Connected(Err(f)) => StopStage::Done(Err(StopError::Docker(f.message))),
            StopEvent::Stopped(Ok(_)) => StopStage::Remove,
            StopEvent::Stopped(Err(f)) => {
                if f.status == Some(404u16) {
                    StopStage::Remove
                } else {
                    StopStage::Done(Err(StopError::Docker(f.message)))
                }
            },
            StopEvent::Removed(_) => StopStage::Done(Ok(())),
        };
        ContainerStop { name: self.name, stage }
    }
}

/// The calls that a start still makes, at most.
pub open spec fn calls_to_start(stage: StartStage) -> nat {
    match stage {
        StartStage::Connect => 4,
        StartStage::Create => 3,
        StartStage::Inspect => 2,
        StartStage::Start(_) => 1,
        StartStage::Done(_) => 0,
    }
}

/// The calls that a stop still makes, at most.
pub open spec fn calls_to_stop(stage: StopStage) -> nat {
    match stage {
        StopStage::Connect => 3,
        StopStage::Stop => 2,
        StopStage::Remove => 1,
        StopStage::Done(_) => 0,
    }
}

/// A start ends after at most four calls, whatever they come back with.
pub proof fn law_start_ends(stage: StartStage, event: StartEvent, next: StartStage)
    requires
        start_answers(stage, event),
        start_step(stage, event, next),
    ensures
        calls_to_start(next) < calls_to_start(stage),
{
}

/// A stop ends after at most three calls, whatever they come back with.
pub proof fn law_stop_ends(stage: StopStage, event: StopEvent)
    requires
        stop_answers(stage, event),
    ensures
        calls_to_stop(stop_next(event)) < calls_to_stop(stage),
{
}

/// A start succeeds only when the daemon has started the container or says that
/// it is running already, and the handle names that container.
pub proof fn law_started_container_runs(stage: StartStage, event: StartEvent, next: StartStage)
    requires
        start_answers(stage, event),
        start_step(stage, event, next),
    ensures
        next matches StartStage::Done(Ok(handle)) ==> stage == StartStage::Start(handle.id) && (
        event matches StartEvent::Started(outcome) && (outcome matches Err(f) ==> f.status == Some(
            304u16,
        ))),
{
}

/// Starting a container that exists and runs already succeeds with the id of
/// that container.
pub proof fn law_start_is_idempotent(
    taken: DockerFailure,
    id: String,
    running: DockerFailure,
    s1: StartStage,
    s2: StartStage,
    s3: StartStage,
)
    requires
        taken.status == Some(409u16),
        running.status == Some(304u16),
        start_step(StartStage::Create, StartEvent::Created(Err(taken)), s1),
        start_step(s1, StartEvent::Inspected(Ok(Some(id))), s2),
        start_step(s2, StartEvent::Started(Err(running)), s3),
    ensures
        s3 == StartStage::Done(Ok(ContainerHandle { id })),
{
}

/// Stopping a container that does not exist succeeds.
pub proof fn law_stop_is_idempotent(missing: DockerFailure, removal: Result<(), DockerFailure>)
    requires
        missing.status == Some(404u16),
    ensures
        stop_next(StopEvent::Stopped(Err(missing))) == StopStage::Remove,
        stop_next(StopEvent::Removed(removal)) == StopStage::Done(Ok(())),
{
}

/// Behind its prefix, the name of a container holds letters, digits and
/// underscores only.
pub proof fn law_container_name_is_sanitized(service_id: Seq<char>, i: int)
    requires
        "spn_"@.len() <= i < container_name_of(service_id).len(),
    ensures
        alphanumeric(container_name_of(service_id)[i]) || container_name_of(service_id)[i] == '_',
{
}

/// A container is privileged only where its options say so.
pub proof fn law_privileged_only_on_demand(ds: Seq<Directive>)
    ensures
        settings(ds).privileged == ds.contains(Directive::Privileged),
    decreases ds.len(),
{
    if ds.len() > 0 {
        law_privileged_only_on_demand(ds.drop_last());
        if ds.drop_last().contains(Directive::Privileged) {
            let i = choose|i: int|
                0 <= i < ds.drop_last().len() && ds.drop_last()[i] == Directive::Privileged;
            assert(ds[i] == Directive::Privileged);
        }
        if ds.contains(Directive::Privileged) && ds.last() != Directive::Privileged {
            let i = choose|i: int| 0 <= i < ds.len() && ds[i] == Directive::Privileged;
            assert(ds.drop_last()[i] == Directive::Privileged);
        }
    }
}

/// The name of a container is `spn_` and the service with an underscore in place of
/// each character that is no letter or digit.
pub proof fn law_container_name_keeps_letters_and_digits(service_id: Seq<char>, i: int)
    requires
        0 <= i < service_id.len(),
    ensures
        container_name_of(service_id).len() == 4 + service_id.len(),
        container_name_of(service_id)[0] == 's',
        container_name_of(service_id)[1] == 'p',
        container_name_of(service_id)[2] == 'n',
        container_name_of(service_id)[3] == '_',
        alphanumeric(service_id[i]) ==> container_name_of(service_id)[4 + i] == service_id[i],
        !alphanumeric(service_id[i]) ==> container_name_of(service_id)[4 + i] == '_',
{
    reveal_strlit("spn_");
    assert(container_name_of(service_id)[4 + i] == sanitized(service_id)[i]);
}

/// Whether `flag` is one of the flags that want a value.
pub open spec fn wants_value(flag: Seq<char>) -> bool {
    ||| flag == "-p"@
    ||| flag == "--publish"@
    ||| flag == "--network"@
    ||| flag == "-v"@
    ||| flag == "--volume"@
    ||| flag == "--cap-add"@
}

proof fn lemma_flags_differ()
    ensures
        "--network"@ != "-p"@,
        "--network"@ != "--publish"@,
        "-v"@ != "-p"@,
        "-v"@ != "--publish"@,
        "-v"@ != "--network"@,
        "--volume"@ != "-p"@,
        "--volume"@ != "--publish"@,
        "--volume"@ != "--network"@,
        "--cap-add"@ != "-p"@,
        "--cap-add"@ != "--publish"@,
        "--cap-add"@ != "--network"@,
        "--cap-add"@ != "-v"@,
        "--cap-add"@ != "--volume"@,
        !wants_value("--privileged"@),
{
    reveal_strlit("-p");
    reveal_strlit("--publish");
    reveal_strlit("--network");
    reveal_strlit("-v");
    reveal_strlit("--volume");
    reveal_strlit("--cap-add");
    reveal_strlit("--privileged");
    assert("-v"@[1] != "-p"@[1]);
    assert("--network"@[2] != "--publish"@[2]);
    assert("--network"@[2] != "--cap-add"@[2]);
    assert("--publish"@[2] != "--cap-add"@[2]);
    assert("--volume"@.len() == 8);
    assert("--network"@.len() == 9);
    assert("--publish"@.len() == 9);
    assert("--cap-add"@.len() == 9);
    assert("-p"@.len() == 2 && "-v"@.len() == 2);
    assert("--privileged"@.len() == 12);
}

/// A flag that wants a value and has an option behind it makes its setting of that
/// option, whatever that is, and both are used up.
pub proof fn law_flag_takes_the_next_option(options: Seq<String>)
    requires
        options.len() >= 2,
    ensures
        ({
            let flag = options[0]@;
            let value = options[1]@;
            let rest = directives(options.skip(2));
            &&& flag == "-p"@ || flag == "--publish"@ ==> directives(options) == seq![
                Directive::Publish(value),
            ] + rest
            &&& flag == "--network"@ ==> directives(options) == seq![Directive::Network(value)]
                + rest
            &&& flag == "-v"@ || flag == "--volume"@ ==> directives(options) == seq![
                Directive::Volume(value),
            ] + rest
            &&& flag == "--cap-add"@ ==> directives(options) == seq![Directive::CapAdd(value)]
                + rest
        }),
{
    lemma_flags_differ();
}

/// `--privileged` stands for itself. Any other option that is not used up as a value
/// is passed over, and a flag at the end that wants a value is too.
pub proof fn law_other_options_are_passed_over(options: Seq<String>)
    requires
        options.len() >= 1,
    ensures
        options[0]@ == "--privileged"@ ==> directives(options) == seq![Directive::Privileged]
            + directives(options.skip(1)),
        options[0]@ != "--privileged"@ && !wants_value(options[0]@) ==> directives(options)
            == directives(options.skip(1)),
        options.len() == 1 && wants_value(options[0]@) ==> directives(options) == Seq::<
            Directive,
        >::empty(),
{
    lemma_flags_differ();
    if options.len() == 1 {
        assert(options.skip(1) =~= Seq::<String>::empty());
        assert(directives(options.skip(1)) =~= Seq::<Directive>::empty());
    }
}

proof fn lemma_filter_last(ds: Seq<Directive>, p: spec_fn(Directive) -> bool)
    requires
        ds.len() > 0,
    ensures
        ds.filter(p) == (if p(ds.last()) {
            ds.drop_last().filter(p).push(ds.last())
        } else {
            ds.drop_last().filter(p)
        }),
{
    reveal(Seq::filter);
}

/// The capabilities of a container are those of all `--cap-add`, in order.
pub proof fn law_every_capability_is_added(ds: Seq<Directive>)
    ensures
        settings(ds).cap_add == ds.filter(|d: Directive| d is CapAdd).map_values(
            |d: Directive| d->CapAdd_0,
        ),
        forall|i: int|
            0 <= i < ds.len() && (#[trigger] ds[i]) is CapAdd ==> settings(ds).cap_add.contains(
                ds[i]->CapAdd_0,
            ),
    decreases ds.len(),
{
    let p = |d: Directive| d is CapAdd;
    let f = |d: Directive| d->CapAdd_0;
    if ds.len() == 0 {
        reveal(Seq::filter);
        assert(ds.filter(p).map_values(f) =~= Seq::<Seq<char>>::empty());
    } else {
        let front = ds.drop_last();
        law_every_capability_is_added(front);
        lemma_filter_last(ds, p);
        if p(ds.last()) {
            assert(ds.filter(p).map_values(f) =~= front.filter(p).map_values(f).push(
                f(ds.last()),
            ));
        }
        let all = settings(ds).cap_add;
        let some = settings(front).cap_add;
        assert forall|i: int| 0 <= i < ds.len() && (#[trigger] ds[i]) is CapAdd implies all.contains(
            ds[i]->CapAdd_0,
        ) by {
            if i < front.len() {
                assert(front[i] == ds[i]);
                assert(some.contains(ds[i]->CapAdd_0));
                let k = choose|k: int| 0 <= k < some.len() && some[k] == ds[i]->CapAdd_0;
                assert(all[k] == some[k]);
            } else {
                assert(all[all.len() - 1] == ds[i]->CapAdd_0);
            }
        }
    }
}

/// The volumes of a container are those of all `-v` and `--volume`, in order.
pub proof fn law_every_volume_is_bound(ds: Seq<Directive>)
    ensures
        settings(ds).binds == ds.filter(|d: Directive| d is Volume).map_values(
            |d: Directive| d->Volume_0,
        ),
        forall|i: int|
            0 <= i < ds.len() && (#[trigger] ds[i]) is Volume ==> settings(ds).binds.contains(
                ds[i]->Volume_0,
            ),
    decreases ds.len(),
{
    let p = |d: Directive| d is Volume;
    let f = |d: Directive| d->Volume_0;
    if ds.len() == 0 {
        reveal(Seq::filter);
        assert(ds.filter(p).map_values(f) =~= Seq::<Seq<char>>::empty());
    } else {
        let front = ds.drop_last();
        law_every_volume_is_bound(front);
        lemma_filter_last(ds, p);
        if p(ds.last()) {
            assert(ds.filter(p).map_values(f) =~= front.filter(p).map_values(f).push(
                f(ds.last()),
            ));
        }
        let all = settings(ds).binds;
        let some = settings(front).binds;
        assert forall|i: int| 0 <= i < ds.len() && (#[trigger] ds[i]) is Volume implies all.contains(
            ds[i]->Volume_0,
        ) by {
            if i < front.len() {
                assert(front[i] == ds[i]);
                assert(some.contains(ds[i]->Volume_0));
                let k = choose|k: int| 0 <= k < some.len() && some[k] == ds[i]->Volume_0;
                assert(all[k] == some[k]);
            } else {
                assert(all[all.len() - 1] == ds[i]->Volume_0);
            }
        }
    }
}

/// The network of a container is that of the last `--network`, and none without one.
pub proof fn law_last_network_wins(ds: Seq<Directive>, i: int)
    ensures
        (forall|k: int| 0 <= k < ds.len() ==> !((#[trigger] ds[k]) is Network)) ==> settings(
            ds,
        ).network_mode is None,
        0 <= i < ds.len() && ds[i] is Network && (forall|k: int|
            i < k < ds.len() ==> !((#[trigger] ds[k]) is Network)) ==> settings(ds).network_mode
            == Some(ds[i]->Network_0),
    decreases ds.len(),
{
    if ds.len() > 0 {
        let front = ds.drop_last();
        let last = ds.len() - 1;
        law_last_network_wins(front, i);
        if forall|k: int| 0 <= k < ds.len() ==> !((#[trigger] ds[k]) is Network) {
            assert(!(ds[last] is Network));
            assert forall|k: int| 0 <= k < front.len() implies !((#[trigger] front[k]) is Network) by {
                assert(!(ds[k] is Network));
            }
        }
        if 0 <= i < last && ds[i] is Network && (forall|k: int|
            i < k < ds.len() ==> !((#[trigger] ds[k]) is Network)) {
            assert(front[i] == ds[i]);
            assert(!(ds[last] is Network));
            assert forall|k: int| i < k < front.len() implies !((#[trigger] front[k]) is Network) by {
                assert(!(ds[k] is Network));
            }
        }
    }
}

/// Whether `d` publishes the TCP port `port` of the container: its value is a host
/// port, a colon and that port.
pub open spec fn publishes(d: Directive, port: Seq<char>) -> bool {
    d is Publish && (split_first(d->Publish_0, ':') matches Some((host, container)) && container
        + "/tcp"@ == port)
}

/// The host port that `d` publishes something on.
pub open spec fn host_port_of(d: Directive) -> Seq<char> {
    match split_first(d->Publish_0, ':') {
        Some((host, container)) => host,
        None => Seq::empty(),
    }
}

/// A port of a container is bound to every host port that it is published on, in
/// order and on all addresses, and to no other.
pub proof fn law_every_published_port_is_bound(ds: Seq<Directive>, port: Seq<char>)
    ensures
        settings(ds).port_bindings.contains_key(port) <==> exists|i: int|
            0 <= i < ds.len() && publishes(#[trigger] ds[i], port),
        settings(ds).port_bindings.contains_key(port) ==> settings(ds).port_bindings[port]
            == ds.filter(|d: Directive| publishes(d, port)).map_values(
            |d: Directive| ("0.0.0.0"@, host_port_of(d)),
        ),
        !settings(ds).port_bindings.contains_key(port) ==> ds.filter(
            |d: Directive| publishes(d, port),
        ).len() == 0,
    decreases ds.len(),
{
    let p = |d: Directive| publishes(d, port);
    let f = |d: Directive| ("0.0.0.0"@, host_port_of(d));
    if ds.len() == 0 {
        reveal(Seq::filter);
    } else {
        let front = ds.drop_last();
        let last = ds.len() - 1;
        law_every_published_port_is_bound(front, port);
        lemma_filter_last(ds, p);
        if p(ds.last()) {
            assert(publishes(ds[last], port));
            assert(ds.filter(p).map_values(f) =~= front.filter(p).map_values(f).push(
                f(ds.last()),
            ));
            if !settings(front).port_bindings.contains_key(port) {
                assert(front.filter(p).map_values(f) =~= Seq::<Binding>::empty());
            }
        }
        if exists|i: int| 0 <= i < front.len() && publishes(#[trigger] front[i], port) {
            let i = choose|i: int| 0 <= i < front.len() && publishes(#[trigger] front[i], port);
            assert(publishes(ds[i], port));
        }
        if exists|i: int| 0 <= i < ds.len() && publishes(#[trigger] ds[i], port) {
            let i = choose|i: int| 0 <= i < ds.len() && publishes(#[trigger] ds[i], port);
            if i < front.len() {
                assert(publishes(front[i], port));
            }
        }
    }
}

/// The environment has one line for each variable: its name, an equals sign and its
/// value.
pub proof fn law_every_variable_has_its_line(env: NameMap<String>, i: int)
    requires
        0 <= i < env.names().len(),
    ensures
        env_lines(env).len() == env.names().len(),
        env_lines(env)[i] == env.names()[i] + "="@ + env@[env.names()[i]]@,
{
}

/// The container that is created has the image, the environment and the command that
/// were asked for, and the settings of its options.
pub proof fn law_container_is_as_asked_for(
    body: ContainerBody,
    image: Seq<char>,
    options: Option<Seq<String>>,
    env: Option<NameMap<String>>,
    command: Option<Seq<String>>,
)
    requires
        body.describes(image, options, env, command),
    ensures
        body.image@ == image,
        options matches Some(o) ==> body.options@ == settings(directives(o)),
        options is None ==> body.options@ == settings(Seq::<Directive>::empty()),
        body.env is Some <==> env is Some,
        env matches Some(map) ==> (body.env matches Some(lines) && lines@.len()
            == map.names().len() && forall|i: int|
            0 <= i < lines@.len() ==> (#[trigger] lines@[i])@ == map.names()[i] + "="@
                + map@[map.names()[i]]@),
        body.cmd is Some <==> command is Some,
        command matches Some(given) ==> (body.cmd matches Some(words) && words@.len()
            == given.len() && forall|i: int|
            0 <= i < words@.len() ==> (#[trigger] words@[i])@ == given[i]@),
{
    if body.env is Some {
        let lines = body.env->0;
        let map = env->0;
        assert(texts(lines@).len() == env_lines(map).len());
        assert forall|i: int| 0 <= i < lines@.len() implies (#[trigger] lines@[i])@
            == map.names()[i] + "="@ + map@[map.names()[i]]@ by {
            assert(texts(lines@)[i] == env_lines(map)[i]);
        }
    }
    if body.cmd is Some {
        let words = body.cmd->0;
        let given = command->0;
        assert(texts(words@).len() == texts(given).len());
        assert forall|i: int| 0 <= i < words@.len() implies (#[trigger] words@[i])@ == given[i]@ by {
            assert(texts(words@)[i] == texts(given)[i]);
        }
    }
}

/// What the options read into says what they make.
pub proof fn law_options_show_their_settings(o: ContainerOptions)
    ensures
        o@.privileged == o.privileged,
        o@.network_mode is Some <==> o.network_mode is Some,
        o.network_mode matches Some(n) ==> o@.network_mode == Some(n@),
        o@.binds == texts(o.binds@),
        o@.cap_add == texts(o.cap_add@),
        forall|port: Seq<char>| #[trigger]
            o@.port_bindings.contains_key(port) <==> o.port_bindings@.contains_key(port),
        forall|port: Seq<char>, i: int|
            o.port_bindings@.contains_key(port) && 0 <= i < o.port_bindings@[port]@.len()
                ==> #[trigger] o@.port_bindings[port][i] == (
                o.port_bindings@[port]@[i].host_ip@,
                o.port_bindings@[port]@[i].host_port@,
            ),
        forall|port: Seq<char>|
            o.port_bindings@.contains_key(port) ==> #[trigger] o@.port_bindings[port].len()
                == o.port_bindings@[port]@.len(),
{
}

/// A start goes on with each call that succeeds: connect, create, start. The handle
/// has the id that the container was created with, or found with.
pub proof fn law_start_takes_its_course(
    stage: StartStage,
    id: String,
    done: (),
    next: StartStage,
)
    ensures
        start_step(stage, StartEvent::Connected(Ok(done)), next) ==> next == StartStage::Create,
        start_step(stage, StartEvent::Created(Ok(id)), next) ==> next == StartStage::Start(id),
        start_step(stage, StartEvent::Inspected(Ok(Some(id))), next) ==> next == StartStage::Start(
            id,
        ),
        start_step(StartStage::Start(id), StartEvent::Started(Ok(done)), next) ==> next
            == StartStage::Done(Ok(ContainerHandle { id })),
{
}

/// A start that fails in a call ends with the words of that failure. The exceptions: a
/// name that is taken has the container inspected, and a container that runs already
/// is started.
pub proof fn law_failed_start_tells_why(
    stage: StartStage,
    id: String,
    failure: DockerFailure,
    next: StartStage,
)
    ensures
        ({
            let failed = StartStage::Done(Err(StartError::Docker(failure.message)));
            &&& start_step(stage, StartEvent::Connected(Err(failure)), next) ==> next == failed
            &&& start_step(stage, StartEvent::Inspected(Err(failure)), next) ==> next == failed
            &&& start_step(stage, StartEvent::Created(Err(failure)), next) ==> (failure.status
                == Some(409u16) ==> next == StartStage::Inspect) && (failure.status != Some(409u16)
                ==> next == failed)
            &&& start_step(StartStage::Start(id), StartEvent::Started(Err(failure)), next) ==> (
            failure.status == Some(304u16) ==> next == StartStage::Done(
                Ok(ContainerHandle { id }),
            )) && (failure.status != Some(304u16) ==> next == failed)
            &&& start_step(stage, StartEvent::Inspected(Ok(None)), next) ==> (next matches
                StartStage::Done(Err(StartError::Other(m))) && m@
                == "Container exists but has no ID"@)
        }),
{
}

/// Each stage of a start waits for its own outcome, and the end for nothing.
pub proof fn law_start_stages_wait_for_their_outcome(stage: StartStage, event: StartEvent)
    ensures
        stage is Connect ==> start_answers(stage, event) == (event is Connected),
        stage is Create ==> start_answers(stage, event) == (event is Created),
        stage is Inspect ==> start_answers(stage, event) == (event is Inspected),
        stage is Start ==> start_answers(stage, event) == (event is Started),
        stage is Done ==> !start_answers(stage, event),
{
}

/// A stop goes on with each call that succeeds: connect, stop, remove. A failure to
/// connect or to stop ends it with the words of that failure, except that a container
/// that is not there is removed all the same; the removal may fail.
pub proof fn law_stop_takes_its_course(
    done: (),
    failure: DockerFailure,
    removal: Result<(), DockerFailure>,
)
    ensures
        ({
            let failed = StopStage::Done(Err(StopError::Docker(failure.message)));
            &&& stop_next(StopEvent::Connected(Ok(done))) == StopStage::Stop
            &&& stop_next(StopEvent::Connected(Err(failure))) == failed
            &&& stop_next(StopEvent::Stopped(Ok(done))) == StopStage::Remove
            &&& failure.status == Some(404u16) ==> stop_next(StopEvent::Stopped(Err(failure)))
                == StopStage::Remove
            &&& failure.status != Some(404u16) ==> stop_next(StopEvent::Stopped(Err(failure)))
                == failed
            &&& stop_next(StopEvent::Removed(removal)) matches StopStage::Done(result)
                && result is Ok
        }),
{
}

/// Each stage of a stop waits for its own outcome, and the end for nothing.
pub proof fn law_stop_stages_wait_for_their_outcome(stage: StopStage, event: StopEvent)
    ensures
        stage is Connect ==> stop_answers(stage, event) == (event is Connected),
        stage is Stop ==> stop_answers(stage, event) == (event is Stopped),
        stage is Remove ==> stop_answers(stage, event) == (event is Removed),
        stage is Done ==> !stop_answers(stage, event),
{
}

/// A container gets ten seconds to stop.
pub proof fn law_containers_get_ten_seconds()
    ensures
        STOP_TIMEOUT_SECS == 10,
{
}

} // verus!
