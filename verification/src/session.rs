//! A session: one QUIC connection of a client, from its identification to its
//! end.

use vstd::prelude::*;
use vstd::string::*;
use vstd::utf8::encode_utf8;

use crate::clock::{milliseconds_between, truncated, Timestamp};
use crate::config::{
    find_hub, find_service, first_index, hub_place, law_found_hub_has_the_names, law_hub_is_found,
    law_service_is_found_by_name, lemma_first_index, service_named, AppConfig, RealmConfig,
    ServiceConfig,
};
use crate::service_map::ServiceMap;
use crate::text::{decimal, from_utf8_lossy, join, join3, lossy_text, same_text, unsigned_text};

verus! {

/// Error code for when a client connects without a valid CN or ALPN.
pub const APP_ERR_CODE_MISSING_IDENTITY: u32 = 1;

/// Error code for when a client connects with an unsupported ALPN role.
pub const APP_ERR_CODE_UNSUPPORTED_ROLE: u32 = 2;

/// Error code for when a consumer cannot find an available provider for its service.
pub const APP_ERR_CODE_NO_PROVIDER_FOUND: u32 = 100;

/// The role of a client.
#[derive(Clone, Copy, PartialEq, Eq, Structural, Debug)]
pub enum Role {
    Provider,
    Consumer,
}

/// What is known of a client that has connected.
pub enum Identification {
    /// The client `cn` in its role.
    Client { role: Role, cn: String },
    /// Close the connection with this code and reason.
    Rejected { code: u32, reason: String },
}

/// The role that the ALPN protocol `alpn` stands for.
pub open spec fn role_of(alpn: Seq<char>) -> Option<Role> {
    if alpn == "sc01-provider"@ {
        Some(Role::Provider)
    } else if alpn == "sc01-consumer"@ {
        Some(Role::Consumer)
    } else {
        None
    }
}

/// Identifies a client by the CN of its certificate and its ALPN protocol.
pub fn identify_client(cn: Option<String>, alpn: Option<String>) -> (r: Identification)
    ensures
        match (cn, alpn) {
            (Some(name), Some(protocol)) => match role_of(protocol@) {
                Some(role) => r == (Identification::Client { role, cn: name }),
                None => match r {
                    Identification::Rejected { code, reason } => code
                        == APP_ERR_CODE_UNSUPPORTED_ROLE && reason@ == "Unsupported client role"@,
                    _ => false,
                },
            },
            _ => match r {
                Identification::Rejected { code, reason } => code == APP_ERR_CODE_MISSING_IDENTITY
                    && reason@ == "Missing CN or ALPN"@,
                _ => false,
            },
        },
{
    match (cn, alpn) {
        (Some(cn), Some(alpn)) => {
            if same_text(alpn.as_str(), "sc01-provider") {
                Identification::Client { role: Role::Provider, cn }
            } else if same_text(alpn.as_str(), "sc01-consumer") {
                Identification::Client { role: Role::Consumer, cn }
            } else {
                Identification::Rejected {
                    code: APP_ERR_CODE_UNSUPPORTED_ROLE,
                    reason: "Unsupported client role".to_owned(),
                }
            }
        },
        _ => Identification::Rejected {
            code: APP_ERR_CODE_MISSING_IDENTITY,
            reason: "Missing CN or ALPN".to_owned(),
        },
    }
}

/// Holds contextual information for a single connection.
pub struct ConnectionContext {
    pub start_at: Timestamp,
    pub connection_id: usize,
    pub uri: String,
    pub endpoint_type: String,
    pub service: String,
    pub service_urn: String,
}

/// How a role is called in the log.
pub open spec fn endpoint_type_of(role: Role) -> Seq<char> {
    match role {
        Role::Provider => "serviceProvider"@,
        Role::Consumer => "serviceConsumer"@,
    }
}

impl ConnectionContext {
    /// The session that the client `cn` starts at `now` in its role, on
    /// connection `connection_id`. A client that no service lists belongs to the
    /// service `unknown`.
    pub fn new(
        role: Role,
        cn: &str,
        connection_id: usize,
        now: Timestamp,
        service_map: &ServiceMap,
    ) -> (r: ConnectionContext)
        ensures
            r.start_at == now,
            r.connection_id == connection_id,
            r.uri@ == cn@,
            r.endpoint_type@ == endpoint_type_of(role),
            (r.service@, r.service_urn@) == (match service_map.service(cn@) {
                Some(identity) => identity,
                None => ("unknown"@, "unknown"@),
            }),
    {
        let info = service_map.resolve(cn);
        ConnectionContext {
            start_at: now,
            connection_id,
            uri: cn.to_owned(),
            endpoint_type: match role {
                Role::Provider => "serviceProvider".to_owned(),
                Role::Consumer => "serviceConsumer".to_owned(),
            },
            service: info.name,
            service_urn: info.urn,
        }
    }
}

/// The service `service` of the hub `hub` of realm `realm`.
pub open spec fn configured_service(
    realms: Seq<RealmConfig>,
    realm: Seq<char>,
    hub: Seq<char>,
    service: Seq<char>,
) -> Option<ServiceConfig> {
    match hub_place(realms, realm, hub, false) {
        Some((r, h)) => {
            let services = realms[r].hubs@[h].services@;
            let s = first_index(services, service_named(service));
            if s < services.len() {
                Some(services[s])
            } else {
                None
            }
        },
        None => None,
    }
}

/// Finds the configuration of the service that a consumer belongs to. That its
/// realm is disabled does not matter.
pub fn find_configured_service<'a>(
    config: &'a AppConfig,
    realm: &str,
    hub: &str,
    service: &str,
) -> (r: Option<&'a ServiceConfig>)
    ensures
        match r {
            Some(s) => configured_service(config.realms@, realm@, hub@, service@) == Some(*s),
            None => configured_service(config.realms@, realm@, hub@, service@) is None,
        },
{
    match find_hub(config, realm, hub, false) {
        Some((r, h)) => {
            let services = &config.realms[r].hubs[h].services;
            match find_service(services, service) {
                Some(s) => Some(&services[s]),
                None => None,
            }
        },
        None => None,
    }
}

/// Why a connection ended.
pub enum CloseReason {
    /// The peer's application closed it.
    ApplicationClosed { code: u64, reason: Vec<u8> },
    /// The peer's QUIC stack closed it. `error` is its error code in words.
    ConnectionClosed { error: String, reason: Vec<u8> },
    TimedOut,
    LocallyClosed,
    /// The peer violated the protocol. `error` names the error code.
    TransportError { error: String, details: String },
    /// Any other error, in words.
    Other(String),
}

/// What a consumer is told that no provider was found for.
pub fn no_provider_reason() -> (r: Vec<u8>)
    ensures
        r@ == encode_utf8("No provider available for the requested service"@),
{
    "No provider available for the requested service".as_bytes_vec()
}

/// What the log says of why a session ended.
pub open spec fn reason_text(reason: CloseReason) -> Seq<char> {
    match reason {
        CloseReason::ApplicationClosed { .. } => "terminatedByPeer"@,
        CloseReason::ConnectionClosed { .. } => "terminatedByPeer"@,
        CloseReason::LocallyClosed => "shutdown"@,
        _ => "error"@,
    }
}

/// Maps the end of a connection to a reason string.
pub fn map_reason_to_string(reason: &CloseReason) -> (r: &'static str)
    ensures
        r@ == reason_text(*reason),
{
    match reason {
        CloseReason::ApplicationClosed { .. } => "terminatedByPeer",
        CloseReason::ConnectionClosed { .. } => "terminatedByPeer",
        CloseReason::LocallyClosed => "shutdown",
        _ => "error",
    }
}

/// The level of a log line.
#[derive(Clone, Copy, PartialEq, Eq, Structural, Debug)]
pub enum LogLevel {
    Info,
    Warn,
    Error,
}

/// What is logged when a session has ended.
pub struct SessionEnd {
    /// The level and the text of the line that describes the end.
    pub level: LogLevel,
    pub message: String,
    /// The length of the session in milliseconds.
    pub elapsed_ms: i64,
    /// The streams that the session opened.
    pub total_connections: usize,
    pub terminate_reason: &'static str,
}

/// The level of the line that describes the end of a connection.
pub open spec fn close_level(reason: CloseReason) -> LogLevel {
    match reason {
        CloseReason::TimedOut => LogLevel::Warn,
        CloseReason::TransportError { .. } => LogLevel::Error,
        CloseReason::Other(_) => LogLevel::Error,
        _ => LogLevel::Info,
    }
}

/// The rest of the line that describes the end of a connection, behind the client.
pub open spec fn close_text(reason: CloseReason) -> Seq<char> {
    match reason {
        CloseReason::ApplicationClosed { code, reason } => "' closed by the application. Code: "@
            + decimal(code as int) + ", Reason: '"@ + lossy_text(reason@) + "'"@,
        CloseReason::ConnectionClosed { error, reason } => "' closed by the peer. Code: "@ + error@
            + ", Reason: '"@ + lossy_text(reason@) + "'"@,
        CloseReason::TimedOut => "' timed out."@,
        CloseReason::LocallyClosed => "' was closed locally."@,
        CloseReason::TransportError { error, details } =>
            "' failed due to a transport error. Code: "@ + error@ + ", Reason: '"@ + details@
            + "'"@,
        CloseReason::Other(error) => "' closed with an unexpected error: "@ + error@,
    }
}

fn coded_close(head: &str, code: &str, reason: &str) -> (r: String)
    ensures
        r@ == head@ + code@ + ", Reason: '"@ + reason@ + "'"@,
{
    let coded = join3(head, code, ", Reason: '");
    join3(coded.as_str(), reason, "'")
}

fn describe_close(reason: &CloseReason) -> (r: String)
    ensures
        r@ == close_text(*reason),
{
    match reason {
        CloseReason::ApplicationClosed { code, reason } => coded_close(
            "' closed by the application. Code: ",
            unsigned_text(*code).as_str(),
            from_utf8_lossy(reason.as_slice()).as_str(),
        ),
        CloseReason::ConnectionClosed { error, reason } => coded_close(
            "' closed by the peer. Code: ",
            error.as_str(),
            from_utf8_lossy(reason.as_slice()).as_str(),
        ),
        CloseReason::TimedOut => "' timed out.".to_owned(),
        CloseReason::LocallyClosed => "' was closed locally.".to_owned(),
        CloseReason::TransportError { error, details } => coded_close(
            "' failed due to a transport error. Code: ",
            error.as_str(),
            details.as_str(),
        ),
        CloseReason::Other(error) => join(
            "' closed with an unexpected error: ",
            error.as_str(),
        ),
    }
}

/// Composes what is logged when a session has ended at `now` after it opened
/// `total_connections` streams.
pub fn log_connection_close(
    context: &ConnectionContext,
    reason: &CloseReason,
    total_connections: usize,
    now: Timestamp,
) -> (r: SessionEnd)
    requires
        context.start_at.wf(),
        now.wf(),
    ensures
        r.level == close_level(*reason),
        r.message@ == context.endpoint_type@ + " connection for '"@ + context.uri@ + close_text(
            *reason,
        ),
        r.elapsed_ms == truncated(now.instant() - context.start_at.instant(), 1_000_000),
        r.total_connections == total_connections,
        r.terminate_reason@ == reason_text(*reason),
{
    let client = join3(
        context.endpoint_type.as_str(),
        " connection for '",
        context.uri.as_str(),
    );
    let rest = describe_close(reason);
    SessionEnd {
        level: match reason {
            CloseReason::TimedOut => LogLevel::Warn,
            CloseReason::TransportError { .. } => LogLevel::Error,
            CloseReason::Other(_) => LogLevel::Error,
            _ => LogLevel::Info,
        },
        message: join(client.as_str(), rest.as_str()),
        elapsed_ms: milliseconds_between(now, context.start_at),
        total_connections,
        terminate_reason: map_reason_to_string(reason),
    }
}

/// A client is let in exactly when its certificate names it and its ALPN protocol
/// is one of the two roles.
pub proof fn law_only_known_roles_are_let_in(alpn: Seq<char>)
    ensures
        role_of(alpn) is Some <==> alpn == "sc01-provider"@ || alpn == "sc01-consumer"@,
        role_of("sc01-provider"@) == Some(Role::Provider),
        role_of("sc01-consumer"@) == Some(Role::Consumer),
{
    reveal_strlit("sc01-provider");
    reveal_strlit("sc01-consumer");
    assert("sc01-provider"@[5] != "sc01-consumer"@[5]);
}

/// A session that the peer ended is logged as that, one that the hub ended as a
/// shutdown, and every other one as an error.
pub proof fn law_reasons_in_the_log(reason: CloseReason)
    ensures
        reason is ApplicationClosed || reason is ConnectionClosed ==> reason_text(reason)
            == "terminatedByPeer"@,
        reason is LocallyClosed ==> reason_text(reason) == "shutdown"@,
        reason is TimedOut || reason is TransportError || reason is Other ==> reason_text(reason)
            == "error"@,
{
}

/// Only a time-out is a warning, and only a protocol violation or an unexpected end is
/// an error.
pub proof fn law_levels_in_the_log(reason: CloseReason)
    ensures
        close_level(reason) == LogLevel::Warn <==> reason is TimedOut,
        close_level(reason) == LogLevel::Error <==> reason is TransportError || reason is Other,
{
}

/// The line that describes the end of a connection holds every code and reason that
/// came with it, in full.
pub proof fn law_log_tells_code_and_reason(
    code: u64,
    bytes: Vec<u8>,
    error: String,
    details: String,
)
    ensures
        close_text(CloseReason::ApplicationClosed { code, reason: bytes })
            == "' closed by the application. Code: "@ + decimal(code as int) + ", Reason: '"@
            + lossy_text(bytes@) + "'"@,
        close_text(CloseReason::ConnectionClosed { error, reason: bytes })
            == "' closed by the peer. Code: "@ + error@ + ", Reason: '"@ + lossy_text(bytes@)
            + "'"@,
        close_text(CloseReason::TransportError { error, details })
            == "' failed due to a transport error. Code: "@ + error@ + ", Reason: '"@ + details@
            + "'"@,
        close_text(CloseReason::Other(error)) == "' closed with an unexpected error: "@ + error@,
        close_text(CloseReason::TimedOut) == "' timed out."@,
        close_text(CloseReason::LocallyClosed) == "' was closed locally."@,
{
}

/// The log calls a provider `serviceProvider` and a consumer `serviceConsumer`.
pub proof fn law_roles_in_the_log(role: Role)
    ensures
        role == Role::Provider ==> endpoint_type_of(role) == "serviceProvider"@,
        role == Role::Consumer ==> endpoint_type_of(role) == "serviceConsumer"@,
{
}

/// The configuration of a consumer's service is the first service of that name, of the
/// first hub of that name, of the first realm of that name.
pub proof fn law_configured_service_is_the_first_of_its_name(
    realms: Seq<RealmConfig>,
    r: int,
    h: int,
    s: int,
)
    requires
        0 <= r < realms.len(),
        0 <= h < realms[r].hubs@.len(),
        0 <= s < realms[r].hubs@[h].services@.len(),
        forall|i: int| 0 <= i < r ==> (#[trigger] realms[i]).realm_name@ != realms[r].realm_name@,
        forall|i: int|
            0 <= i < h ==> (#[trigger] realms[r].hubs@[i]).name@ != realms[r].hubs@[h].name@,
        forall|i: int|
            0 <= i < s ==> (#[trigger] realms[r].hubs@[h].services@[i]).name@
                != realms[r].hubs@[h].services@[s].name@,
    ensures
        configured_service(
            realms,
            realms[r].realm_name@,
            realms[r].hubs@[h].name@,
            realms[r].hubs@[h].services@[s].name@,
        ) == Some(realms[r].hubs@[h].services@[s]),
{
    law_hub_is_found(realms, r, h, false);
    let services = realms[r].hubs@[h].services@;
    law_service_is_found_by_name(services, services[s].name@, s);
}

/// A configured service that is found has the names that were asked for, and realm,
/// hub and service are the first of theirs.
pub proof fn law_configured_service_has_the_names(
    realms: Seq<RealmConfig>,
    realm: Seq<char>,
    hub: Seq<char>,
    service: Seq<char>,
) -> (place: (int, int, int))
    requires
        configured_service(realms, realm, hub, service) is Some,
    ensures
        0 <= place.0 < realms.len(),
        0 <= place.1 < realms[place.0].hubs@.len(),
        0 <= place.2 < realms[place.0].hubs@[place.1].services@.len(),
        realms[place.0].realm_name@ == realm,
        realms[place.0].hubs@[place.1].name@ == hub,
        realms[place.0].hubs@[place.1].services@[place.2].name@ == service,
        forall|i: int| 0 <= i < place.0 ==> (#[trigger] realms[i]).realm_name@ != realm,
        forall|i: int| 0 <= i < place.1 ==> (#[trigger] realms[place.0].hubs@[i]).name@ != hub,
        forall|i: int|
            0 <= i < place.2 ==> (#[trigger] realms[place.0].hubs@[place.1].services@[i]).name@
                != service,
        configured_service(realms, realm, hub, service) == Some(
            realms[place.0].hubs@[place.1].services@[place.2],
        ),
{
    let (r, h) = hub_place(realms, realm, hub, false)->0;
    law_found_hub_has_the_names(realms, realm, hub, false, r, h);
    let services = realms[r].hubs@[h].services@;
    let p = service_named(service);
    lemma_first_index(services, p);
    let s = first_index(services, p);
    assert(p(services[s]));
    assert forall|i: int| 0 <= i < s implies (#[trigger] realms[r].hubs@[h].services@[i]).name@
        != service by {
        assert(!p(services[i]));
    }
    (r, h, s)
}

/// The error codes that clients know.
pub proof fn law_error_codes()
    ensures
        APP_ERR_CODE_MISSING_IDENTITY == 1,
        APP_ERR_CODE_UNSUPPORTED_ROLE == 2,
        APP_ERR_CODE_NO_PROVIDER_FOUND == 100,
{
}

} // verus!
