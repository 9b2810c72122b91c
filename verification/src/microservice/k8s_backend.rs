//! Kubernetes deployments.

use kube::Resource;
use vstd::prelude::*;
use vstd::string::*;

use super::{
    access_token, access_token_of, body_field, law_field_has_its_place_and_value, BodyField,
    BodyValue, FieldValue,
};
use crate::config::AvailabilityManagementConfig;
use crate::text::{
    join3, rsplit_once, split_last, strip_prefix, stripped, text_of,
    trim_end_matches, trim_start_matches, without_leading, without_trailing,
};

verus! {

/// A change of the replica count of a deployment.
pub struct DeploymentScale {
    /// The API server, where it is not the one of the environment.
    pub cluster_url: Option<String>,
    pub namespace: String,
    /// The bearer token, where it is not the one of the environment.
    pub token: Option<String>,
    /// The name of the deployment.
    pub name: String,
    pub count: i32,
    /// The merge patch.
    pub patch: Vec<BodyField>,
}

/// The API server and the namespace in the part of a URN behind `k8s:`. The part
/// before the last slash, if any, is the server; no namespace means `default`.
pub open spec fn cluster_and_namespace(body: Seq<char>) -> (Option<Seq<char>>, Seq<char>) {
    let (url, namespace) = match split_last(body, '/') {
        Some((url, ns)) => (
            if url.len() > 0 {
                Some(url)
            } else {
                None
            },
            ns,
        ),
        None => (None, body),
    };
    (
        url,
        if namespace.len() > 0 {
            namespace
        } else {
            "default"@
        },
    )
}

impl DeploymentScale {
    /// Whether this sets the deployment of `config`, whose URN is `k8s:` and
    /// `body`, to `count` replicas.
    pub open spec fn scales(
        self,
        config: AvailabilityManagementConfig,
        body: Seq<char>,
        count: i32,
    ) -> bool {
        &&& text_of(self.cluster_url) == cluster_and_namespace(body).0
        &&& self.namespace@ == cluster_and_namespace(body).1
        &&& text_of(self.token) == access_token_of(config)
        &&& self.name@ == config.service_id@
        &&& self.count == count
        &&& self.patch@.len() == 1
        &&& self.patch@[0].sets(seq!["spec"@, "replicas"@], FieldValue::Number(count as int))
    }
}

/// Scales a Kubernetes Deployment to the specified replica count.
///
/// Expects URN format `k8s:<namespace>` or `k8s:<url>/<namespace>`.
/// Uses `service_id` as the Deployment name.
pub fn scale_deployment(config: &AvailabilityManagementConfig, count: i32) -> (r: Result<
    DeploymentScale,
    String,
>)
    requires
        config.wf(),
    ensures
        match config.cluster_manager_urn {
            Some(urn) => match stripped(urn@, "k8s:"@) {
                Some(body) => r matches Ok(plan) && plan.scales(*config, body, count),
                None => r matches Err(e) && e@
                    == "Invalid Kubernetes URN prefix (must start with 'k8s:')"@,
            },
            None => r matches Err(e) && e@ == "Kubernetes cluster manager URN is missing"@,
        },
{
    let body = match &config.cluster_manager_urn {
        Some(urn) => match strip_prefix(urn.as_str(), "k8s:") {
            Some(body) => body,
            None => {
                return Err("Invalid Kubernetes URN prefix (must start with 'k8s:')".to_owned());
            },
        },
        None => {
            return Err("Kubernetes cluster manager URN is missing".to_owned());
        },
    };
    let (cluster_url, namespace) = match rsplit_once(body, '/') {
        Some((url, ns)) => {
            if url.unicode_len() > 0 {
                (Some(url.to_owned()), ns)
            } else {
                (None, ns)
            }
        },
        None => (None, body),
    };
    let namespace = if namespace.unicode_len() > 0 {
        namespace.to_owned()
    } else {
        "default".to_owned()
    };
    let mut patch: Vec<BodyField> = Vec::new();
    patch.push(body_field("spec", Some("replicas"), BodyValue::Number(count)));
    Ok(
        DeploymentScale {
            cluster_url,
            namespace,
            token: access_token(config),
            name: config.service_id.as_str().to_owned(),
            count,
            patch,
        },
    )
}

/// Where the API server has the deployments of a namespace.
pub open spec fn deployments_path(namespace: Seq<char>) -> Seq<char> {
    "/apis/apps/v1/namespaces/"@ + namespace + "/deployments"@
}

/// Calls `kube::Resource::url_path` of `Deployment`, which puts the namespace
/// between the path of the API group and the name of the resource.
#[verifier::external_body]
fn deployment_url_path(namespace: &str) -> (r: String)
    ensures
        r@ == deployments_path(namespace@),
{
    k8s_openapi::api::apps::v1::Deployment::url_path(&(), Some(namespace))
}

/// The URI that `http::Uri` reads in a text, written out again, or the error in
/// words.
pub uninterp spec fn uri_text(text: Seq<char>) -> Result<Seq<char>, Seq<char>>;

/// Reads `text` with the `FromStr` of `http::Uri`, the type of
/// `kube::Config::cluster_url`, and writes the URI out again with its `Display`.
/// Which texts are URIs, and how one is written out, is left to that crate.
#[verifier::external_body]
fn parse_uri(text: &str) -> (r: Result<String, String>)
    ensures
        match r {
            Ok(s) => uri_text(text@) == Ok::<Seq<char>, Seq<char>>(s@),
            Err(e) => uri_text(text@) == Err::<Seq<char>, Seq<char>>(e@),
        },
{
    match text.parse() {
        Ok(uri) => Ok(kube::Config::new(uri).cluster_url.to_string()),
        Err(e) => Err(e.to_string()),
    }
}

/// The URL of the deployment `name` behind the API server `cluster_url`.
pub open spec fn deployment_url_of(
    cluster_url: Seq<char>,
    namespace: Seq<char>,
    name: Seq<char>,
) -> Seq<char> {
    without_trailing(cluster_url, '/') + "/"@ + without_leading(deployments_path(namespace), '/')
        + "/"@ + name
}

/// The URL of the deployment `name` behind the API server `cluster_url`.
pub fn deployment_url(cluster_url: &str, namespace: &str, name: &str) -> (r: String)
    ensures
        r@ == deployment_url_of(cluster_url@, namespace@, name@),
{
    let path = deployment_url_path(namespace);
    let base = join3(
        trim_end_matches(cluster_url, '/'),
        "/",
        trim_start_matches(path.as_str(), '/'),
    );
    join3(base.as_str(), "/", name)
}

impl DeploymentScale {
    /// The API server to talk to and the URL of the deployment, where the
    /// environment names the server `inferred_url`. A server in the URN goes
    /// before it, and the text there must be a URI.
    pub fn target(&self, inferred_url: &str) -> (r: Result<(String, String), String>)
        ensures
            match self.cluster_url {
                Some(url) => match uri_text(url@) {
                    Ok(server) => r matches Ok((s, u)) && s@ == server && u@ == deployment_url_of(
                        server,
                        self.namespace@,
                        self.name@,
                    ),
                    Err(e) => r matches Err(m) && m@ == e,
                },
                None => r matches Ok((s, u)) && s@ == inferred_url@ && u@ == deployment_url_of(
                    inferred_url@,
                    self.namespace@,
                    self.name@,
                ),
            },
    {
        let server = match &self.cluster_url {
            Some(url) => match parse_uri(url.as_str()) {
                Ok(server) => server,
                Err(e) => {
                    return Err(e);
                },
            },
            None => inferred_url.to_owned(),
        };
        let url = deployment_url(server.as_str(), self.namespace.as_str(), self.name.as_str());
        Ok((server, url))
    }
}

/// A URN that holds a namespace alone keeps the API server of the environment.
pub proof fn law_plain_namespace(namespace: Seq<char>)
    requires
        namespace.len() > 0,
        !namespace.contains('/'),
    ensures
        cluster_and_namespace(namespace) == (None::<Seq<char>>, namespace),
{
    namespace.index_of_last_ensures('/');
}

/// A URN that holds an API server and a namespace, with a slash between them,
/// gives both back.
pub proof fn law_url_and_namespace(url: Seq<char>, namespace: Seq<char>)
    requires
        url.len() > 0,
        namespace.len() > 0,
        !namespace.contains('/'),
    ensures
        cluster_and_namespace(url + seq!['/'] + namespace) == (Some(url), namespace),
{
    let body = url + seq!['/'] + namespace;
    body.index_of_last_ensures('/');
    assert(body[url.len() as int] == '/');
    let i = body.index_of_last('/')->0;
    if i > url.len() {
        assert(namespace[i - url.len() - 1] == '/');
    }
    assert(body.take(url.len() as int) =~= url);
    assert(body.skip((url.len() + 1) as int) =~= namespace);
}

/// Without a namespace the namespace is `default`, and an empty server is none.
pub proof fn law_namespace_defaults(url: Seq<char>, namespace: Seq<char>)
    requires
        url.len() > 0,
        namespace.len() > 0,
        !namespace.contains('/'),
    ensures
        cluster_and_namespace(Seq::<char>::empty()) == (None::<Seq<char>>, "default"@),
        cluster_and_namespace(url + seq!['/']) == (Some(url), "default"@),
        cluster_and_namespace(seq!['/'] + namespace) == (None::<Seq<char>>, namespace),
        cluster_and_namespace(seq!['/']) == (None::<Seq<char>>, "default"@),
{
    let none = Seq::<char>::empty();
    none.index_of_last_ensures('/');
    assert(split_last(none, '/') is None);
    let a = url + seq!['/'];
    a.index_of_last_ensures('/');
    assert(a[url.len() as int] == '/');
    assert(a.take(url.len() as int) =~= url);
    assert(a.skip((url.len() + 1) as int) =~= none);
    let b = seq!['/'] + namespace;
    b.index_of_last_ensures('/');
    assert(b[0] == '/');
    let i = b.index_of_last('/')->0;
    if i > 0 {
        assert(namespace[i - 1] == '/');
    }
    assert(b.take(0) =~= none);
    assert(b.skip(1) =~= namespace);
    let c = seq!['/'];
    c.index_of_last_ensures('/');
    assert(c[0] == '/');
    assert(c.take(0) =~= none);
    assert(c.skip(1) =~= none);
}

/// The URL of a deployment is the server, the path of the deployments of the namespace
/// and the name, with one slash between them.
pub proof fn law_deployment_url_is_server_path_and_name(
    cluster_url: Seq<char>,
    namespace: Seq<char>,
    name: Seq<char>,
)
    requires
        cluster_url.len() > 0 ==> cluster_url.last() != '/',
    ensures
        deployment_url_of(cluster_url, namespace, name) == cluster_url
            + "/apis/apps/v1/namespaces/"@ + namespace + "/deployments"@ + "/"@ + name,
        deployment_url_of(cluster_url.push('/'), namespace, name) == deployment_url_of(
            cluster_url,
            namespace,
            name,
        ),
{
    assert(cluster_url.push('/').drop_last() =~= cluster_url);
    let path = deployments_path(namespace);
    let full = "/apis/apps/v1/namespaces/"@ + namespace + "/deployments"@;
    reveal_strlit("/apis/apps/v1/namespaces/");
    reveal_strlit("/");
    assert(path =~= full);
    assert(path.first() == '/');
    let tail = path.drop_first();
    assert(tail.first() == 'a');
    assert(without_leading(tail, '/') == tail);
    assert(without_leading(path, '/') == tail);
    assert("/"@ + tail =~= path);
    assert(deployment_url_of(cluster_url, namespace, name) =~= cluster_url
        + "/apis/apps/v1/namespaces/"@ + namespace + "/deployments"@ + "/"@ + name);
}

/// A deployment is scaled by its name, which is the service, in the namespace and at
/// the server of its URN, by a patch of its replica count alone. The token is that of
/// the environment.
pub proof fn law_deployment_is_scaled_by_name(
    plan: DeploymentScale,
    config: AvailabilityManagementConfig,
    body: Seq<char>,
    count: i32,
)
    requires
        plan.scales(config, body, count),
    ensures
        plan.name@ == config.service_id@,
        plan.count == count,
        plan.namespace@ == cluster_and_namespace(body).1,
        plan.cluster_url is None <==> cluster_and_namespace(body).0 is None,
        plan.cluster_url matches Some(url) ==> cluster_and_namespace(body).0 == Some(url@),
        plan.patch@.len() == 1,
        plan.patch@[0].path@.len() == 2,
        plan.patch@[0].path@[0]@ == "spec"@,
        plan.patch@[0].path@[1]@ == "replicas"@,
        plan.patch@[0].value matches BodyValue::Number(n) && n == count,
        config.env is None ==> plan.token is None,
        config.env matches Some(env) ==> (env@.contains_key("ACCESS_TOKEN"@) ==> (plan.token
            matches Some(token) && token@ == env@["ACCESS_TOKEN"@]@)),
        config.env matches Some(env) ==> (!env@.contains_key("ACCESS_TOKEN"@) ==> plan.token is None),
{
    let path = seq!["spec"@, "replicas"@];
    law_field_has_its_place_and_value(plan.patch@[0], path, FieldValue::Number(count as int));
    assert(plan.patch@[0].path@[0]@ == path[0]);
    assert(plan.patch@[0].path@[1]@ == path[1]);
}

} // verus!
