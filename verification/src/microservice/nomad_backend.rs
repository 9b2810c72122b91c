//! Nomad task groups.

use vstd::prelude::*;
use vstd::string::*;

use super::{
    access_token, access_token_of, body_field, law_field_has_its_place_and_value, BodyField,
    BodyValue, FieldValue,
};
use crate::config::AvailabilityManagementConfig;
use crate::text::{
    join, join3, strip_prefix, stripped, text_of, trim_end_matches, without_trailing,
};

verus! {

/// A change of the count of a task group.
pub struct TaskScale {
    pub url: String,
    /// The value of the header `X-Nomad-Token`.
    pub token: Option<String>,
    /// The name of the task group.
    pub group: String,
    pub count: i32,
    pub body: Vec<BodyField>,
}

impl TaskScale {
    /// Whether this sets the task group of `config`, whose URN is `nomad:` and
    /// `api_url`, to `count`.
    pub open spec fn scales(
        self,
        config: AvailabilityManagementConfig,
        api_url: Seq<char>,
        count: i32,
    ) -> bool {
        &&& self.url@ == without_trailing(api_url, '/') + "/scale"@
        &&& text_of(self.token) == access_token_of(config)
        &&& self.group@ == config.image@
        &&& self.count == count
        &&& self.body@.len() == 3
        &&& self.body@[0].sets(seq!["Target"@, "Group"@], FieldValue::Text(config.image@))
        &&& self.body@[1].sets(seq!["Count"@], FieldValue::Number(count as int))
        &&& self.body@[2].sets(seq!["ErrorOnConflict"@], FieldValue::Flag(false))
    }
}

/// Scales a Nomad task group to the specified count.
///
/// Expects URN format `nomad:<api_url>`.
/// Uses `image` (task group name) as the scaling target.
pub fn scale_task(config: &AvailabilityManagementConfig, count: i32) -> (r: Result<
    TaskScale,
    String,
>)
    requires
        config.wf(),
    ensures
        match config.cluster_manager_urn {
            Some(urn) => match stripped(urn@, "nomad:"@) {
                Some(api_url) => r matches Ok(plan) && plan.scales(*config, api_url, count),
                None => r matches Err(e) && e@
                    == "Invalid Nomad URN prefix (must start with 'nomad:')"@,
            },
            None => r matches Err(e) && e@ == "Nomad cluster manager URN is missing"@,
        },
{
    let api_url = match &config.cluster_manager_urn {
        Some(urn) => match strip_prefix(urn.as_str(), "nomad:") {
            Some(api_url) => api_url,
            None => {
                return Err("Invalid Nomad URN prefix (must start with 'nomad:')".to_owned());
            },
        },
        None => {
            return Err("Nomad cluster manager URN is missing".to_owned());
        },
    };
    let mut body: Vec<BodyField> = Vec::new();
    body.push(
        body_field("Target", Some("Group"), BodyValue::Text(config.image.as_str().to_owned())),
    );
    body.push(body_field("Count", None, BodyValue::Number(count)));
    body.push(body_field("ErrorOnConflict", None, BodyValue::Flag(false)));
    Ok(
        TaskScale {
            url: join(trim_end_matches(api_url, '/'), "/scale"),
            token: access_token(config),
            group: config.image.as_str().to_owned(),
            count,
            body,
        },
    )
}

/// How `reqwest::StatusCode` writes a status: the number and the reason phrase.
pub uninterp spec fn status_text(status: u16) -> Seq<char>;

/// Calls `reqwest::StatusCode::from_u16`, which takes the numbers of three
/// digits, and writes the status out with its `Display`. The reason phrases are
/// left to that crate.
#[verifier::external_body]
fn describe_status(status: u16) -> (r: String)
    requires
        100 <= status <= 999,
    ensures
        r@ == status_text(status),
{
    reqwest::StatusCode::from_u16(status).unwrap().to_string()
}

/// What the answer of the Nomad API means: a status from 200 to 299 is success,
/// any other an error with the status and the body. `body` is `None` where the
/// body could not be read.
pub fn scale_outcome(status: u16, body: Option<String>) -> (r: Result<(), String>)
    requires
        100 <= status <= 999,
    ensures
        match r {
            Ok(_) => 200 <= status <= 299,
            Err(e) => !(200 <= status <= 299) && e@ == "Nomad API error ("@ + status_text(status)
                + "): "@ + (match body {
                Some(b) => b@,
                None => "Empty response body"@,
            }),
        },
{
    if 200 <= status && status <= 299 {
        return Ok(());
    }
    let words = describe_status(status);
    let body = match body {
        Some(b) => b,
        None => "Empty response body".to_owned(),
    };
    let head = join3("Nomad API error (", words.as_str(), "): ");
    Err(join(head.as_str(), body.as_str()))
}

/// A task group is scaled at the API of its URN, behind which `scale` stands, by a body
/// that names the group and the count and takes conflicts. The token is that of the
/// environment.
pub proof fn law_task_is_scaled_at_its_api(
    plan: TaskScale,
    config: AvailabilityManagementConfig,
    api_url: Seq<char>,
    count: i32,
)
    requires
        plan.scales(config, api_url, count),
        api_url.len() > 0 ==> api_url.last() != '/',
    ensures
        plan.url@ == api_url + "/scale"@,
        plan.group@ == config.image@,
        plan.count == count,
        plan.body@.len() == 3,
        plan.body@[0].path@.len() == 2,
        plan.body@[0].path@[0]@ == "Target"@,
        plan.body@[0].path@[1]@ == "Group"@,
        plan.body@[0].value matches BodyValue::Text(group) && group@ == config.image@,
        plan.body@[1].path@.len() == 1,
        plan.body@[1].path@[0]@ == "Count"@,
        plan.body@[1].value matches BodyValue::Number(n) && n == count,
        plan.body@[2].path@.len() == 1,
        plan.body@[2].path@[0]@ == "ErrorOnConflict"@,
        plan.body@[2].value matches BodyValue::Flag(b) && !b,
        config.env is None ==> plan.token is None,
        config.env matches Some(env) ==> (env@.contains_key("ACCESS_TOKEN"@) ==> (plan.token
            matches Some(token) && token@ == env@["ACCESS_TOKEN"@]@)),
        config.env matches Some(env) ==> (!env@.contains_key("ACCESS_TOKEN"@) ==> plan.token is None),
{
    let group = seq!["Target"@, "Group"@];
    law_field_has_its_place_and_value(
        plan.body@[0],
        seq!["Target"@, "Group"@],
        FieldValue::Text(config.image@),
    );
    law_field_has_its_place_and_value(
        plan.body@[1],
        seq!["Count"@],
        FieldValue::Number(count as int),
    );
    law_field_has_its_place_and_value(
        plan.body@[2],
        seq!["ErrorOnConflict"@],
        FieldValue::Flag(false),
    );
    assert(plan.body@[0].path@[0]@ == group[0]);
    assert(plan.body@[0].path@[1]@ == group[1]);
    assert(plan.body@[1].path@[0]@ == seq!["Count"@][0]);
    assert(plan.body@[2].path@[0]@ == seq!["ErrorOnConflict"@][0]);
}

/// Slashes at the end of the API in the URN make no difference.
pub proof fn law_slashes_behind_the_api_do_not_matter(
    plan: TaskScale,
    other: TaskScale,
    config: AvailabilityManagementConfig,
    api_url: Seq<char>,
    count: i32,
)
    requires
        plan.scales(config, api_url, count),
        other.scales(config, api_url.push('/'), count),
    ensures
        plan.url@ == other.url@,
{
    assert(api_url.push('/').drop_last() =~= api_url);
}

} // verus!
