//! Starting a provider when it is needed.

use vstd::prelude::*;

use crate::config::AvailabilityManagementConfig;
use crate::microservice::{cluster_manager_of, start_provider, starts, StartError, StartPlan};
use crate::text::same_text;

verus! {

/// What an on-demand start comes to before anything is done.
pub enum OndemandStart {
    /// Carry the plan out.
    Initiated(StartPlan),
    /// The provider cannot be started.
    Failed(StartError),
    /// On-demand start is disabled for this service.
    Skipped,
}

/// Whether `config` has the provider started on `trigger`.
pub open spec fn starts_on(config: AvailabilityManagementConfig, trigger: Seq<char>) -> bool {
    if trigger == "consumer"@ {
        config.ondemand_start_on_consumer
    } else if trigger == "payload"@ {
        config.ondemand_start_on_payload
    } else {
        false
    }
}

/// Executes the on-demand start logic for a provider, as far as the decision
/// goes. `consumer` and `payload` are the triggers.
pub fn execute_ondemand_start(config: &AvailabilityManagementConfig, trigger: &str) -> (r:
    OndemandStart)
    requires
        config.wf(),
    ensures
        match r {
            OndemandStart::Initiated(plan) => {
                &&& starts_on(*config, trigger@)
                &&& config.cluster_manager_urn matches Some(urn) && starts(plan, *config, urn@)
            },
            OndemandStart::Failed(_) => {
                &&& starts_on(*config, trigger@)
                &&& config.cluster_manager_urn matches Some(urn) ==> cluster_manager_of(
                    urn@,
                ) is None
            },
            OndemandStart::Skipped => !starts_on(*config, trigger@),
        },
        match r {
            OndemandStart::Failed(StartError::Other(m)) => m@ == (match config.cluster_manager_urn {
                Some(urn) => "Unsupported cluster manager URN: "@ + urn@,
                None => "clusterManagerUrn is required but missing"@,
            }),
            OndemandStart::Failed(_) => false,
            _ => true,
        },
{
    let should_start = if same_text(trigger, "consumer") {
        config.ondemand_start_on_consumer
    } else if same_text(trigger, "payload") {
        config.ondemand_start_on_payload
    } else {
        false
    };
    if !should_start {
        return OndemandStart::Skipped;
    }
    match start_provider(config) {
        Ok(plan) => OndemandStart::Initiated(plan),
        Err(e) => OndemandStart::Failed(e),
    }
}

/// Each trigger has its own switch, and nothing else starts a provider.
pub proof fn law_only_enabled_triggers_start(
    config: AvailabilityManagementConfig,
    trigger: Seq<char>,
)
    ensures
        starts_on(config, "consumer"@) == config.ondemand_start_on_consumer,
        starts_on(config, "payload"@) == config.ondemand_start_on_payload,
        trigger != "consumer"@ && trigger != "payload"@ ==> !starts_on(config, trigger),
{
    reveal_strlit("consumer");
    reveal_strlit("payload");
    assert("consumer"@.len() != "payload"@.len());
}

/// Whether a provider is started on a trigger depends on its own switch alone.
pub proof fn law_triggers_are_independent(
    a: AvailabilityManagementConfig,
    b: AvailabilityManagementConfig,
    trigger: Seq<char>,
)
    ensures
        a.ondemand_start_on_consumer == b.ondemand_start_on_consumer ==> starts_on(a, "consumer"@)
            == starts_on(b, "consumer"@),
        a.ondemand_start_on_payload == b.ondemand_start_on_payload ==> starts_on(a, "payload"@)
            == starts_on(b, "payload"@),
        starts_on(a, trigger) ==> (trigger == "consumer"@ && a.ondemand_start_on_consumer) || (
        trigger == "payload"@ && a.ondemand_start_on_payload),
{
    law_only_enabled_triggers_start(a, trigger);
    law_only_enabled_triggers_start(b, trigger);
}

} // verus!
