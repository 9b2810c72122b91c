//! The search for the provider of a consumer.

use vstd::prelude::*;

use crate::connection_table::{group, Groups};
use crate::providers::{
    any_in, departed, is_in, not_later, oldest_standby, one_active, with_status, Departure, ProviderEntry,
    ProviderRegistry, ProviderStatus,
};

verus! {

/// Interval for a consumer to retry finding a provider.
pub const PROVIDER_SEARCH_INTERVAL_SECS: u64 = 1;

/// The maximum time a consumer will wait to find an available provider, in
/// nanoseconds.
pub const PROVIDER_SEARCH_TIMEOUT_NS: u64 = 600_000_000_000;

/// Whether a look for a provider of `service` yields `chosen` and leaves the
/// providers as `after`. The active provider comes first; without one, the oldest
/// one that stands by becomes active.
pub open spec fn found_provider<C>(
    before: Groups<ProviderEntry<C>>,
    service: Seq<char>,
    chosen: Option<usize>,
    after: Groups<ProviderEntry<C>>,
) -> bool {
    let members = group(before, service);
    match chosen {
        Some(id) => {
            ||| is_in(members, id, ProviderStatus::Active) && after == before
            ||| {
                &&& !any_in(members, ProviderStatus::Active)
                &&& oldest_standby(members, id)
                &&& after == before.insert(service, with_status(members, id, ProviderStatus::Active))
            }
        },
        None => {
            &&& !any_in(members, ProviderStatus::Active)
            &&& !any_in(members, ProviderStatus::StandBy)
            &&& after == before
        },
    }
}

/// Looks for a provider of `service` once.
pub fn find_provider<C>(registry: &mut ProviderRegistry<C>, service: &str) -> (r: Option<usize>)
    requires
        old(registry).wf(),
    ensures
        final(registry).wf(),
        found_provider(old(registry)@, service@, r, final(registry)@),
{
    let seen = registry.lookup(service);
    match seen.active {
        Some(id) => Some(id),
        None => {
            if seen.has_standby {
                registry.acquire(service)
            } else {
                None
            }
        },
    }
}

/// A search for a provider.
#[derive(Clone, Copy, PartialEq, Eq, Structural, Debug)]
pub struct ProviderSearch {
    /// Whether the search has tried to have a provider started.
    pub start_attempted: bool,
}

/// Where a search stands after a look.
#[derive(Clone, Copy, PartialEq, Eq, Structural, Debug)]
pub enum SearchStep {
    /// The consumer is sent to this provider.
    Found(usize),
    /// Look again after [`PROVIDER_SEARCH_INTERVAL_SECS`]; before that, have a
    /// provider started if `start_provider`.
    Wait { start_provider: bool },
    /// The time is up. Have a provider started all the same if `start_provider`.
    GiveUp { start_provider: bool },
}

/// What a search comes to that has found `chosen` after `elapsed` nanoseconds.
/// `has_service` says whether the consumer's service is configured.
pub open spec fn search_step(
    search: ProviderSearch,
    chosen: Option<usize>,
    has_service: bool,
    elapsed: u64,
    timeout: u64,
) -> (ProviderSearch, SearchStep) {
    let start_provider = has_service && !search.start_attempted;
    match chosen {
        Some(id) => (search, SearchStep::Found(id)),
        None => (
            ProviderSearch { start_attempted: true },
            if elapsed >= timeout {
                SearchStep::GiveUp { start_provider }
            } else {
                SearchStep::Wait { start_provider }
            },
        ),
    }
}

impl ProviderSearch {
    /// A search that has not looked yet.
    pub fn new() -> (r: ProviderSearch)
        ensures
            r == (ProviderSearch { start_attempted: false }),
    {
        ProviderSearch { start_attempted: false }
    }

    /// Goes on, given what a look found.
    pub fn advance(
        &mut self,
        chosen: Option<usize>,
        has_service: bool,
        elapsed: u64,
        timeout: u64,
    ) -> (r: SearchStep)
        ensures
            (*final(self), r) == search_step(*old(self), chosen, has_service, elapsed, timeout),
    {
        match chosen {
            Some(id) => SearchStep::Found(id),
            None => {
                let start_provider = has_service && !self.start_attempted;
                self.start_attempted = true;
                if elapsed >= timeout {
                    SearchStep::GiveUp { start_provider }
                } else {
                    SearchStep::Wait { start_provider }
                }
            },
        }
    }

    /// Looks for a provider of `service` and says how the search goes on.
    /// `elapsed` is the time since its start and `timeout` the longest it may
    /// take, in nanoseconds.
    pub fn find_and_set_target_provider<C>(
        &mut self,
        registry: &mut ProviderRegistry<C>,
        service: &str,
        has_service: bool,
        elapsed: u64,
        timeout: u64,
    ) -> (r: SearchStep)
        requires
            old(registry).wf(),
        ensures
            final(registry).wf(),
            exists|chosen: Option<usize>| #[trigger]
                found_provider(old(registry)@, service@, chosen, final(registry)@) && (
                *final(self),
                r,
            ) == search_step(*old(self), chosen, has_service, elapsed, timeout),
    {
        let chosen = find_provider(registry, service);
        proof {
            assert(found_provider(old(registry)@, service@, chosen, registry@));
        }
        self.advance(chosen, has_service, elapsed, timeout)
    }
}

/// The search after the looks that found `looks`, and how often it had a provider
/// started.
pub open spec fn searched(looks: Seq<(Option<usize>, u64)>, has_service: bool, timeout: u64) -> (
    ProviderSearch,
    int,
)
    decreases looks.len(),
{
    if looks.len() == 0 {
        (ProviderSearch { start_attempted: false }, 0)
    } else {
        let (search, starts) = searched(looks.drop_last(), has_service, timeout);
        let (chosen, elapsed) = looks.last();
        let (next, step) = search_step(search, chosen, has_service, elapsed, timeout);
        let started = match step {
            SearchStep::Found(_) => false,
            SearchStep::Wait { start_provider } => start_provider,
            SearchStep::GiveUp { start_provider } => start_provider,
        };
        (
            next,
            if started {
                starts + 1
            } else {
                starts
            },
        )
    }
}

/// A search has a provider started at most once, however long it lasts, and never
/// for a consumer without a configured service.
pub proof fn law_one_start_per_search(
    looks: Seq<(Option<usize>, u64)>,
    has_service: bool,
    timeout: u64,
)
    ensures
        0 <= searched(looks, has_service, timeout).1 <= 1,
        !has_service ==> searched(looks, has_service, timeout).1 == 0,
        !searched(looks, has_service, timeout).0.start_attempted ==> searched(
            looks,
            has_service,
            timeout,
        ).1 == 0,
    decreases looks.len(),
{
    if looks.len() > 0 {
        law_one_start_per_search(looks.drop_last(), has_service, timeout);
    }
}

/// A search that finds nothing ends when the time is up, and not before.
pub proof fn law_search_ends_in_time(
    search: ProviderSearch,
    has_service: bool,
    elapsed: u64,
    timeout: u64,
)
    ensures
        search_step(search, None, has_service, elapsed, timeout).1 is GiveUp <==> elapsed >= timeout,
{
}

/// A consumer finds a provider exactly when one is active or stands by.
pub proof fn law_available_provider_is_found<C>(
    before: Groups<ProviderEntry<C>>,
    service: Seq<char>,
    chosen: Option<usize>,
    after: Groups<ProviderEntry<C>>,
)
    requires
        found_provider(before, service, chosen, after),
    ensures
        chosen is Some <==> any_in(group(before, service), ProviderStatus::Active) || any_in(
            group(before, service),
            ProviderStatus::StandBy,
        ),
        chosen matches Some(id) ==> is_in(group(after, service), id, ProviderStatus::Active),
{
    let members = group(before, service);
    if chosen is Some {
        let id = chosen->0;
        if is_in(members, id, ProviderStatus::Active) {
            assert(any_in(members, ProviderStatus::Active));
        } else {
            assert(is_in(members, id, ProviderStatus::StandBy));
        }
    }
}

/// A provider that is shutting down gets no new consumers and stays that way.
pub proof fn law_shutting_down_provider_gets_no_consumers<C>(
    before: Groups<ProviderEntry<C>>,
    service: Seq<char>,
    chosen: Option<usize>,
    after: Groups<ProviderEntry<C>>,
    id: usize,
)
    requires
        found_provider(before, service, chosen, after),
        is_in(group(before, service), id, ProviderStatus::ShuttingDown),
    ensures
        chosen != Some(id),
        is_in(group(after, service), id, ProviderStatus::ShuttingDown),
{
}

/// The next consumer of the service finds the same provider, and nothing changes
/// any more.
pub proof fn law_consumers_share_the_active_provider<C>(
    before: Groups<ProviderEntry<C>>,
    service: Seq<char>,
    first: Option<usize>,
    between: Groups<ProviderEntry<C>>,
    second: Option<usize>,
    after: Groups<ProviderEntry<C>>,
)
    requires
        one_active(group(before, service)),
        found_provider(before, service, first, between),
        found_provider(between, service, second, after),
    ensures
        first == second,
        after == between,
{
    let members = group(before, service);
    let middle = group(between, service);
    law_available_provider_is_found(before, service, first, between);
    if first is Some {
        let id = first->0;
        assert(is_in(middle, id, ProviderStatus::Active));
        assert forall|other: usize| is_in(middle, other, ProviderStatus::Active) implies other == id by {
            if other != id {
                assert(is_in(members, other, ProviderStatus::Active));
            }
        }
    } else {
        assert(middle =~= members);
    }
}

/// A consumer that finds its provider, or a provider that leaves, changes nothing
/// of any other service.
pub proof fn law_services_are_independent<C>(
    before: Groups<ProviderEntry<C>>,
    service: Seq<char>,
    after: Groups<ProviderEntry<C>>,
    other: Seq<char>,
)
    requires
        other != service,
        ({
            ||| exists|chosen: Option<usize>| found_provider(before, service, chosen, after)
            ||| exists|id: usize, departure: Departure|
                departed(before, service, id, departure, after)
        }),
    ensures
        group(after, other) == group(before, other),
{
}

/// A look for a provider takes the active one as it is. Without one, the first of
/// those that stand by becomes active, and only its status changes. Without either
/// nothing is found. Nothing else changes.
pub proof fn law_look_takes_the_active_or_the_oldest<C>(
    before: Groups<ProviderEntry<C>>,
    service: Seq<char>,
    chosen: Option<usize>,
    after: Groups<ProviderEntry<C>>,
    other: usize,
    elsewhere: Seq<char>,
)
    requires
        found_provider(before, service, chosen, after),
        before.contains_key(service),
        elsewhere != service,
    ensures
        after.contains_key(elsewhere) == before.contains_key(elsewhere),
        before.contains_key(elsewhere) ==> after[elsewhere] == before[elsewhere],
        after.contains_key(service),
        after[service].contains_key(other) == before[service].contains_key(other),
        before[service].contains_key(other) && chosen != Some(other) ==> after[service][other]
            == before[service][other],
        before[service].contains_key(other) && before[service][other].status
            == ProviderStatus::Active ==> chosen is Some && before[service][chosen->0].status
            == ProviderStatus::Active && after == before,
        before[service].contains_key(other) && before[service][other].status
            == ProviderStatus::StandBy ==> chosen is Some,
        chosen is None ==> after == before,
        chosen matches Some(id) ==> {
            &&& before[service].contains_key(id)
            &&& after[service][id].status == ProviderStatus::Active
            &&& after[service][id].connection == before[service][id].connection
            &&& after[service][id].uri == before[service][id].uri
            &&& after[service][id].created_at == before[service][id].created_at
            &&& after[service][id].idle == before[service][id].idle
            &&& before[service][id].status == ProviderStatus::Active
                || before[service][id].status == ProviderStatus::StandBy
            &&& before[service][id].status == ProviderStatus::StandBy
                && before[service].contains_key(other) && before[service][other].status
                == ProviderStatus::StandBy ==> not_later(
                before[service][id].created_at,
                before[service][other].created_at,
            )
        },
{
    let members = before[service];
    if members.contains_key(other) {
        assert(is_in(members, other, members[other].status));
    }
    if chosen is Some && members[chosen->0].status == ProviderStatus::Active {
        assert(is_in(members, chosen->0, ProviderStatus::Active));
        assert(any_in(members, ProviderStatus::Active));
        assert(after == before);
    }
}

/// A service without providers has none to find, and stays unknown.
pub proof fn law_nothing_is_found_in_an_unknown_service<C>(
    before: Groups<ProviderEntry<C>>,
    service: Seq<char>,
    chosen: Option<usize>,
    after: Groups<ProviderEntry<C>>,
)
    requires
        found_provider(before, service, chosen, after),
        !before.contains_key(service),
    ensures
        chosen is None,
        after == before,
{
}

/// A provider that a look found ends the search, at any time and whatever was tried
/// before. A look that found nothing never does so.
pub proof fn law_found_provider_ends_the_search(
    search: ProviderSearch,
    chosen: Option<usize>,
    has_service: bool,
    elapsed: u64,
    timeout: u64,
)
    ensures
        ({
            let (next, step) = search_step(search, chosen, has_service, elapsed, timeout);
            &&& chosen matches Some(id) ==> step == SearchStep::Found(id) && next == search
            &&& chosen is None && elapsed < timeout ==> step is Wait
            &&& chosen is None && elapsed >= timeout ==> step is GiveUp
        }),
{
}

/// The first look that finds nothing has the provider of a configured service
/// started, at any time and whether or not the time is up; no later look does.
pub proof fn law_first_miss_starts_the_provider(
    has_service: bool,
    elapsed: u64,
    later: u64,
    timeout: u64,
)
    ensures
        ({
            let new = ProviderSearch { start_attempted: false };
            let (second, step) = search_step(new, None, has_service, elapsed, timeout);
            let (third, next) = search_step(second, None, has_service, later, timeout);
            &&& match step {
                SearchStep::Found(_) => false,
                SearchStep::Wait { start_provider } => start_provider == has_service,
                SearchStep::GiveUp { start_provider } => start_provider == has_service,
            }
            &&& match next {
                SearchStep::Found(_) => false,
                SearchStep::Wait { start_provider } => !start_provider,
                SearchStep::GiveUp { start_provider } => !start_provider,
            }
        }),
{
}

/// A search for a consumer with a configured service has had the provider started
/// exactly once as soon as one of its looks found nothing, whenever that was.
pub proof fn law_a_miss_starts_the_provider_once(
    looks: Seq<(Option<usize>, u64)>,
    timeout: u64,
)
    ensures
        searched(looks, true, timeout).1 == (if exists|i: int|
            0 <= i < looks.len() && (#[trigger] looks[i]).0 is None {
            1int
        } else {
            0int
        }),
        searched(looks, true, timeout).0.start_attempted <==> exists|i: int|
            0 <= i < looks.len() && (#[trigger] looks[i]).0 is None,
    decreases looks.len(),
{
    if looks.len() > 0 {
        let front = looks.drop_last();
        law_a_miss_starts_the_provider_once(front, timeout);
        if exists|i: int| 0 <= i < front.len() && (#[trigger] front[i]).0 is None {
            let i = choose|i: int| 0 <= i < front.len() && (#[trigger] front[i]).0 is None;
            assert(looks[i].0 is None);
        }
        if exists|i: int| 0 <= i < looks.len() && (#[trigger] looks[i]).0 is None {
            let i = choose|i: int| 0 <= i < looks.len() && (#[trigger] looks[i]).0 is None;
            if i < front.len() {
                assert(front[i].0 is None);
            }
        }
        let last = looks.len() - 1;
        if looks.last().0 is None {
            assert(looks[last].0 is None);
        }
    }
}

/// A search lasts ten minutes and looks once a second.
pub proof fn law_search_lasts_ten_minutes()
    ensures
        PROVIDER_SEARCH_TIMEOUT_NS == 10 * 60 * 1_000_000_000,
        PROVIDER_SEARCH_INTERVAL_SECS == 1,
{
}

} // verus!
