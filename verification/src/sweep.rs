//! The periodic look at all connections: which idle providers to stop, which
//! consumers to tell, and what to report.

use vstd::prelude::*;
use vstd::string::*;
use vstd::utf8::encode_utf8;

use crate::clock::{in_calendar, law_whole_units, seconds_between, truncated, Timestamp};
use crate::config::{
    find_hub, find_service, first_index, hub_place, law_service_is_found_by_name,
    lemma_first_index, service_named, AppConfig, ServiceConfig,
};
use crate::connection_table::{connected, pairs, ConnectionKey, Groups};
use crate::idle::{law_idle_time_begins_with_the_last_stream, StreamCounters};
use crate::providers::{ProviderEntry, ProviderRegistry, ProviderSample};
use crate::service_map::ServiceMap;
use crate::text::{decimal, same_text, signed_text};

verus! {

/// Provider `entry` after a look at its streams at second `now`.
pub open spec fn looked_at<C>(
    entry: ProviderEntry<C>,
    streams: StreamCounters,
    now: i64,
) -> ProviderEntry<C> {
    ProviderEntry { idle: entry.idle.after_look(streams, now), ..entry }
}

/// Whether `sample` is what a look at provider `key`, which is `entry`, sees at
/// second `now`.
pub open spec fn sample_of<C>(
    sample: ProviderSample,
    key: (Seq<char>, usize),
    entry: ProviderEntry<C>,
    streams: StreamCounters,
    now: i64,
) -> bool {
    let idle_since = looked_at(entry, streams, now).idle.idle_since;
    &&& sample.service@ == key.0
    &&& sample.id == key.1
    &&& sample.uri@ == entry.uri@
    &&& sample.status == entry.status
    &&& sample.streams == streams
    &&& sample.idle_since == (if !streams.busy() && in_calendar(idle_since) {
        Some(Timestamp { secs: idle_since, nanos: 0 })
    } else {
        None
    })
}

/// Whether the look at the providers `keys`, each with its streams and its reading
/// of the clock, turns `before` into `after`: it moves their idle clocks on and
/// changes nothing else.
pub open spec fn swept<C>(
    before: Groups<ProviderEntry<C>>,
    after: Groups<ProviderEntry<C>>,
    keys: Seq<(Seq<char>, usize)>,
    streams: Seq<StreamCounters>,
    now: Seq<i64>,
) -> bool {
    &&& after.dom() == before.dom()
    &&& forall|p: (Seq<char>, usize)| #[trigger] connected(after, p) == connected(before, p)
    &&& forall|p: (Seq<char>, usize)| #[trigger]
        connected(after, p) && !keys.contains(p) ==> after[p.0][p.1] == before[p.0][p.1]
    &&& forall|i: int|
        0 <= i < keys.len() ==> after[(#[trigger] keys[i]).0][keys[i].1] == looked_at(
            before[keys[i].0][keys[i].1],
            streams[i],
            now[i],
        )
}

/// Looks at the providers `keys`: moves their idle clocks on and takes a sample of
/// each. `streams` and `now` hold the stream counts of each provider and the second
/// at which it is looked at.
pub fn take_samples<C>(
    registry: &mut ProviderRegistry<C>,
    keys: &Vec<ConnectionKey>,
    streams: &Vec<StreamCounters>,
    now: &Vec<i64>,
) -> (r: Vec<ProviderSample>)
    requires
        old(registry).wf(),
        streams@.len() == keys@.len(),
        now@.len() == keys@.len(),
        pairs(keys@).no_duplicates(),
        forall|i: int| 0 <= i < keys@.len() ==> connected(old(registry)@, #[trigger] pairs(keys@)[i]),
    ensures
        final(registry).wf(),
        swept(old(registry)@, final(registry)@, pairs(keys@), streams@, now@),
        r@.len() == keys@.len(),
        forall|i: int|
            0 <= i < r@.len() ==> sample_of(
                #[trigger] r@[i],
                pairs(keys@)[i],
                old(registry)@[pairs(keys@)[i].0][pairs(keys@)[i].1],
                streams@[i],
                now@[i],
            ),
        forall|i: int|
            0 <= i < r@.len() ==> ((#[trigger] r@[i]).idle_since matches Some(since) ==> since.wf()),
{
    let ghost before = registry@;
    let ghost all = pairs(keys@);
    let mut r: Vec<ProviderSample> = Vec::new();
    let mut k: usize = 0;
    while k < keys.len()
        invariant
            k <= keys@.len(),
            registry.wf(),
            streams@.len() == keys@.len(),
            now@.len() == keys@.len(),
            all == pairs(keys@),
            all.no_duplicates(),
            forall|i: int| 0 <= i < keys@.len() ==> connected(before, #[trigger] all[i]),
            swept(before, registry@, all.take(k as int), streams@, now@),
            r@.len() == k,
            forall|i: int|
                0 <= i < k ==> sample_of(
                    #[trigger] r@[i],
                    all[i],
                    before[all[i].0][all[i].1],
                    streams@[i],
                    now@[i],
                ),
            forall|i: int|
                0 <= i < k ==> ((#[trigger] r@[i]).idle_since matches Some(since) ==> since.wf()),
        decreases keys@.len() - k,
    {
        let ghost middle = registry@;
        let ghost p = all[k as int];
        let ghost done = all.take(k as int);
        proof {
            assert(connected(before, p));
            assert(connected(middle, p));
            assert(p == keys@[k as int].pair());
            if done.contains(p) {
                let j = choose|j: int| 0 <= j < done.len() && done[j] == p;
                assert(all[j] == all[k as int]);
            }
        }
        match registry.sample(keys[k].name.as_str(), keys[k].id, streams[k], now[k]) {
            Some(sample) => {
                r.push(sample);
                proof {
                    let after = registry@;
                    let next = all.take(k + 1);
                    assert(next =~= done.push(p));
                    assert(after.dom() =~= before.dom());
                    assert forall|q: (Seq<char>, usize)| #[trigger]
                        connected(after, q) == connected(before, q) by {
                        assert(connected(middle, q) == connected(before, q));
                    }
                    assert forall|q: (Seq<char>, usize)| #[trigger]
                        connected(after, q) && !next.contains(q) implies after[q.0][q.1]
                        == before[q.0][q.1] by {
                        assert(next[k as int] == p);
                        assert(connected(middle, q));
                        if done.contains(q) {
                            let j = choose|j: int| 0 <= j < done.len() && done[j] == q;
                            assert(next[j] == q);
                        }
                    }
                    assert forall|i: int| 0 <= i < next.len() implies after[(#[trigger] next[i]).0][next[i].1]
                        == looked_at(before[next[i].0][next[i].1], streams@[i], now@[i]) by {
                        if i < k {
                            assert(done[i] == next[i]);
                            assert(next[i] != p);
                        }
                    }
                }
            },
            None => {
                proof {
                    assert(false);
                }
            },
        }
        k = k + 1;
    }
    proof {
        assert(all.take(k as int) =~= all);
    }
    r
}

/// The code and the reason that the connection of an idle provider is closed with.
pub fn idle_close() -> (r: (u32, Vec<u8>))
    ensures
        r.0 == 0,
        r.1@ == encode_utf8("idle timeout"@),
{
    (0, "idle timeout".as_bytes_vec())
}

/// Stop one idle provider: close its connection as [`idle_close`] says, then stop
/// what runs behind it.
pub struct IdleStop {
    /// The provider, by its place among the samples.
    pub provider: usize,
    /// Its service, by its place among the services of the hub.
    pub service: usize,
    /// The seconds for which it has been idle.
    pub idle_duration: u64,
    /// The consumers of the service, by their places among the consumers.
    pub consumers: Vec<usize>,
}

/// What a sweep decides.
pub struct IdlePlan {
    /// The hub in the configuration: the places of its realm and of the hub.
    pub hub: Option<(usize, usize)>,
    /// The providers to stop.
    pub stops: Vec<IdleStop>,
}

/// `r` holds, in order, the places below `n` that satisfy `p`.
pub open spec fn selects(r: Seq<usize>, n: int, p: spec_fn(int) -> bool) -> bool {
    &&& forall|i: int, j: int| 0 <= i < j < r.len() ==> #[trigger] r[i] < #[trigger] r[j]
    &&& forall|i: int| 0 <= i < r.len() ==> (#[trigger] r[i]) < n && p(r[i] as int)
    &&& forall|k: int| 0 <= k < n && #[trigger] p(k) ==> r.contains(k as usize)
}

proof fn lemma_selects_next(r: Seq<usize>, n: usize, p: spec_fn(int) -> bool)
    requires
        selects(r, n as int, p),
        n < usize::MAX,
    ensures
        p(n as int) ==> selects(r.push(n), n + 1, p),
        !p(n as int) ==> selects(r, n + 1, p),
{
    let t = r.push(n);
    assert forall|k: int| 0 <= k < n + 1 && #[trigger] p(k) && p(n as int) implies t.contains(k as usize) by {
        if k < n {
            assert(r.contains(k as usize));
            let i = choose|i: int| 0 <= i < r.len() && r[i] == k as usize;
            assert(t[i] == k as usize);
        } else {
            assert(t[r.len() as int] == n);
        }
    }
}

/// The seconds from `since` to `now`, as an unsigned 64-bit number: a time
/// before `since` wraps round to a huge one.
pub open spec fn idle_seconds(since: Timestamp, now: Timestamp) -> int {
    let n = truncated(now.instant() - since.instant(), 1_000_000_000);
    if n < 0 {
        n + 0x1_0000_0000_0000_0000
    } else {
        n
    }
}

/// Whether the provider `sample` is to be stopped at `now`, and if so which of
/// `services` is its own and for how long it has been idle. It is, if it is
/// idle, its service has an idle timeout, and that time has passed.
pub open spec fn overdue(services: Seq<ServiceConfig>, sample: ProviderSample, now: Timestamp) -> Option<
    (int, int),
> {
    let k = first_index(services, service_named(sample.service@));
    match sample.idle_since {
        Some(since) => if k < services.len() {
            let timeout = services[k].availability_management.idle_timeout;
            if timeout > 0 && idle_seconds(since, now) >= timeout {
                Some((k, idle_seconds(since, now)))
            } else {
                None
            }
        } else {
            None
        },
        None => None,
    }
}

/// The places of `samples` that are overdue at their readings of the clock.
pub open spec fn overdue_at(
    services: Seq<ServiceConfig>,
    samples: Seq<ProviderSample>,
    clock: Seq<Timestamp>,
) -> spec_fn(int) -> bool {
    |i: int| overdue(services, samples[i], clock[i]) is Some
}

/// The places of the consumers that `map` has in the service `service`.
pub open spec fn consumer_of(
    consumers: Seq<ConnectionKey>,
    map: ServiceMap,
    service: Seq<char>,
) -> spec_fn(int) -> bool {
    |i: int|
        match map.service(consumers[i].name@) {
            Some(identity) => identity.0 == service,
            None => false,
        }
}

/// `stop` is what `overdue` asks for, with all consumers of the service.
pub open spec fn stop_matches(
    stop: IdleStop,
    services: Seq<ServiceConfig>,
    samples: Seq<ProviderSample>,
    clock: Seq<Timestamp>,
    consumers: Seq<ConnectionKey>,
    map: ServiceMap,
) -> bool {
    let sample = samples[stop.provider as int];
    &&& overdue(services, sample, clock[stop.provider as int]) == Some(
        (stop.service as int, stop.idle_duration as int),
    )
    &&& selects(
        stop.consumers@,
        consumers.len() as int,
        consumer_of(consumers, map, sample.service@),
    )
}

/// The providers that `stops` name.
pub open spec fn stopped(stops: Seq<IdleStop>) -> Seq<usize> {
    stops.map_values(|s: IdleStop| s.provider)
}

/// The consumers that `map` has in the service `service`.
fn consumers_of(consumers: &Vec<ConnectionKey>, map: &ServiceMap, service: &str) -> (r: Vec<usize>)
    ensures
        selects(r@, consumers@.len() as int, consumer_of(consumers@, *map, service@)),
{
    let ghost p = consumer_of(consumers@, *map, service@);
    let mut r: Vec<usize> = Vec::new();
    let mut i: usize = 0;
    while i < consumers.len()
        invariant
            i <= consumers@.len(),
            p == consumer_of(consumers@, *map, service@),
            selects(r@, i as int, p),
        decreases consumers@.len() - i,
    {
        proof {
            lemma_selects_next(r@, i, p);
        }
        match map.get(consumers[i].name.as_str()) {
            Some(info) => {
                if same_text(info.name.as_str(), service) {
                    r.push(i);
                }
            },
            None => {},
        }
        i = i + 1;
    }
    r
}

fn check_overdue(services: &Vec<ServiceConfig>, sample: &ProviderSample, now: Timestamp) -> (r: Option<
    (usize, u64),
>)
    requires
        now.wf(),
        sample.idle_since matches Some(since) ==> since.wf(),
    ensures
        match r {
            Some((k, d)) => k < services@.len() && overdue(services@, *sample, now) == Some(
                (k as int, d as int),
            ),
            None => overdue(services@, *sample, now) is None,
        },
{
    match sample.idle_since {
        Some(since) => match find_service(services, sample.service.as_str()) {
            Some(k) => {
                let idle_timeout: u64 = services[k].availability_management.idle_timeout;
                let signed: i64 = seconds_between(now, since);
                let idle_duration: u64 = if signed >= 0 {
                    signed as u64
                } else {
                    u64::MAX - (-(signed + 1)) as u64
                };
                if idle_timeout > 0 && idle_duration >= idle_timeout {
                    Some((k, idle_duration))
                } else {
                    None
                }
            },
            None => None,
        },
        None => None,
    }
}

/// Which providers of the hub `hub` of realm `realm` have been idle for longer
/// than their services allow. `clock[i]` is the time read for `samples[i]`.
pub fn plan_idle_stops(
    config: &AppConfig,
    realm: &str,
    hub: &str,
    samples: &Vec<ProviderSample>,
    clock: &Vec<Timestamp>,
    consumers: &Vec<ConnectionKey>,
    map: &ServiceMap,
) -> (r: IdlePlan)
    requires
        clock@.len() == samples@.len(),
        forall|i: int| 0 <= i < clock@.len() ==> (#[trigger] clock@[i]).wf(),
        forall|i: int|
            0 <= i < samples@.len() ==> ((#[trigger] samples@[i]).idle_since matches Some(since)
                ==> since.wf()),
    ensures
        match hub_place(config.realms@, realm@, hub@, false) {
            Some((i, k)) => {
                let services = config.realms@[i].hubs@[k].services@;
                &&& r.hub == Some((i as usize, k as usize))
                &&& selects(
                    stopped(r.stops@),
                    samples@.len() as int,
                    overdue_at(services, samples@, clock@),
                )
                &&& forall|n: int|
                    0 <= n < r.stops@.len() ==> stop_matches(
                        #[trigger] r.stops@[n],
                        services,
                        samples@,
                        clock@,
                        consumers@,
                        *map,
                    )
            },
            None => r.hub is None && r.stops@.len() == 0,
        },
{
    let (i, k): (usize, usize) = match find_hub(config, realm, hub, false) {
        Some(place) => place,
        None => {
            return IdlePlan { hub: None, stops: Vec::new() };
        },
    };
    let services = &config.realms[i].hubs[k].services;
    let ghost p = overdue_at(services@, samples@, clock@);
    let mut stops: Vec<IdleStop> = Vec::new();
    let mut n: usize = 0;
    proof {
        assert(stopped(stops@) =~= Seq::<usize>::empty());
    }
    while n < samples.len()
        invariant
            n <= samples@.len(),
            clock@.len() == samples@.len(),
            forall|i: int| 0 <= i < clock@.len() ==> (#[trigger] clock@[i]).wf(),
            forall|i: int|
                0 <= i < samples@.len() ==> ((#[trigger] samples@[i]).idle_since matches Some(since)
                    ==> since.wf()),
            p == overdue_at(services@, samples@, clock@),
            selects(stopped(stops@), n as int, p),
            forall|m: int|
                0 <= m < stops@.len() ==> stop_matches(
                    #[trigger] stops@[m],
                    services@,
                    samples@,
                    clock@,
                    consumers@,
                    *map,
                ),
        decreases samples@.len() - n,
    {
        let ghost before = stops@;
        proof {
            lemma_selects_next(stopped(before), n, p);
        }
        match check_overdue(services, &samples[n], clock[n]) {
            Some((service, idle_duration)) => {
                let told = consumers_of(consumers, map, samples[n].service.as_str());
                stops.push(IdleStop { provider: n, service, idle_duration, consumers: told });
                proof {
                    assert(stopped(stops@) =~= stopped(before).push(n));
                }
            },
            None => {},
        }
        n = n + 1;
    }
    IdlePlan { hub: Some((i, k)), stops }
}

/// Whom to tell that the provider of a stop is gone: the consumers of its
/// service if the stop succeeded, nobody otherwise.
pub fn consumers_to_notify(stop: IdleStop, stop_succeeded: bool) -> (r: Vec<usize>)
    ensures
        r@ == (if stop_succeeded {
            stop.consumers@
        } else {
            Seq::empty()
        }),
{
    if stop_succeeded {
        stop.consumers
    } else {
        Vec::new()
    }
}

/// The idle status of a provider in words.
pub fn idle_status(idle_since: Option<Timestamp>, now: Timestamp) -> (r: String)
    requires
        now.wf(),
        idle_since matches Some(since) ==> since.wf(),
    ensures
        r@ == (match idle_since {
            Some(since) => "idle for "@ + decimal(
                truncated(now.instant() - since.instant(), 1_000_000_000),
            ) + "s"@,
            None => "busy"@,
        }),
{
    match idle_since {
        Some(since) => {
            let mut r = "idle for ".to_owned();
            r.append(signed_text(seconds_between(now, since)).as_str());
            r.append("s");
            r
        },
        None => "busy".to_owned(),
    }
}

/// A busy provider is never stopped.
pub proof fn law_busy_provider_is_not_stopped(
    services: Seq<ServiceConfig>,
    sample: ProviderSample,
    now: Timestamp,
)
    requires
        sample.idle_since is None,
    ensures
        overdue(services, sample, now) is None,
{
}

/// A service with an idle timeout of 0 keeps its provider for ever.
pub proof fn law_no_timeout_no_stop(
    services: Seq<ServiceConfig>,
    sample: ProviderSample,
    now: Timestamp,
)
    requires
        ({
            let k = first_index(services, service_named(sample.service@));
            k < services.len() ==> services[k].availability_management.idle_timeout == 0
        }),
    ensures
        overdue(services, sample, now) is None,
{
}

/// A provider is stopped no earlier than its idle timeout: on a clock that does
/// not run backwards, that many whole seconds have passed since it became idle.
pub proof fn law_stop_not_before_timeout(
    services: Seq<ServiceConfig>,
    sample: ProviderSample,
    now: Timestamp,
)
    requires
        sample.idle_since matches Some(since) && since.instant() <= now.instant(),
    ensures
        match (overdue(services, sample, now), sample.idle_since) {
            (Some((k, _idle)), Some(since)) => now.instant() - since.instant()
                >= services[k].availability_management.idle_timeout * 1_000_000_000,
            _ => true,
        },
{
    match (overdue(services, sample, now), sample.idle_since) {
        (Some((k, _idle)), Some(since)) => {
            let d = now.instant() - since.instant();
            let timeout = services[k].availability_management.idle_timeout as int;
            assert(d / 1_000_000_000 >= timeout);
            assert(d >= timeout * 1_000_000_000);
        },
        _ => {},
    }
}

/// The idle time is the whole number of seconds gone by. Where the clock went back,
/// it is as far below the end of the 64-bit numbers as the clock went back.
pub proof fn law_idle_time_is_in_whole_seconds(since: Timestamp, now: Timestamp)
    ensures
        ({
            let gone = now.instant() - since.instant();
            let seconds = idle_seconds(since, now);
            &&& gone >= 0 ==> seconds * 1_000_000_000 <= gone < (seconds + 1) * 1_000_000_000
            &&& -1_000_000_000 < gone < 0 ==> seconds == 0
            &&& gone <= -1_000_000_000 ==> (0x1_0000_0000_0000_0000 - seconds) * 1_000_000_000
                <= -gone < (0x1_0000_0000_0000_0000 - seconds + 1) * 1_000_000_000
        }),
{
    let gone = now.instant() - since.instant();
    if gone >= 0 {
        law_whole_units(gone, 1_000_000_000);
    } else {
        law_whole_units(-gone, 1_000_000_000);
    }
}

/// Every provider that has been idle for the timeout of its service, or longer, is
/// among those that are stopped, whatever its streams and its status are.
pub proof fn law_idle_provider_is_stopped(
    services: Seq<ServiceConfig>,
    samples: Seq<ProviderSample>,
    clock: Seq<Timestamp>,
    stops: Seq<IdleStop>,
    i: usize,
    k: int,
    since: Timestamp,
) -> (n: int)
    requires
        selects(stopped(stops), samples.len() as int, overdue_at(services, samples, clock)),
        i < samples.len(),
        samples[i as int].idle_since == Some(since),
        0 <= k < services.len(),
        services[k].name@ == samples[i as int].service@,
        forall|j: int| 0 <= j < k ==> (#[trigger] services[j]).name@ != samples[i as int].service@,
        services[k].availability_management.idle_timeout > 0,
        clock[i as int].instant() - since.instant()
            >= services[k].availability_management.idle_timeout * 1_000_000_000,
    ensures
        0 <= n < stops.len(),
        stops[n].provider == i,
{
    let sample = samples[i as int];
    let now = clock[i as int];
    let timeout = services[k].availability_management.idle_timeout;
    law_service_is_found_by_name(services, sample.service@, k);
    law_idle_time_is_in_whole_seconds(since, now);
    assert(idle_seconds(since, now) >= timeout) by (nonlinear_arith)
        requires
            now.instant() - since.instant() >= timeout * 1_000_000_000,
            now.instant() - since.instant() < (idle_seconds(since, now) + 1) * 1_000_000_000,
    ;
    let p = overdue_at(services, samples, clock);
    assert(overdue(services, sample, now) is Some);
    assert(p(i as int));
    assert(stopped(stops).contains(i));
    let n = choose|n: int| 0 <= n < stopped(stops).len() && stopped(stops)[n] == i;
    assert(stops[n].provider == i);
    n
}

/// A provider that is stopped belongs to the service that the stop names, which has a
/// timeout, and was idle for that long; the stop tells for how many whole seconds. No
/// provider is stopped twice.
pub proof fn law_stopped_provider_was_idle(
    services: Seq<ServiceConfig>,
    samples: Seq<ProviderSample>,
    clock: Seq<Timestamp>,
    consumers: Seq<ConnectionKey>,
    map: ServiceMap,
    stops: Seq<IdleStop>,
    n: int,
    m: int,
)
    requires
        selects(stopped(stops), samples.len() as int, overdue_at(services, samples, clock)),
        0 <= n < stops.len(),
        0 <= m < stops.len(),
        stop_matches(stops[n], services, samples, clock, consumers, map),
    ensures
        ({
            let stop = stops[n];
            let sample = samples[stop.provider as int];
            let now = clock[stop.provider as int];
            let timeout = services[stop.service as int].availability_management.idle_timeout;
            &&& stop.provider < samples.len()
            &&& stop.service < services.len()
            &&& services[stop.service as int].name@ == sample.service@
            &&& timeout > 0
            &&& stop.idle_duration >= timeout
            &&& sample.idle_since matches Some(since) && (now.instant() >= since.instant() ==> {
                &&& stop.idle_duration * 1_000_000_000 <= now.instant() - since.instant()
                &&& now.instant() - since.instant() < (stop.idle_duration + 1) * 1_000_000_000
            })
        }),
        n < m ==> stops[n].provider < stops[m].provider,
        m < n ==> stops[m].provider < stops[n].provider,
{
    let stop = stops[n];
    let sample = samples[stop.provider as int];
    assert(stopped(stops)[n] == stop.provider);
    assert(stopped(stops)[m] == stops[m].provider);
    lemma_first_index(services, service_named(sample.service@));
    let p = service_named(sample.service@);
    assert(p(services[stop.service as int]));
    law_idle_time_is_in_whole_seconds(sample.idle_since->0, clock[stop.provider as int]);
}

/// A stop tells exactly the consumers that the service map has in the service of the
/// provider, in their order.
pub proof fn law_consumers_of_the_service_are_told(
    services: Seq<ServiceConfig>,
    samples: Seq<ProviderSample>,
    clock: Seq<Timestamp>,
    consumers: Seq<ConnectionKey>,
    map: ServiceMap,
    stop: IdleStop,
    j: usize,
)
    requires
        stop_matches(stop, services, samples, clock, consumers, map),
        j < consumers.len(),
    ensures
        stop.consumers@.contains(j) <==> (map.service(consumers[j as int].name@) matches Some(
            identity,
        ) && identity.0 == samples[stop.provider as int].service@),
        forall|a: int, b: int|
            0 <= a < b < stop.consumers@.len() ==> #[trigger] stop.consumers@[a]
                < #[trigger] stop.consumers@[b],
        forall|k: int| 0 <= k < stop.consumers@.len() ==> #[trigger] stop.consumers@[k]
            < consumers.len(),
{
    let p = consumer_of(consumers, map, samples[stop.provider as int].service@);
    if stop.consumers@.contains(j) {
        let k = choose|k: int| 0 <= k < stop.consumers@.len() && stop.consumers@[k] == j;
        assert(p(stop.consumers@[k] as int));
    }
    if p(j as int) {
        assert(stop.consumers@.contains(j as int as usize));
    }
}

/// A sweep moves idle clocks on and changes nothing else: every provider stays with
/// its connection, status, URI and time of arrival, and one that was not looked at
/// keeps its idle clock too.
pub proof fn law_sweep_moves_idle_clocks_only<C>(
    before: Groups<ProviderEntry<C>>,
    after: Groups<ProviderEntry<C>>,
    keys: Seq<(Seq<char>, usize)>,
    streams: Seq<StreamCounters>,
    now: Seq<i64>,
    service: Seq<char>,
    id: usize,
)
    requires
        swept(before, after, keys, streams, now),
    ensures
        (after.contains_key(service) && after[service].contains_key(id)) == (before.contains_key(
            service,
        ) && before[service].contains_key(id)),
        before.contains_key(service) && before[service].contains_key(id) ==> {
            &&& after[service][id].connection == before[service][id].connection
            &&& after[service][id].status == before[service][id].status
            &&& after[service][id].uri == before[service][id].uri
            &&& after[service][id].created_at == before[service][id].created_at
            &&& !keys.contains((service, id)) ==> after[service][id].idle
                == before[service][id].idle
        },
{
    let p = (service, id);
    assert(connected(after, p) == connected(before, p));
    if keys.contains(p) {
        let i = choose|i: int| 0 <= i < keys.len() && keys[i] == p;
        assert(keys[i] == p);
    }
}

/// A provider that was looked at has no idle time while it has open streams. Without,
/// its idle clock goes on where no stream was opened since, and starts at the look
/// otherwise.
pub proof fn law_sweep_follows_the_streams<C>(
    before: Groups<ProviderEntry<C>>,
    after: Groups<ProviderEntry<C>>,
    keys: Seq<(Seq<char>, usize)>,
    streams: Seq<StreamCounters>,
    now: Seq<i64>,
    i: int,
)
    requires
        swept(before, after, keys, streams, now),
        0 <= i < keys.len(),
    ensures
        ({
            let old_idle = before[keys[i].0][keys[i].1].idle;
            let idle = after[keys[i].0][keys[i].1].idle;
            let s = streams[i];
            &&& s.opened > s.closed ==> idle.idle_since == 0
            &&& s.opened <= s.closed ==> idle.streams_at_idle_start == s.opened
            &&& s.opened <= s.closed && old_idle.idle_since != 0 && old_idle.streams_at_idle_start
                == s.opened ==> idle.idle_since == old_idle.idle_since
            &&& s.opened <= s.closed && (old_idle.idle_since == 0 || old_idle.streams_at_idle_start
                != s.opened) ==> idle.idle_since == now[i]
        }),
{
    let entry = before[keys[i].0][keys[i].1];
    law_idle_time_begins_with_the_last_stream(entry.idle, streams[i], now[i]);
}

/// A sample shows the provider as it is, and its idle time exactly where it has no
/// open stream: the second that its idle clock began at.
pub proof fn law_sample_shows_the_provider<C>(
    sample: ProviderSample,
    key: (Seq<char>, usize),
    entry: ProviderEntry<C>,
    streams: StreamCounters,
    now: i64,
)
    requires
        sample_of(sample, key, entry, streams, now),
    ensures
        sample.service@ == key.0,
        sample.id == key.1,
        sample.uri@ == entry.uri@,
        sample.status == entry.status,
        sample.streams == streams,
        streams.opened > streams.closed ==> sample.idle_since is None,
        sample.idle_since matches Some(since) ==> since.nanos == 0 && since.secs == (if entry.idle.idle_since
            != 0 && entry.idle.streams_at_idle_start == streams.opened {
            entry.idle.idle_since
        } else {
            now
        }),
        streams.opened <= streams.closed && -8_334_601_228_800 <= (if entry.idle.idle_since != 0
            && entry.idle.streams_at_idle_start == streams.opened {
            entry.idle.idle_since
        } else {
            now
        }) <= 8_210_266_876_799 ==> sample.idle_since is Some,
{
    law_idle_time_begins_with_the_last_stream(entry.idle, streams, now);
}

} // verus!
