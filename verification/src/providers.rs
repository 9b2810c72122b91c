//! The connected providers of each service.
//!
//! At most one provider of a service is active; the others stand by or are
//! shutting down. Consumers are sent to the active one.

use std::collections::HashMap;

use vstd::prelude::*;

use crate::clock::{in_calendar, Timestamp};
use crate::connection_table::{connections, group, pairs, ConnectionKey, ConnectionTable, Groups};
use crate::idle::{IdleTracker, StreamCounters};

verus! {

broadcast use vstd::std_specs::hash::group_hash_axioms;

/// Represents the operational status of a provider.
#[derive(Clone, Copy, PartialEq, Eq, Structural, Debug)]
pub enum ProviderStatus {
    /// The provider is active and can accept new consumer streams.
    Active,
    /// The provider is shutting down and will not accept new consumer streams.
    ShuttingDown,
    /// The provider is waiting for the active provider to disconnect.
    StandBy,
}

/// Stores the provider's connection and its current status.
pub struct ProviderEntry<C> {
    pub connection: C,
    pub status: ProviderStatus,
    pub uri: String,
    pub created_at: Timestamp,
    pub idle: IdleTracker,
}

/// The providers of one service, by connection ID.
pub type Providers<C> = Map<usize, ProviderEntry<C>>;

/// The connected providers, by service and connection ID.
pub struct ProviderRegistry<C> {
    table: ConnectionTable<ProviderEntry<C>>,
}

/// What a disconnection changed.
#[derive(Clone, Copy, PartialEq, Eq, Structural, Debug)]
pub struct Departure {
    /// Whether the provider was registered.
    pub removed: bool,
    /// The provider that became active in its place.
    pub promoted: Option<usize>,
}

/// What a look at the providers of a service found.
#[derive(Clone, Copy, PartialEq, Eq, Structural, Debug)]
pub struct Lookup {
    /// The active provider.
    pub active: Option<usize>,
    /// Whether a provider stands by.
    pub has_standby: bool,
}

/// One provider as a sweep saw it.
pub struct ProviderSample {
    pub service: String,
    pub id: usize,
    pub uri: String,
    pub status: ProviderStatus,
    pub streams: StreamCounters,
    /// Since when it has been idle; `None` for a busy one.
    pub idle_since: Option<Timestamp>,
}

/// Provider `id` has the status `status`.
pub open spec fn is_in<C>(m: Providers<C>, id: usize, status: ProviderStatus) -> bool {
    m.contains_key(id) && m[id].status == status
}

/// Some provider has the status `status`.
pub open spec fn any_in<C>(m: Providers<C>, status: ProviderStatus) -> bool {
    exists|id: usize| is_in(m, id, status)
}

/// No two providers are active.
pub open spec fn one_active<C>(m: Providers<C>) -> bool {
    forall|a: usize, b: usize|
        is_in(m, a, ProviderStatus::Active) && is_in(m, b, ProviderStatus::Active) ==> a == b
}

/// Provider `id` stands by, and none that stands by was there before it.
pub open spec fn oldest_standby<C>(m: Providers<C>, id: usize) -> bool {
    &&& is_in(m, id, ProviderStatus::StandBy)
    &&& forall|other: usize| #[trigger]
        is_in(m, other, ProviderStatus::StandBy) ==> m[id].created_at.not_after(
            m[other].created_at,
        )
}

/// `m` with the status of provider `id` replaced.
pub open spec fn with_status<C>(m: Providers<C>, id: usize, status: ProviderStatus) -> Providers<C> {
    m.insert(id, ProviderEntry { status, ..m[id] })
}

/// The status that a new provider gets: it is active if no other one is.
pub open spec fn status_on_arrival<C>(m: Providers<C>) -> ProviderStatus {
    if any_in(m, ProviderStatus::Active) {
        ProviderStatus::StandBy
    } else {
        ProviderStatus::Active
    }
}

/// Provider `id` of `service` left `before`, with the result `departure`, and
/// `after` remained. In place of an active provider the oldest one that stands
/// by becomes active. A service without providers is forgotten.
pub open spec fn departed<C>(
    before: Groups<ProviderEntry<C>>,
    service: Seq<char>,
    id: usize,
    departure: Departure,
    after: Groups<ProviderEntry<C>>,
) -> bool {
    let members = group(before, service);
    let rest = members.remove(id);
    let vacant = is_in(members, id, ProviderStatus::Active) && !any_in(rest, ProviderStatus::Active);
    if !members.contains_key(id) {
        &&& departure == (Departure { removed: false, promoted: None })
        &&& after == before
    } else {
        &&& departure.removed
        &&& match departure.promoted {
            Some(next) => {
                &&& vacant
                &&& oldest_standby(rest, next)
                &&& after == before.insert(service, with_status(rest, next, ProviderStatus::Active))
            },
            None => {
                &&& !(vacant && any_in(rest, ProviderStatus::StandBy))
                &&& after == (if rest.is_empty() {
                    before.remove(service)
                } else {
                    before.insert(service, rest)
                })
            },
        }
    }
}

/// A consumer asked `before` for a provider of `service` and got `chosen`;
/// `after` remained. An active provider is taken as it is; without one the
/// oldest provider that stands by becomes active.
pub open spec fn acquired<C>(
    before: Groups<ProviderEntry<C>>,
    service: Seq<char>,
    chosen: Option<usize>,
    after: Groups<ProviderEntry<C>>,
) -> bool {
    let members = group(before, service);
    match chosen {
        Some(id) => {
            ||| {
                &&& is_in(members, id, ProviderStatus::Active)
                &&& after == before.insert(service, members)
            }
            ||| {
                &&& !any_in(members, ProviderStatus::Active)
                &&& oldest_standby(members, id)
                &&& after == before.insert(service, with_status(members, id, ProviderStatus::Active))
            }
        },
        None => {
            &&& !any_in(members, ProviderStatus::Active)
            &&& !any_in(members, ProviderStatus::StandBy)
            &&& after == before.insert(service, members)
        },
    }
}

fn find_active<C>(h: &HashMap<usize, ProviderEntry<C>>) -> (r: Option<usize>)
    ensures
        match r {
            Some(id) => is_in(h@, id, ProviderStatus::Active),
            None => !any_in(h@, ProviderStatus::Active),
        },
{
    for (id, entry) in it: h.iter()
        invariant
            forall|i: int|
                0 <= i < it.index() ==> (*(#[trigger] it.seq()[i]).1).status != ProviderStatus::Active,
    {
        if entry.status == ProviderStatus::Active {
            proof {
                assert(h@.contains_key(*id));
            }
            return Some(*id);
        }
    }
    proof {
        assert forall|id: usize| !is_in(h@, id, ProviderStatus::Active) by {
            if h@.contains_key(id) {
                assert(h@.contains_key(id));
            }
        }
    }
    None
}

fn find_oldest_standby<C>(h: &HashMap<usize, ProviderEntry<C>>) -> (r: Option<usize>)
    ensures
        match r {
            Some(id) => oldest_standby(h@, id),
            None => !any_in(h@, ProviderStatus::StandBy),
        },
{
    let mut best: Option<(usize, Timestamp)> = None;
    for (id, entry) in it: h.iter()
        invariant
            match best {
                Some((found, created_at)) => {
                    &&& is_in(h@, found, ProviderStatus::StandBy)
                    &&& h@[found].created_at == created_at
                    &&& forall|i: int|
                        0 <= i < it.index() && (*(#[trigger] it.seq()[i]).1).status
                            == ProviderStatus::StandBy ==> created_at.not_after(
                            (*it.seq()[i].1).created_at,
                        )
                },
                None => forall|i: int|
                    0 <= i < it.index() ==> (*(#[trigger] it.seq()[i]).1).status
                        != ProviderStatus::StandBy,
            },
    {
        proof {
            assert(h@.contains_key(*id));
        }
        if entry.status == ProviderStatus::StandBy {
            let better: bool = match best {
                Some((_found, created_at)) => entry.created_at.is_before(created_at),
                None => true,
            };
            if better {
                best = Some((*id, entry.created_at));
            }
        }
    }
    match best {
        Some((id, _created_at)) => Some(id),
        None => None,
    }
}

impl<C> View for ProviderRegistry<C> {
    type V = Groups<ProviderEntry<C>>;

    closed spec fn view(&self) -> Groups<ProviderEntry<C>> {
        self.table@
    }
}

impl<C> ProviderRegistry<C> {
    /// No service has two active providers.
    pub closed spec fn wf(&self) -> bool {
        &&& self.table.wf()
        &&& forall|service: Seq<char>| #[trigger]
            self@.contains_key(service) ==> one_active(self@[service])
    }

    /// The providers of `service`.
    pub open spec fn providers(&self, service: Seq<char>) -> Providers<C> {
        group(self@, service)
    }

    /// No service has two active providers.
    pub proof fn law_one_active_provider(&self, service: Seq<char>)
        requires
            self.wf(),
        ensures
            one_active(self.providers(service)),
    {
    }

    /// The registry without providers.
    pub fn new() -> (r: Self)
        ensures
            r.wf(),
            r@ == Map::<Seq<char>, Map<usize, ProviderEntry<C>>>::empty(),
    {
        ProviderRegistry { table: ConnectionTable::new() }
    }

    /// Registers a provider of `service`. It is active if no other one is, and
    /// stands by otherwise. Returns its status.
    pub fn register(
        &mut self,
        service: &str,
        id: usize,
        connection: C,
        uri: String,
        start_at: Timestamp,
    ) -> (r: ProviderStatus)
        requires
            old(self).wf(),
        ensures
            final(self).wf(),
            r == status_on_arrival(old(self).providers(service@)),
            final(self)@ == old(self)@.insert(
                service@,
                old(self).providers(service@).insert(
                    id,
                    (ProviderEntry {
                        connection,
                        status: r,
                        uri,
                        created_at: start_at,
                        idle: IdleTracker { idle_since: start_at.secs, streams_at_idle_start: 0 },
                    }),
                ),
            ),
    {
        let mut members: HashMap<usize, ProviderEntry<C>> = match self.table.take(service) {
            Some(h) => h,
            None => HashMap::new(),
        };
        let ghost before = old(self).providers(service@);
        proof {
            assert(members@ =~= before);
        }
        let status = match find_active(&members) {
            Some(_id) => ProviderStatus::StandBy,
            None => ProviderStatus::Active,
        };
        let entry = ProviderEntry {
            connection,
            status,
            uri,
            created_at: start_at,
            idle: IdleTracker::new(start_at.secs),
        };
        members.insert(id, entry);
        proof {
            assert(one_active(before));
            assert forall|a: usize, b: usize|
                is_in(members@, a, ProviderStatus::Active) && is_in(members@, b, ProviderStatus::Active) implies a
                == b by {
                if a != id {
                    assert(is_in(before, a, ProviderStatus::Active));
                }
                if b != id {
                    assert(is_in(before, b, ProviderStatus::Active));
                }
            }
        }
        let ghost after = members@;
        self.table.put(service.to_owned(), members);
        proof {
            assert(self@ =~= old(self)@.insert(service@, after));
        }
        status
    }

    /// Marks provider `id` of `service` as shutting down. Returns whether it is
    /// registered.
    pub fn mark_shutting_down(&mut self, service: &str, id: usize) -> (r: bool)
        requires
            old(self).wf(),
        ensures
            final(self).wf(),
            r == old(self).providers(service@).contains_key(id),
            final(self)@ == (if r {
                old(self)@.insert(
                    service@,
                    with_status(old(self).providers(service@), id, ProviderStatus::ShuttingDown),
                )
            } else {
                old(self)@
            }),
    {
        self.set_status(service, id, ProviderStatus::ShuttingDown)
    }

    fn set_status(&mut self, service: &str, id: usize, status: ProviderStatus) -> (r: bool)
        requires
            old(self).wf(),
            status == ProviderStatus::Active ==> !any_in(
                old(self).providers(service@),
                ProviderStatus::Active,
            ),
        ensures
            final(self).wf(),
            r == old(self).providers(service@).contains_key(id),
            final(self)@ == (if r {
                old(self)@.insert(
                    service@,
                    with_status(old(self).providers(service@), id, status),
                )
            } else {
                old(self)@
            }),
    {
        match self.table.take(service) {
            Some(mut members) => {
                let ghost before = members@;
                let r: bool = match members.remove(&id) {
                    Some(entry) => {
                        members.insert(
                            id,
                            ProviderEntry {
                                connection: entry.connection,
                                status,
                                uri: entry.uri,
                                created_at: entry.created_at,
                                idle: entry.idle,
                            },
                        );
                        proof {
                            assert(members@ =~= with_status(before, id, status));
                        }
                        true
                    },
                    None => {
                        proof {
                            assert(members@ =~= before);
                        }
                        false
                    },
                };
                proof {
                    assert(old(self)@.contains_key(service@));
                    assert(one_active(before));
                    assert forall|a: usize, b: usize|
                        is_in(members@, a, ProviderStatus::Active) && is_in(
                            members@,
                            b,
                            ProviderStatus::Active,
                        ) implies a == b by {
                        if a != id {
                            assert(is_in(before, a, ProviderStatus::Active));
                        }
                        if b != id {
                            assert(is_in(before, b, ProviderStatus::Active));
                        }
                    }
                }
                let ghost after = members@;
                self.table.put(service.to_owned(), members);
                proof {
                    assert(self@ =~= old(self)@.insert(service@, after));
                    if !r {
                        assert(self@ =~= old(self)@);
                    }
                }
                r
            },
            None => {
                proof {
                    assert(self@ =~= old(self)@);
                }
                false
            },
        }
    }

    /// Removes provider `id` of `service`. If it was active and no other provider
    /// is, the oldest one that stands by becomes active.
    pub fn deregister(&mut self, service: &str, id: usize) -> (r: Departure)
        requires
            old(self).wf(),
        ensures
            final(self).wf(),
            departed(old(self)@, service@, id, r, final(self)@),
    {
        let mut members: HashMap<usize, ProviderEntry<C>> = match self.table.take(service) {
            Some(h) => h,
            None => {
                proof {
                    assert(self@ =~= old(self)@);
                }
                return Departure { removed: false, promoted: None };
            },
        };
        let ghost before = members@;
        proof {
            assert(old(self)@.contains_key(service@));
            assert(one_active(before));
        }
        let was_active: bool = match members.remove(&id) {
            Some(entry) => entry.status == ProviderStatus::Active,
            None => {
                let ghost same = members@;
                self.table.put(service.to_owned(), members);
                proof {
                    assert(same =~= before);
                    assert(self@ =~= old(self)@);
                }
                return Departure { removed: false, promoted: None };
            },
        };
        let ghost rest = members@;
        proof {
            assert forall|a: usize, b: usize|
                is_in(rest, a, ProviderStatus::Active) && is_in(rest, b, ProviderStatus::Active) implies a
                == b by {
                assert(is_in(before, a, ProviderStatus::Active));
                assert(is_in(before, b, ProviderStatus::Active));
            }
        }
        let vacant: bool = was_active && find_active(&members).is_none();
        let next: Option<usize> = if vacant {
            find_oldest_standby(&members)
        } else {
            None
        };
        match next {
            Some(next) => {
                self.table.put(service.to_owned(), members);
                proof {
                    assert(self@ =~= old(self)@.insert(service@, rest));
                }
                self.set_status(service, next, ProviderStatus::Active);
                proof {
                    assert(self@ =~= old(self)@.insert(
                        service@,
                        with_status(rest, next, ProviderStatus::Active),
                    ));
                }
            },
            None => {
                if members.is_empty() {
                    proof {
                        assert(self@ =~= old(self)@.remove(service@));
                    }
                } else {
                    self.table.put(service.to_owned(), members);
                    proof {
                        assert(self@ =~= old(self)@.insert(service@, rest));
                    }
                }
            },
        }
        Departure { removed: true, promoted: next }
    }

    /// Looks for an active provider of `service`, and whether one stands by.
    pub fn lookup(&self, service: &str) -> (r: Lookup)
        requires
            self.wf(),
        ensures
            match r.active {
                Some(id) => is_in(self.providers(service@), id, ProviderStatus::Active),
                None => !any_in(self.providers(service@), ProviderStatus::Active),
            },
            r.has_standby == any_in(self.providers(service@), ProviderStatus::StandBy),
    {
        match self.table.get(service) {
            Some(members) => Lookup {
                active: find_active(members),
                has_standby: find_oldest_standby(members).is_some(),
            },
            None => Lookup { active: None, has_standby: false },
        }
    }

    /// Chooses the provider of `service` that a consumer is sent to.
    pub fn acquire(&mut self, service: &str) -> (r: Option<usize>)
        requires
            old(self).wf(),
        ensures
            final(self).wf(),
            acquired(old(self)@, service@, r, final(self)@),
    {
        let members: HashMap<usize, ProviderEntry<C>> = match self.table.take(service) {
            Some(h) => h,
            None => HashMap::new(),
        };
        let ghost before = old(self).providers(service@);
        proof {
            assert(members@ =~= before);
            assert(one_active(before));
        }
        let active = find_active(&members);
        let standby = find_oldest_standby(&members);
        self.table.put(service.to_owned(), members);
        proof {
            assert(self@ =~= old(self)@.insert(service@, before));
        }
        match active {
            Some(id) => Some(id),
            None => match standby {
                Some(id) => {
                    self.set_status(service, id, ProviderStatus::Active);
                    proof {
                        assert(self@ =~= old(self)@.insert(
                            service@,
                            with_status(before, id, ProviderStatus::Active),
                        ));
                    }
                    Some(id)
                },
                None => None,
            },
        }
    }

    /// The entry of provider `id` of `service`.
    pub fn get(&self, service: &str, id: usize) -> (r: Option<&ProviderEntry<C>>)
        requires
            self.wf(),
        ensures
            match r {
                Some(entry) => self.providers(service@).contains_key(id) && self.providers(
                    service@,
                )[id] == *entry,
                None => !self.providers(service@).contains_key(id),
            },
    {
        match self.table.get(service) {
            Some(members) => members.get(&id),
            None => None,
        }
    }

    /// Looks at the streams of provider `id` of `service` at second `now` and
    /// moves its idle clock on. `None` if it is not registered.
    pub fn sample(&mut self, service: &str, id: usize, streams: StreamCounters, now: i64) -> (r: Option<
        ProviderSample,
    >)
        requires
            old(self).wf(),
        ensures
            final(self).wf(),
            match r {
                Some(s) => {
                    let entry = old(self).providers(service@)[id];
                    let idle = entry.idle.after_look(streams, now);
                    &&& old(self).providers(service@).contains_key(id)
                    &&& final(self)@ == old(self)@.insert(
                        service@,
                        old(self).providers(service@).insert(id, (ProviderEntry { idle, ..entry })),
                    )
                    &&& s.service@ == service@
                    &&& s.id == id
                    &&& s.uri@ == entry.uri@
                    &&& s.status == entry.status
                    &&& s.streams == streams
                    &&& s.idle_since == (if !streams.busy() && in_calendar(idle.idle_since) {
                        Some(Timestamp { secs: idle.idle_since, nanos: 0 })
                    } else {
                        None
                    })
                },
                None => {
                    &&& !old(self).providers(service@).contains_key(id)
                    &&& final(self)@ == old(self)@
                },
            },
    {
        let mut members: HashMap<usize, ProviderEntry<C>> = match self.table.take(service) {
            Some(h) => h,
            None => {
                proof {
                    assert(self@ =~= old(self)@);
                }
                return None;
            },
        };
        let ghost before = members@;
        proof {
            assert(old(self)@.contains_key(service@));
            assert(one_active(before));
        }
        let r: Option<ProviderSample> = match members.remove(&id) {
            Some(mut entry) => {
                let idle_since = entry.idle.observe(streams, now);
                let s = ProviderSample {
                    service: service.to_owned(),
                    id,
                    uri: entry.uri.clone(),
                    status: entry.status,
                    streams,
                    idle_since,
                };
                members.insert(id, entry);
                Some(s)
            },
            None => None,
        };
        let ghost after = members@;
        proof {
            let idle = before[id].idle.after_look(streams, now);
            if r is Some {
                assert(after =~= before.insert(id, ProviderEntry { idle, ..before[id] }));
            } else {
                assert(after =~= before);
            }
            assert forall|a: usize, b: usize|
                is_in(after, a, ProviderStatus::Active) && is_in(after, b, ProviderStatus::Active) implies a
                == b by {
                assert(is_in(before, a, ProviderStatus::Active));
                assert(is_in(before, b, ProviderStatus::Active));
            }
        }
        self.table.put(service.to_owned(), members);
        proof {
            assert(self@ =~= old(self)@.insert(service@, after));
            if r is None {
                assert(self@ =~= old(self)@);
            }
        }
        r
    }

    /// Names every provider once.
    pub fn list(&self) -> (r: Vec<ConnectionKey>)
        requires
            self.wf(),
        ensures
            pairs(r@).no_duplicates(),
            pairs(r@).to_set() == connections(self@),
    {
        self.table.list()
    }

    /// The number of providers.
    pub fn count(&self) -> (r: usize)
        requires
            self.wf(),
        ensures
            r == connections(self@).len(),
    {
        self.table.count()
    }

    /// The number of services with providers.
    pub fn service_count(&self) -> (r: usize)
        requires
            self.wf(),
        ensures
            r == self@.dom().len(),
    {
        self.table.group_count()
    }
}

/// When the active provider leaves and another one stands by, the service still
/// has an active provider.
pub proof fn law_departure_keeps_service_available<C>(
    before: Groups<ProviderEntry<C>>,
    service: Seq<char>,
    id: usize,
    departure: Departure,
    after: Groups<ProviderEntry<C>>,
)
    requires
        departed(before, service, id, departure, after),
        one_active(group(before, service)),
        is_in(group(before, service), id, ProviderStatus::Active),
        any_in(group(before, service).remove(id), ProviderStatus::StandBy),
    ensures
        departure.promoted is Some,
        any_in(group(after, service), ProviderStatus::Active),
{
    let members = group(before, service);
    let rest = members.remove(id);
    assert forall|other: usize| !is_in(rest, other, ProviderStatus::Active) by {
        if is_in(rest, other, ProviderStatus::Active) {
            assert(is_in(members, other, ProviderStatus::Active));
        }
    }
    let next = departure.promoted->0;
    assert(is_in(group(after, service), next, ProviderStatus::Active));
}

/// When a provider leaves, every other provider of the service keeps its entry,
/// unless it is the one that is promoted.
pub proof fn law_departure_leaves_others_alone<C>(
    before: Groups<ProviderEntry<C>>,
    service: Seq<char>,
    id: usize,
    departure: Departure,
    after: Groups<ProviderEntry<C>>,
    other: usize,
)
    requires
        departed(before, service, id, departure, after),
        other != id,
        departure.promoted != Some(other),
    ensures
        group(after, service).contains_key(other) == group(before, service).contains_key(other),
        group(before, service).contains_key(other) ==> group(after, service)[other] == group(
            before,
            service,
        )[other],
{
    let rest = group(before, service).remove(id);
    if group(before, service).contains_key(other) {
        assert(rest.contains_key(other));
        assert(rest.dom().contains(other));
    }
}

/// A provider that comes and goes leaves the registry as it found it, as long as
/// nobody waits for a place that it could have taken.
pub proof fn law_arrival_and_departure_cancel<C>(
    before: Groups<ProviderEntry<C>>,
    service: Seq<char>,
    id: usize,
    entry: ProviderEntry<C>,
    departure: Departure,
    after: Groups<ProviderEntry<C>>,
)
    requires
        one_active(group(before, service)),
        before.contains_key(service) ==> !before[service].is_empty(),
        !group(before, service).contains_key(id),
        entry.status == status_on_arrival(group(before, service)),
        any_in(group(before, service), ProviderStatus::Active) || !any_in(
            group(before, service),
            ProviderStatus::StandBy,
        ),
        departed(
            before.insert(service, group(before, service).insert(id, entry)),
            service,
            id,
            departure,
            after,
        ),
    ensures
        departure == (Departure { removed: true, promoted: None }),
        after == before,
{
    let members = group(before, service);
    let with_it = before.insert(service, members.insert(id, entry));
    assert(group(with_it, service) =~= members.insert(id, entry));
    let rest = group(with_it, service).remove(id);
    assert(rest =~= members);
    if before.contains_key(service) {
        assert(with_it.insert(service, rest) =~= before);
    } else {
        assert(rest.is_empty());
        assert(with_it.remove(service) =~= before);
    }
}

/// A new provider is active exactly where no provider of the service is, and stands
/// by otherwise.
pub proof fn law_newcomer_is_active_without_another<C>(m: Providers<C>)
    ensures
        status_on_arrival(m) == ProviderStatus::Active <==> forall|id: usize| #[trigger]
            m.contains_key(id) ==> m[id].status != ProviderStatus::Active,
        status_on_arrival(m) == ProviderStatus::Active || status_on_arrival(m)
            == ProviderStatus::StandBy,
{
    if forall|id: usize| #[trigger] m.contains_key(id) ==> m[id].status != ProviderStatus::Active {
        if any_in(m, ProviderStatus::Active) {
            let id = choose|id: usize| is_in(m, id, ProviderStatus::Active);
            assert(m.contains_key(id));
        }
    }
    if status_on_arrival(m) == ProviderStatus::Active {
        assert forall|id: usize| #[trigger] m.contains_key(id) implies m[id].status
            != ProviderStatus::Active by {
            assert(!is_in(m, id, ProviderStatus::Active));
        }
    }
}

/// Where a status is replaced, everything else of the provider and every other
/// provider stays as it was.
pub proof fn law_new_status_changes_nothing_else<C>(
    m: Providers<C>,
    id: usize,
    status: ProviderStatus,
    other: usize,
)
    requires
        m.contains_key(id),
    ensures
        ({
            let after = with_status(m, id, status);
            &&& after.contains_key(id) && after[id].status == status
            &&& after[id].connection == m[id].connection
            &&& after[id].uri == m[id].uri
            &&& after[id].created_at == m[id].created_at
            &&& after[id].idle == m[id].idle
            &&& after.contains_key(other) == m.contains_key(other)
            &&& other != id && m.contains_key(other) ==> after[other] == m[other]
        }),
{
}

/// Whether time `a` is not later than time `b`, by seconds and then by nanoseconds.
pub open spec fn not_later(a: Timestamp, b: Timestamp) -> bool {
    a.secs < b.secs || (a.secs == b.secs && a.nanos <= b.nanos)
}

/// A provider that leaves is gone and everything of other services stays. It is
/// replaced exactly where it was active, no other provider is and one stands by; by
/// the one that came first of those, of which only the status changes.
pub proof fn law_active_provider_is_replaced<C>(
    before: Groups<ProviderEntry<C>>,
    service: Seq<char>,
    id: usize,
    departure: Departure,
    after: Groups<ProviderEntry<C>>,
    other: usize,
    elsewhere: Seq<char>,
)
    requires
        departed(before, service, id, departure, after),
        before.contains_key(service),
        before[service].contains_key(id),
        other != id,
        elsewhere != service,
    ensures
        departure.removed,
        !(after.contains_key(service) && after[service].contains_key(id)),
        after.contains_key(elsewhere) == before.contains_key(elsewhere),
        before.contains_key(elsewhere) ==> after[elsewhere] == before[elsewhere],
        before[service].contains_key(other) ==> after.contains_key(service)
            && after[service].contains_key(other),
        after.contains_key(service) && after[service].contains_key(other)
            ==> before[service].contains_key(other),
        before[service].contains_key(other) && departure.promoted != Some(other)
            ==> after[service][other] == before[service][other],
        departure.promoted matches Some(next) ==> {
            &&& next != id
            &&& before[service].contains_key(next)
            &&& before[service][id].status == ProviderStatus::Active
            &&& before[service][next].status == ProviderStatus::StandBy
            &&& before[service].contains_key(other) ==> before[service][other].status
                != ProviderStatus::Active
            &&& before[service].contains_key(other) && before[service][other].status
                == ProviderStatus::StandBy ==> not_later(
                before[service][next].created_at,
                before[service][other].created_at,
            )
            &&& after[service][next].status == ProviderStatus::Active
            &&& after[service][next].connection == before[service][next].connection
            &&& after[service][next].uri == before[service][next].uri
            &&& after[service][next].created_at == before[service][next].created_at
            &&& after[service][next].idle == before[service][next].idle
        },
        before[service][id].status == ProviderStatus::Active && before[service].contains_key(other)
            && before[service][other].status == ProviderStatus::StandBy && (forall|k: usize|
            k != id && #[trigger] before[service].contains_key(k) ==> before[service][k].status
                != ProviderStatus::Active) ==> departure.promoted is Some,
{
    let members = before[service];
    let rest = members.remove(id);
    if members.contains_key(other) {
        assert(rest.contains_key(other));
        assert(rest.dom().contains(other));
        if members[other].status == ProviderStatus::StandBy {
            assert(is_in(rest, other, ProviderStatus::StandBy));
        }
        if members[other].status == ProviderStatus::Active {
            assert(is_in(rest, other, ProviderStatus::Active));
        }
    }
    if members[id].status == ProviderStatus::Active && (forall|k: usize|
        k != id && #[trigger] members.contains_key(k) ==> members[k].status
            != ProviderStatus::Active) {
        if any_in(rest, ProviderStatus::Active) {
            let k = choose|k: usize| is_in(rest, k, ProviderStatus::Active);
            assert(members.contains_key(k));
        }
    }
}

/// A provider that is not registered cannot leave: nothing changes.
pub proof fn law_unknown_provider_cannot_leave<C>(
    before: Groups<ProviderEntry<C>>,
    service: Seq<char>,
    id: usize,
    departure: Departure,
    after: Groups<ProviderEntry<C>>,
)
    requires
        departed(before, service, id, departure, after),
        !(before.contains_key(service) && before[service].contains_key(id)),
    ensures
        !departure.removed,
        departure.promoted is None,
        after == before,
{
}

/// A service is forgotten exactly when its last provider leaves.
pub proof fn law_empty_service_is_forgotten<C>(
    before: Groups<ProviderEntry<C>>,
    service: Seq<char>,
    id: usize,
    departure: Departure,
    after: Groups<ProviderEntry<C>>,
)
    requires
        departed(before, service, id, departure, after),
        before.contains_key(service),
        before[service].contains_key(id),
    ensures
        after.contains_key(service) <==> exists|k: usize|
            k != id && #[trigger] before[service].contains_key(k),
{
    let members = before[service];
    let rest = members.remove(id);
    if exists|k: usize| k != id && #[trigger] members.contains_key(k) {
        let k = choose|k: usize| k != id && #[trigger] members.contains_key(k);
        assert(rest.dom().contains(k));
    }
    if departure.promoted is Some {
        let next = departure.promoted->0;
        assert(is_in(rest, next, ProviderStatus::StandBy));
        assert(members.contains_key(next));
    } else if !rest.is_empty() {
        if forall|k: usize| !rest.dom().contains(k) {
            assert(rest.dom() =~= Set::empty());
        }
        let k = choose|k: usize| rest.dom().contains(k);
        assert(members.contains_key(k));
    }
}

/// A consumer that asks for a provider gets the active one. Without one, the first
/// of those that stand by becomes active for it, and only its status changes. Without
/// either it gets none. Nothing else changes.
pub proof fn law_consumer_takes_the_active_or_the_oldest<C>(
    before: Groups<ProviderEntry<C>>,
    service: Seq<char>,
    chosen: Option<usize>,
    after: Groups<ProviderEntry<C>>,
    other: usize,
    elsewhere: Seq<char>,
)
    requires
        acquired(before, service, chosen, after),
        before.contains_key(service),
        elsewhere != service,
    ensures
        after.contains_key(elsewhere) == before.contains_key(elsewhere),
        before.contains_key(elsewhere) ==> after[elsewhere] == before[elsewhere],
        after.contains_key(service),
        after[service].contains_key(other) == before[service].contains_key(other),
        before[service].contains_key(other) && chosen != Some(other) ==> after[service][other]
            == before[service][other],
        before[service].contains_key(other) && before[service][other].status
            == ProviderStatus::Active ==> chosen is Some && before[service][chosen->0].status
            == ProviderStatus::Active,
        before[service].contains_key(other) && before[service][other].status
            == ProviderStatus::StandBy ==> chosen is Some,
        chosen matches Some(id) ==> {
            &&& before[service].contains_key(id)
            &&& after[service][id].status == ProviderStatus::Active
            &&& after[service][id].connection == before[service][id].connection
            &&& after[service][id].uri == before[service][id].uri
            &&& after[service][id].created_at == before[service][id].created_at
            &&& after[service][id].idle == before[service][id].idle
            &&& before[service][id].status == ProviderStatus::Active
                || before[service][id].status == ProviderStatus::StandBy
            &&& before[service][id].status == ProviderStatus::StandBy
                && before[service].contains_key(other) && before[service][other].status
                == ProviderStatus::StandBy ==> not_later(
                before[service][id].created_at,
                before[service][other].created_at,
            )
        },
{
    let members = before[service];
    if members.contains_key(other) {
        assert(is_in(members, other, members[other].status));
    }
}

/// Of two providers of one service at most one is active.
pub proof fn law_no_two_providers_are_active<C>(
    registry: ProviderRegistry<C>,
    service: Seq<char>,
    a: usize,
    b: usize,
)
    requires
        registry.wf(),
        registry@.contains_key(service),
        registry@[service].contains_key(a),
        registry@[service].contains_key(b),
        registry@[service][a].status == ProviderStatus::Active,
        registry@[service][b].status == ProviderStatus::Active,
    ensures
        a == b,
{
    registry.law_one_active_provider(service);
    let members = registry.providers(service);
    assert(is_in(members, a, ProviderStatus::Active) && is_in(members, b, ProviderStatus::Active));
}

/// A service without providers has none for a consumer, and other services stay as
/// they were.
pub proof fn law_unknown_service_has_no_provider<C>(
    before: Groups<ProviderEntry<C>>,
    service: Seq<char>,
    chosen: Option<usize>,
    after: Groups<ProviderEntry<C>>,
    elsewhere: Seq<char>,
    id: usize,
)
    requires
        acquired(before, service, chosen, after),
        !before.contains_key(service),
        elsewhere != service,
    ensures
        chosen is None,
        !after[service].contains_key(id),
        after.contains_key(elsewhere) == before.contains_key(elsewhere),
        before.contains_key(elsewhere) ==> after[elsewhere] == before[elsewhere],
{
}

} // verus!
