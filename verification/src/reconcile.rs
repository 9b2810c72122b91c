//! Bringing the running hubs in line with the configuration.
//!
//! First each running hub is reviewed: it stays, with what has changed loaded into
//! it, or has to go. What has to go is taken out and stopped. Then each hub of an
//! enabled realm that is not running is started.

use std::sync::Arc;

use vstd::prelude::*;

use crate::config::{
    find_hub, first_index, hub_named, hub_place, lemma_first_index, realm_named, services_view,
    AppConfig, HubConfig, RealmConfig,
};
use crate::service_map::{build_service_map, law_same_services_same_map, service_of, ServiceMap};
use crate::text::same_text;

verus! {

/// A hub that runs, and the configuration that it runs with.
pub struct RunningHub<H> {
    pub realm_name: String,
    pub hub_name: String,
    pub config: HubConfig,
    pub realm_ca_cert: String,
    /// Where the hub looks its clients up.
    pub service_map: Arc<ServiceMap>,
    /// What is needed to talk to the hub.
    pub handle: H,
}

/// A realm name and a hub name.
pub type HubKey = (Seq<char>, Seq<char>);

impl<H> RunningHub<H> {
    /// What the hub is known by.
    pub open spec fn key(self) -> HubKey {
        (self.realm_name@, self.hub_name@)
    }

    /// The service map is that of the configuration.
    pub open spec fn wf(self) -> bool {
        &&& self.config.wf()
        &&& self.service_map.covers(self.config.services@)
    }

    /// Whether the hub listens where `hub` says.
    pub open spec fn listens_as(self, hub: HubConfig) -> bool {
        &&& self.config.server_address@ == hub.server_address@
        &&& self.config.server_port == hub.server_port
    }

    /// Whether the hub has the certificates of `realm` and `hub`.
    pub open spec fn certified_as(self, realm: RealmConfig, hub: HubConfig) -> bool {
        &&& self.config.server_cert@ == hub.server_cert@
        &&& self.config.server_cert_key@ == hub.server_cert_key@
        &&& self.realm_ca_cert@ == realm.realm_ca_cert@
    }

    /// Whether the hub has the services of `hub`.
    pub open spec fn serves_as(self, hub: HubConfig) -> bool {
        services_view(self.config.services@) == services_view(hub.services@)
    }

    /// Whether the hub runs with the configuration `hub` of `realm`.
    pub open spec fn runs_as(self, realm: RealmConfig, hub: HubConfig) -> bool {
        &&& self.config@ == hub@
        &&& self.realm_ca_cert@ == realm.realm_ca_cert@
        &&& self.service_map.covers(hub.services@)
    }
}

/// What a review of a running hub comes to.
#[derive(Clone, Copy, Debug)]
pub enum Review {
    /// The configuration has no such hub in an enabled realm: stop it.
    Remove,
    /// The hub has to listen elsewhere: stop it, to be started again.
    Restart,
    /// The hub stays. Its configuration stands at `place`: the place of the realm
    /// and that of the hub in it.
    Stay {
        place: (usize, usize),
        /// The certificates have changed: load them into the hub.
        load_certificates: bool,
        /// The service list has changed: the hub gets a new service map.
        reload_services: bool,
    },
}

/// What a review of `hub` under the configuration `realms` comes to.
pub open spec fn review_of<H>(hub: RunningHub<H>, realms: Seq<RealmConfig>) -> Review {
    match hub_place(realms, hub.realm_name@, hub.hub_name@, true) {
        None => Review::Remove,
        Some((r, h)) => {
            let new_realm = realms[r];
            let new_hub = new_realm.hubs@[h];
            if hub.listens_as(new_hub) {
                Review::Stay {
                    place: (r as usize, h as usize),
                    load_certificates: !hub.certified_as(new_realm, new_hub),
                    reload_services: !hub.serves_as(new_hub),
                }
            } else {
                Review::Restart
            }
        },
    }
}

/// Whether `hub` cannot go on running under the configuration `realms`.
pub open spec fn outdated<H>(hub: RunningHub<H>, realms: Seq<RealmConfig>) -> bool {
    !(review_of(hub, realms) is Stay)
}

/// Whether `hub` needs no change under the configuration `realms`.
pub open spec fn up_to_date<H>(hub: RunningHub<H>, realms: Seq<RealmConfig>) -> bool {
    review_of(hub, realms) matches Review::Stay { load_certificates, reload_services, .. }
        && !load_certificates && !reload_services
}

/// The running hubs.
pub struct HubTable<H> {
    hubs: Vec<RunningHub<H>>,
}

/// No two hubs of `s` have the same key.
pub open spec fn distinct_keys<H>(s: Seq<RunningHub<H>>) -> bool {
    forall|i: int, j: int| 0 <= i < j < s.len() ==> #[trigger] s[i].key() != #[trigger] s[j].key()
}

/// Whether the hub `key` is among `s`.
pub open spec fn runs<H>(s: Seq<RunningHub<H>>, key: HubKey) -> bool {
    exists|i: int| 0 <= i < s.len() && #[trigger] s[i].key() == key
}

impl<H> View for HubTable<H> {
    type V = Seq<RunningHub<H>>;

    closed spec fn view(&self) -> Seq<RunningHub<H>> {
        self.hubs@
    }
}

/// What the hub at `place` is known by.
pub open spec fn key_at(realms: Seq<RealmConfig>, place: (usize, usize)) -> HubKey {
    (realms[place.0 as int].realm_name@, realms[place.0 as int].hubs@[place.1 as int].name@)
}

/// Whether there is a hub at `place`.
pub open spec fn is_place(realms: Seq<RealmConfig>, place: (usize, usize)) -> bool {
    &&& place.0 < realms.len()
    &&& place.1 < realms[place.0 as int].hubs@.len()
}

/// Whether `after` is `before` running with the configuration at `place`. It gets a
/// new service map only where the service list has changed.
pub open spec fn adopted<H>(
    before: RunningHub<H>,
    after: RunningHub<H>,
    realms: Seq<RealmConfig>,
    place: (usize, usize),
) -> bool {
    let realm = realms[place.0 as int];
    let hub = realm.hubs@[place.1 as int];
    &&& after.realm_name == before.realm_name
    &&& after.hub_name == before.hub_name
    &&& after.handle == before.handle
    &&& after.runs_as(realm, hub)
    &&& before.serves_as(hub) ==> after.service_map == before.service_map
}

/// What becomes of `before` after its review, where `loaded` says whether the
/// certificates could be loaded: it takes the new configuration in, unless it has
/// to go or could not load the certificates.
pub open spec fn reviewed<H>(
    before: RunningHub<H>,
    after: RunningHub<H>,
    realms: Seq<RealmConfig>,
    loaded: bool,
) -> bool {
    match review_of(before, realms) {
        Review::Stay { place, load_certificates, .. } => if load_certificates && !loaded {
            after == before
        } else {
            adopted(before, after, realms, place)
        },
        _ => after == before,
    }
}

/// Whether each hub of `after` is the hub of `before` after its review.
pub open spec fn all_reviewed<H>(
    before: Seq<RunningHub<H>>,
    after: Seq<RunningHub<H>>,
    realms: Seq<RealmConfig>,
    loaded: Seq<bool>,
) -> bool {
    &&& after.len() == before.len()
    &&& forall|i: int|
        0 <= i < before.len() ==> reviewed(before[i], #[trigger] after[i], realms, loaded[i])
}

/// Whether `r` is the first of `places`, from number `from` on, whose hub is not
/// running.
pub open spec fn first_missing<H>(
    s: Seq<RunningHub<H>>,
    realms: Seq<RealmConfig>,
    places: Seq<(usize, usize)>,
    from: int,
    r: Option<usize>,
) -> bool {
    match r {
        Some(k) => {
            &&& from <= k < places.len()
            &&& !runs(s, key_at(realms, places[k as int]))
            &&& forall|i: int| from <= i < k ==> runs(s, key_at(realms, #[trigger] places[i]))
        },
        None => forall|i: int|
            from <= i < places.len() ==> runs(s, key_at(realms, #[trigger] places[i])),
    }
}

/// Whether `after` is `before` with the hub at `place`.
pub open spec fn inserted<H>(
    before: Seq<RunningHub<H>>,
    after: Seq<RunningHub<H>>,
    realms: Seq<RealmConfig>,
    place: (usize, usize),
) -> bool {
    let realm = realms[place.0 as int];
    &&& after.len() == before.len() + 1
    &&& after.drop_last() == before
    &&& after.last().key() == key_at(realms, place)
    &&& after.last().runs_as(realm, realm.hubs@[place.1 as int])
}

proof fn lemma_review_keeps_its_kind<H>(
    before: RunningHub<H>,
    after: RunningHub<H>,
    config: AppConfig,
    loaded: bool,
)
    requires
        reviewed(before, after, config.realms@, loaded),
    ensures
        after.key() == before.key(),
        outdated(after, config.realms@) == outdated(before, config.realms@),
        outdated(before, config.realms@) ==> after == before,
        loaded && !outdated(before, config.realms@) ==> up_to_date(after, config.realms@),
{
    let realms = config.realms@;
    let r = first_index(realms, realm_named(before.realm_name@, true));
    lemma_first_index(realms, realm_named(before.realm_name@, true));
    lemma_first_index(realms[r].hubs@, hub_named(before.hub_name@));
    assert(config.realms.len() <= usize::MAX);
    assert(config.realms@[r].hubs.len() <= usize::MAX);
}

proof fn lemma_review_spares_the_outdated<H>(
    before: Seq<RunningHub<H>>,
    after: Seq<RunningHub<H>>,
    config: AppConfig,
    loaded: Seq<bool>,
)
    requires
        loaded.len() == before.len(),
        all_reviewed(before, after, config.realms@, loaded),
    ensures
        after.filter(|h: RunningHub<H>| outdated(h, config.realms@)) == before.filter(
            |h: RunningHub<H>| outdated(h, config.realms@),
        ),
    decreases before.len(),
{
    reveal(Seq::filter);
    if before.len() > 0 {
        let last = before.len() - 1;
        assert(reviewed(before[last], after[last], config.realms@, loaded[last]));
        lemma_review_keeps_its_kind(before[last], after[last], config, loaded[last]);
        assert forall|i: int| 0 <= i < last implies reviewed(
            before.drop_last()[i],
            #[trigger] after.drop_last()[i],
            config.realms@,
            loaded.drop_last()[i],
        ) by {
            assert(reviewed(before[i], after[i], config.realms@, loaded[i]));
        }
        lemma_review_spares_the_outdated(
            before.drop_last(),
            after.drop_last(),
            config,
            loaded.drop_last(),
        );
    }
}

proof fn lemma_filter_members<H>(s: Seq<RunningHub<H>>, p: spec_fn(RunningHub<H>) -> bool)
    ensures
        forall|i: int|
            0 <= i < s.filter(p).len() ==> p(#[trigger] s.filter(p)[i]) && s.contains(
                s.filter(p)[i],
            ),
    decreases s.len(),
{
    reveal(Seq::filter);
    if s.len() > 0 {
        let rest = s.drop_last();
        lemma_filter_members(rest, p);
        let f = s.filter(p);
        let g = rest.filter(p);
        assert forall|i: int| 0 <= i < f.len() implies p(#[trigger] f[i]) && s.contains(f[i]) by {
            if i < g.len() {
                assert(f[i] == g[i]);
                assert(rest.contains(g[i]));
                let k = choose|k: int| 0 <= k < rest.len() && rest[k] == g[i];
                assert(s[k] == f[i]);
            } else {
                assert(s[s.len() - 1] == f[i]);
            }
        }
    }
}

proof fn lemma_filter_distinct<H>(s: Seq<RunningHub<H>>, p: spec_fn(RunningHub<H>) -> bool)
    requires
        distinct_keys(s),
    ensures
        distinct_keys(s.filter(p)),
    decreases s.len(),
{
    reveal(Seq::filter);
    if s.len() > 0 {
        let rest = s.drop_last();
        assert forall|i: int, j: int| 0 <= i < j < rest.len() implies #[trigger] rest[i].key()
            != #[trigger] rest[j].key() by {
            assert(s[i].key() != s[j].key());
        }
        lemma_filter_distinct(rest, p);
        lemma_filter_members(rest, p);
        let f = s.filter(p);
        let g = rest.filter(p);
        assert forall|i: int, j: int| 0 <= i < j < f.len() implies #[trigger] f[i].key()
            != #[trigger] f[j].key() by {
            assert(f[i] == g[i]);
            if j < g.len() {
                assert(f[j] == g[j]);
            } else {
                assert(rest.contains(g[i]));
                let k = choose|k: int| 0 <= k < rest.len() && rest[k] == g[i];
                assert(s[k].key() != s[s.len() - 1].key());
            }
        }
    }
}

impl<H> HubTable<H> {
    /// A hub runs at most once, with the service map of its configuration.
    pub open spec fn wf(&self) -> bool {
        &&& distinct_keys(self@)
        &&& forall|i: int| 0 <= i < self@.len() ==> (#[trigger] self@[i]).wf()
    }

    /// No hubs.
    pub fn new() -> (r: Self)
        ensures
            r.wf(),
            r@ == Seq::<RunningHub<H>>::empty(),
    {
        HubTable { hubs: Vec::new() }
    }

    /// The number of hubs.
    pub fn len(&self) -> (r: usize)
        ensures
            r == self@.len(),
    {
        self.hubs.len()
    }

    /// The hub at place `i` of the table.
    pub fn get(&self, i: usize) -> (r: &RunningHub<H>)
        requires
            i < self@.len(),
        ensures
            *r == self@[i as int],
    {
        &self.hubs[i]
    }

    fn review(&self, i: usize, config: &AppConfig) -> (r: Review)
        requires
            self.wf(),
            config.wf(),
            i < self@.len(),
        ensures
            r == review_of(self@[i as int], config.realms@),
            r matches Review::Stay { place, .. } ==> is_place(config.realms@, place),
    {
        let hub = &self.hubs[i];
        match find_hub(config, hub.realm_name.as_str(), hub.hub_name.as_str(), true) {
            None => Review::Remove,
            Some((r, h)) => {
                let new_realm = &config.realms[r];
                let new_hub = &new_realm.hubs[h];
                proof {
                    assert(self@[i as int].wf());
                    assert(config.realms@[r as int].wf());
                }
                if !same_text(
                    hub.config.server_address.as_str(),
                    new_hub.server_address.as_str(),
                ) || hub.config.server_port != new_hub.server_port {
                    return Review::Restart;
                }
                let certified = same_text(
                    hub.config.server_cert.as_str(),
                    new_hub.server_cert.as_str(),
                ) && same_text(
                    hub.config.server_cert_key.as_str(),
                    new_hub.server_cert_key.as_str(),
                ) && same_text(hub.realm_ca_cert.as_str(), new_realm.realm_ca_cert.as_str());
                Review::Stay {
                    place: (r, h),
                    load_certificates: !certified,
                    reload_services: !hub.config.same_services(new_hub),
                }
            },
        }
    }

    fn adopt(
        &mut self,
        i: usize,
        config: &AppConfig,
        place: (usize, usize),
        reload_services: bool,
    )
        requires
            old(self).wf(),
            config.wf(),
            i < old(self)@.len(),
            is_place(config.realms@, place),
            reload_services == !old(self)@[i as int].serves_as(
                config.realms@[place.0 as int].hubs@[place.1 as int],
            ),
        ensures
            final(self).wf(),
            final(self)@.len() == old(self)@.len(),
            forall|j: int| 0 <= j < old(self)@.len() && j != i ==> final(self)@[j] == old(self)@[j],
            adopted(old(self)@[i as int], final(self)@[i as int], config.realms@, place),
    {
        let realm = &config.realms[place.0];
        let hub = &realm.hubs[place.1];
        proof {
            assert(config.realms@[place.0 as int].wf());
            assert(self@[i as int].wf());
        }
        let copy = hub.duplicate();
        proof {
            assert(services_view(copy.services@) == services_view(hub.services@));
            assert forall|cn: Seq<char>| #[trigger] service_of(copy.services@, cn) == service_of(
                hub.services@,
                cn,
            ) by {
                law_same_services_same_map(copy.services@, hub.services@, cn);
            }
        }
        if reload_services {
            self.hubs[i].service_map = Arc::new(build_service_map(hub.services.as_slice()));
        } else {
            proof {
                let before = self@[i as int];
                assert forall|cn: Seq<char>| #[trigger] before.service_map.service(cn)
                    == service_of(hub.services@, cn) by {
                    law_same_services_same_map(before.config.services@, hub.services@, cn);
                }
            }
        }
        self.hubs[i].config = copy;
        self.hubs[i].realm_ca_cert = realm.realm_ca_cert.as_str().to_owned();
        proof {
            assert(self@[i as int].service_map.covers(hub.services@));
            assert(self@[i as int].wf());
            assert forall|a: int, b: int| 0 <= a < b < self@.len() implies #[trigger] self@[a].key()
                != #[trigger] self@[b].key() by {
                assert(old(self)@[a].key() != old(self)@[b].key());
                assert(self@[a].key() == old(self)@[a].key());
                assert(self@[b].key() == old(self)@[b].key());
            }
            assert forall|j: int| 0 <= j < self@.len() implies (#[trigger] self@[j]).wf() by {
                if j != i {
                    assert(self@[j] == old(self)@[j]);
                }
            }
        }
    }

    fn settle(&mut self, i: usize, config: &AppConfig, loaded: bool)
        requires
            old(self).wf(),
            config.wf(),
            i < old(self)@.len(),
        ensures
            final(self).wf(),
            final(self)@.len() == old(self)@.len(),
            forall|j: int| 0 <= j < old(self)@.len() && j != i ==> final(self)@[j] == old(self)@[j],
            reviewed(old(self)@[i as int], final(self)@[i as int], config.realms@, loaded),
    {
        match self.review(i, config) {
            Review::Stay { place, load_certificates, reload_services } => {
                proof {
                    let hub = self@[i as int];
                    lemma_place_is_enabled(*config, hub.realm_name@, hub.hub_name@);
                }
                if loaded || !load_certificates {
                    self.adopt(i, config, place, reload_services);
                }
            },
            _ => {},
        }
    }

    fn take_outdated(&mut self, config: &AppConfig) -> (r: Vec<RunningHub<H>>)
        requires
            old(self).wf(),
            config.wf(),
        ensures
            final(self).wf(),
            final(self)@ == old(self)@.filter(|h: RunningHub<H>| !outdated(h, config.realms@)),
            r@ == old(self)@.filter(|h: RunningHub<H>| outdated(h, config.realms@)),
    {
        let ghost before = self.hubs@;
        let ghost stays = |h: RunningHub<H>| !outdated(h, config.realms@);
        let ghost goes = |h: RunningHub<H>| outdated(h, config.realms@);
        let mut kept: Vec<RunningHub<H>> = Vec::new();
        let mut gone: Vec<RunningHub<H>> = Vec::new();
        let ghost mut n: int = 0;
        proof {
            assert(before.skip(0) =~= before);
            reveal(Seq::filter);
            assert(before.take(0).filter(stays) =~= seq![]);
            assert(before.take(0).filter(goes) =~= seq![]);
        }
        while self.hubs.len() > 0
            invariant
                0 <= n <= before.len(),
                self.hubs@ == before.skip(n),
                self.wf(),
                config.wf(),
                stays == (|h: RunningHub<H>| !outdated(h, config.realms@)),
                goes == (|h: RunningHub<H>| outdated(h, config.realms@)),
                kept@ == before.take(n).filter(stays),
                gone@ == before.take(n).filter(goes),
            decreases self.hubs@.len(),
        {
            proof {
                reveal(Seq::filter);
                assert(before.take(n + 1).drop_last() =~= before.take(n));
                assert(before.skip(n)[0] == before[n]);
                assert(before.skip(n).remove(0) =~= before.skip(n + 1));
            }
            let ghost rest = self@;
            let review = self.review(0, config);
            let hub = self.hubs.remove(0);
            match review {
                Review::Stay { .. } => kept.push(hub),
                _ => gone.push(hub),
            }
            proof {
                assert forall|a: int, b: int| 0 <= a < b < self@.len() implies #[trigger] self@[a].key()
                    != #[trigger] self@[b].key() by {
                    assert(rest[a + 1].key() != rest[b + 1].key());
                }
                assert forall|j: int| 0 <= j < self@.len() implies (#[trigger] self@[j]).wf() by {
                    assert(rest[j + 1].wf());
                }
                n = n + 1;
            }
        }
        proof {
            assert(before.take(n) =~= before);
            lemma_filter_distinct(before, stays);
            lemma_filter_members(before, stays);
            assert forall|i: int| 0 <= i < kept@.len() implies (#[trigger] kept@[i]).wf() by {
                assert(before.contains(before.filter(stays)[i]));
            }
        }
        self.hubs = kept;
        gone
    }

    /// Reviews the running hubs. An answer that asks for certificates wants them
    /// loaded before [`HubTable::settle_all`].
    pub fn review_all(&self, config: &AppConfig) -> (r: Vec<Review>)
        requires
            self.wf(),
            config.wf(),
        ensures
            r@.len() == self@.len(),
            forall|i: int| 0 <= i < r@.len() ==> #[trigger] r@[i] == review_of(
                self@[i],
                config.realms@,
            ),
            forall|i: int| 0 <= i < r@.len() ==> match #[trigger] r@[i] {
                Review::Stay { place, .. } => is_place(config.realms@, place),
                _ => true,
            },
    {
        let mut r: Vec<Review> = Vec::new();
        let mut i: usize = 0;
        while i < self.hubs.len()
            invariant
                self.wf(),
                config.wf(),
                i <= self@.len(),
                r@.len() == i,
                forall|k: int| 0 <= k < i ==> #[trigger] r@[k] == review_of(
                    self@[k],
                    config.realms@,
                ),
                forall|k: int| 0 <= k < i ==> match #[trigger] r@[k] {
                    Review::Stay { place, .. } => is_place(config.realms@, place),
                    _ => true,
                },
            decreases self@.len() - i,
        {
            r.push(self.review(i, config));
            i = i + 1;
        }
        r
    }

    /// Ends the review of the running hubs. `loaded` says of each hub whether its
    /// certificates could be loaded; it does not matter where the review did not
    /// ask for them. Takes the hubs out that have to be stopped, and returns them.
    /// The others look their clients up in their service maps from here on.
    pub fn settle_all(&mut self, config: &AppConfig, loaded: &Vec<bool>) -> (r: Vec<RunningHub<H>>)
        requires
            old(self).wf(),
            config.wf(),
            loaded@.len() == old(self)@.len(),
        ensures
            final(self).wf(),
            exists|settled: Seq<RunningHub<H>>| #[trigger]
                all_reviewed(old(self)@, settled, config.realms@, loaded@) && final(self)@
                    == settled.filter(|h: RunningHub<H>| !outdated(h, config.realms@)),
            r@ == old(self)@.filter(|h: RunningHub<H>| outdated(h, config.realms@)),
    {
        let mut i: usize = 0;
        while i < self.hubs.len()
            invariant
                self.wf(),
                config.wf(),
                i <= self@.len(),
                self@.len() == old(self)@.len(),
                loaded@.len() == self@.len(),
                forall|j: int| i <= j < self@.len() ==> self@[j] == old(self)@[j],
                forall|j: int| 0 <= j < i ==> reviewed(
                    old(self)@[j],
                    #[trigger] self@[j],
                    config.realms@,
                    loaded@[j],
                ),
            decreases self@.len() - i,
        {
            self.settle(i, config, loaded[i]);
            i = i + 1;
        }
        proof {
            assert(all_reviewed(old(self)@, self@, config.realms@, loaded@));
            lemma_review_spares_the_outdated(old(self)@, self@, *config, loaded@);
        }
        self.take_outdated(config)
    }

    /// The first place of `places`, from number `from` on, whose hub is not
    /// running.
    pub fn next_missing(
        &self,
        config: &AppConfig,
        places: &Vec<(usize, usize)>,
        from: usize,
    ) -> (r: Option<usize>)
        requires
            from <= places@.len(),
            forall|i: int| 0 <= i < places@.len() ==> is_place(config.realms@, #[trigger] places@[i]),
        ensures
            first_missing(self@, config.realms@, places@, from as int, r),
    {
        let mut k: usize = from;
        while k < places.len()
            invariant
                from <= k <= places@.len(),
                forall|i: int|
                    0 <= i < places@.len() ==> is_place(config.realms@, #[trigger] places@[i]),
                forall|i: int|
                    from <= i < k ==> runs(self@, key_at(config.realms@, #[trigger] places@[i])),
            decreases places@.len() - k,
        {
            if self.is_missing(config, places[k]) {
                return Some(k);
            }
            k = k + 1;
        }
        None
    }

    fn is_missing(&self, config: &AppConfig, place: (usize, usize)) -> (r: bool)
        requires
            is_place(config.realms@, place),
        ensures
            r == !runs(self@, key_at(config.realms@, place)),
    {
        let realm = &config.realms[place.0];
        let hub = &realm.hubs[place.1];
        let mut i: usize = 0;
        while i < self.hubs.len()
            invariant
                i <= self.hubs@.len(),
                is_place(config.realms@, place),
                *realm == config.realms@[place.0 as int],
                *hub == realm.hubs@[place.1 as int],
                forall|j: int|
                    0 <= j < i ==> #[trigger] self.hubs@[j].key() != key_at(config.realms@, place),
            decreases self.hubs@.len() - i,
        {
            if same_text(self.hubs[i].realm_name.as_str(), realm.realm_name.as_str()) && same_text(
                self.hubs[i].hub_name.as_str(),
                hub.name.as_str(),
            ) {
                proof {
                    assert(self.hubs@[i as int].key() == key_at(config.realms@, place));
                }
                return false;
            }
            i = i + 1;
        }
        true
    }

    /// Takes in the hub at `place` of the configuration, which was started.
    pub fn insert(&mut self, config: &AppConfig, place: (usize, usize), handle: H)
        requires
            old(self).wf(),
            config.wf(),
            is_place(config.realms@, place),
            !runs(old(self)@, key_at(config.realms@, place)),
        ensures
            final(self).wf(),
            inserted(old(self)@, final(self)@, config.realms@, place),
            final(self)@.last().handle == handle,
    {
        let realm = &config.realms[place.0];
        let hub = &realm.hubs[place.1];
        proof {
            assert(config.realms@[place.0 as int].wf());
        }
        let copy = hub.duplicate();
        proof {
            assert(services_view(copy.services@) == services_view(hub.services@));
            assert forall|cn: Seq<char>| #[trigger] service_of(copy.services@, cn) == service_of(
                hub.services@,
                cn,
            ) by {
                law_same_services_same_map(copy.services@, hub.services@, cn);
            }
        }
        self.hubs.push(
            RunningHub {
                realm_name: realm.realm_name.as_str().to_owned(),
                hub_name: hub.name.as_str().to_owned(),
                config: copy,
                realm_ca_cert: realm.realm_ca_cert.as_str().to_owned(),
                service_map: Arc::new(build_service_map(hub.services.as_slice())),
                handle,
            },
        );
        proof {
            assert(self@.drop_last() =~= old(self)@);
            assert(self@.last().service_map.covers(hub.services@));
            assert(self@.last().wf());
            assert forall|a: int, b: int| 0 <= a < b < self@.len() implies #[trigger] self@[a].key()
                != #[trigger] self@[b].key() by {
                assert(self@[a] == old(self)@[a]);
                if b < old(self)@.len() {
                    assert(self@[b] == old(self)@[b]);
                } else {
                    assert(old(self)@[a].key() != key_at(config.realms@, place));
                }
            }
            assert forall|j: int| 0 <= j < self@.len() implies (#[trigger] self@[j]).wf() by {
                if j < old(self)@.len() {
                    assert(self@[j] == old(self)@[j]);
                }
            }
        }
    }
}

/// The places of the hubs of one realm, which stands at `r`.
pub open spec fn realm_places(realm: RealmConfig, r: int) -> Seq<(usize, usize)> {
    if realm.disabled {
        seq![]
    } else {
        Seq::new(realm.hubs@.len(), |h: int| (r as usize, h as usize))
    }
}

/// The places of the hubs of the enabled realms, in order.
pub open spec fn places(realms: Seq<RealmConfig>) -> Seq<(usize, usize)>
    decreases realms.len(),
{
    if realms.len() == 0 {
        seq![]
    } else {
        places(realms.drop_last()) + realm_places(realms.last(), realms.len() - 1)
    }
}

/// The places of the hubs of the enabled realms, in order: the hubs that have to
/// run.
pub fn hub_places(config: &AppConfig) -> (r: Vec<(usize, usize)>)
    ensures
        r@ == places(config.realms@),
        forall|i: int| 0 <= i < r@.len() ==> is_place(config.realms@, #[trigger] r@[i]),
{
    let mut r: Vec<(usize, usize)> = Vec::new();
    let mut i: usize = 0;
    proof {
        assert(config.realms@.take(0) =~= seq![]);
    }
    while i < config.realms.len()
        invariant
            i <= config.realms@.len(),
            r@ == places(config.realms@.take(i as int)),
            forall|k: int| 0 <= k < r@.len() ==> is_place(config.realms@, #[trigger] r@[k]),
        decreases config.realms@.len() - i,
    {
        let realm = &config.realms[i];
        let ghost before = r@;
        if !realm.disabled {
            let mut h: usize = 0;
            proof {
                assert(before + realm_places(*realm, i as int).take(0) =~= before);
            }
            while h < realm.hubs.len()
                invariant
                    i < config.realms@.len(),
                    h <= realm.hubs@.len(),
                    *realm == config.realms@[i as int],
                    !realm.disabled,
                    r@ == before + realm_places(*realm, i as int).take(h as int),
                    forall|k: int| 0 <= k < r@.len() ==> is_place(config.realms@, #[trigger] r@[k]),
                decreases realm.hubs@.len() - h,
            {
                let ghost inner = r@;
                r.push((i, h));
                proof {
                    let all = realm_places(*realm, i as int);
                    assert(all.take(h + 1) =~= all.take(h as int).push((i, h)));
                    assert(r@ =~= before + all.take(h + 1));
                    assert forall|k: int| 0 <= k < r@.len() implies is_place(
                        config.realms@,
                        #[trigger] r@[k],
                    ) by {
                        if k < inner.len() {
                            assert(r@[k] == inner[k]);
                        }
                    }
                }
                h = h + 1;
            }
            proof {
                let all = realm_places(*realm, i as int);
                assert(all.take(h as int) =~= all);
            }
        } else {
            proof {
                assert(before + realm_places(*realm, i as int) =~= before);
            }
        }
        proof {
            let taken = config.realms@.take(i + 1);
            assert(taken.drop_last() =~= config.realms@.take(i as int));
            assert(taken.last() == *realm);
        }
        i = i + 1;
    }
    proof {
        assert(config.realms@.take(i as int) =~= config.realms@);
    }
    r
}

/// A hub is to run where its realm is enabled, and only there.
pub proof fn law_exactly_the_enabled_hubs_have_to_run(
    realms: Seq<RealmConfig>,
    place: (usize, usize),
)
    requires
        realms.len() <= usize::MAX,
        forall|r: int| 0 <= r < realms.len() ==> #[trigger] realms[r].hubs@.len() <= usize::MAX,
    ensures
        places(realms).contains(place) <==> is_place(realms, place)
            && !realms[place.0 as int].disabled,
    decreases realms.len(),
{
    if realms.len() > 0 {
        let rest = realms.drop_last();
        let last = realm_places(realms.last(), realms.len() - 1);
        assert forall|r: int| 0 <= r < rest.len() implies #[trigger] rest[r].hubs@.len()
            <= usize::MAX by {
            assert(realms[r].hubs@.len() <= usize::MAX);
        }
        law_exactly_the_enabled_hubs_have_to_run(rest, place);
        let all = places(rest) + last;
        if places(rest).contains(place) {
            let i = choose|i: int| 0 <= i < places(rest).len() && places(rest)[i] == place;
            assert(all[i] == place);
        }
        if is_place(realms, place) && !realms[place.0 as int].disabled && place.0 == realms.len()
            - 1 {
            assert(last[place.1 as int] == place);
            assert(all[places(rest).len() + place.1] == place);
        }
        if all.contains(place) {
            let i = choose|i: int| 0 <= i < all.len() && all[i] == place;
            if i < places(rest).len() {
                assert(places(rest)[i] == place);
            } else {
                let h = i - places(rest).len();
                assert(realms[realms.len() - 1].hubs@.len() <= usize::MAX);
                assert(last[h] == place);
            }
        }
    }
}

/// The hubs that are left once the outdated ones are taken out are all in the
/// configuration, in an enabled realm, and listen where it says.
pub proof fn law_remaining_hubs_are_configured<H>(
    s: Seq<RunningHub<H>>,
    realms: Seq<RealmConfig>,
    i: int,
)
    requires
        0 <= i < s.filter(|h: RunningHub<H>| !outdated(h, realms)).len(),
    ensures
        ({
            let hub = s.filter(|h: RunningHub<H>| !outdated(h, realms))[i];
            match hub_place(realms, hub.realm_name@, hub.hub_name@, true) {
                Some((r, h)) => !realms[r].disabled && hub.listens_as(realms[r].hubs@[h]),
                None => false,
            }
        }),
{
    let stays = |h: RunningHub<H>| !outdated(h, realms);
    lemma_filter_members(s, stays);
    let hub = s.filter(stays)[i];
    assert(stays(hub));
    lemma_first_index(realms, realm_named(hub.realm_name@, true));
}

/// A hub whose service list has changed goes on without a restart and looks its
/// clients up in the new list.
pub proof fn law_changed_services_are_reloaded<H>(
    before: RunningHub<H>,
    after: RunningHub<H>,
    realms: Seq<RealmConfig>,
    loaded: bool,
    cn: Seq<char>,
)
    requires
        review_of(before, realms) matches Review::Stay { load_certificates, .. } && (
        load_certificates ==> loaded),
        reviewed(before, after, realms, loaded),
    ensures
        ({
            let place = review_of(before, realms)->place;
            let hub = realms[place.0 as int].hubs@[place.1 as int];
            &&& after.handle == before.handle
            &&& after.config@ == hub@
            &&& after.service_map.service(cn) == service_of(hub.services@, cn)
        }),
{
}

/// A hub that came through its review needs no change under the same
/// configuration.
pub proof fn law_settled_hub_needs_no_change<H>(
    before: RunningHub<H>,
    after: RunningHub<H>,
    config: AppConfig,
)
    requires
        !outdated(before, config.realms@),
        reviewed(before, after, config.realms@, true),
    ensures
        up_to_date(after, config.realms@),
{
    lemma_review_keeps_its_kind(before, after, config, true);
}

/// A hub that could not load its certificates goes on with the old configuration,
/// and the next review asks for the certificates again.
pub proof fn law_failed_load_is_retried<H>(
    before: RunningHub<H>,
    after: RunningHub<H>,
    realms: Seq<RealmConfig>,
)
    requires
        review_of(before, realms) matches Review::Stay { load_certificates, .. }
            && load_certificates,
        reviewed(before, after, realms, false),
    ensures
        after == before,
        review_of(after, realms) matches Review::Stay { load_certificates, .. }
            && load_certificates,
{
}

proof fn lemma_place_is_enabled(config: AppConfig, realm: Seq<char>, hub: Seq<char>) -> (place: (
    usize,
    usize,
))
    requires
        hub_place(config.realms@, realm, hub, true) is Some,
    ensures
        hub_place(config.realms@, realm, hub, true) == Some((place.0 as int, place.1 as int)),
        is_place(config.realms@, place),
        key_at(config.realms@, place) == (realm, hub),
        !config.realms@[place.0 as int].disabled,
        places(config.realms@).contains(place),
{
    let realms = config.realms@;
    let r = first_index(realms, realm_named(realm, true));
    lemma_first_index(realms, realm_named(realm, true));
    let h = first_index(realms[r].hubs@, hub_named(hub));
    lemma_first_index(realms[r].hubs@, hub_named(hub));
    assert(config.realms.len() <= usize::MAX);
    assert(config.realms@[r].hubs.len() <= usize::MAX);
    let place = (r as usize, h as usize);
    lemma_sizes(config);
    law_exactly_the_enabled_hubs_have_to_run(realms, place);
    place
}

proof fn lemma_sizes(config: AppConfig)
    ensures
        config.realms@.len() <= usize::MAX,
        forall|r: int|
            0 <= r < config.realms@.len() ==> #[trigger] config.realms@[r].hubs@.len() <= usize::MAX,
{
    assert(config.realms.len() <= usize::MAX);
    assert forall|r: int| 0 <= r < config.realms@.len() implies #[trigger] config.realms@[r].hubs@.len()
        <= usize::MAX by {
        assert(config.realms@[r].hubs.len() <= usize::MAX);
    }
}

/// A hub that is stopped because it has to listen elsewhere is among those that
/// have to run, so it is started again.
pub proof fn law_restarted_hub_comes_back<H>(hub: RunningHub<H>, config: AppConfig) -> (i: int)
    requires
        review_of(hub, config.realms@) is Restart,
    ensures
        0 <= i < places(config.realms@).len(),
        key_at(config.realms@, places(config.realms@)[i]) == hub.key(),
{
    let place = lemma_place_is_enabled(config, hub.realm_name@, hub.hub_name@);
    choose|i: int| 0 <= i < places(config.realms@).len() && places(config.realms@)[i] == place
}

/// Where the look for the next missing hub begins after the missing hubs `found`.
pub open spec fn next_look(found: Seq<usize>) -> int {
    if found.len() == 0 {
        0
    } else {
        found.last() + 1
    }
}

/// Whether number `k` of the missing hubs `found` was found in state `k` of the
/// table, and its start was tried: the hub was inserted if that succeeded, and
/// nothing changed if it failed.
pub open spec fn tried<H>(
    states: Seq<Seq<RunningHub<H>>>,
    found: Seq<usize>,
    succeeded: Seq<bool>,
    realms: Seq<RealmConfig>,
    places: Seq<(usize, usize)>,
    k: int,
) -> bool {
    &&& first_missing(states[k], realms, places, next_look(found.take(k)), Some(found[k]))
    &&& if succeeded[k] {
        inserted(states[k], states[k + 1], realms, places[found[k] as int])
    } else {
        states[k + 1] == states[k]
    }
}

/// Whether the table went through the states `states` while the missing hubs
/// `found` of `places` were found one after the other, the start of each one was
/// tried with the outcome in `succeeded`, and no more was missing behind the last.
pub open spec fn all_tried<H>(
    states: Seq<Seq<RunningHub<H>>>,
    found: Seq<usize>,
    succeeded: Seq<bool>,
    realms: Seq<RealmConfig>,
    places: Seq<(usize, usize)>,
) -> bool {
    &&& states.len() == found.len() + 1
    &&& succeeded.len() == found.len()
    &&& forall|k: int|
        0 <= k < found.len() ==> #[trigger] tried(states, found, succeeded, realms, places, k)
    &&& first_missing(states.last(), realms, places, next_look(found), None)
}

/// Whether the start of the hub at number `i` of the places was tried and failed.
pub open spec fn start_failed_at(found: Seq<usize>, succeeded: Seq<bool>, i: int) -> bool {
    exists|k: int| 0 <= k < found.len() && #[trigger] found[k] == i && !succeeded[k]
}

/// Whether each of the hubs at the first `n` of `places` runs or could not be
/// started.
pub open spec fn seen_to<H>(
    s: Seq<RunningHub<H>>,
    found: Seq<usize>,
    succeeded: Seq<bool>,
    realms: Seq<RealmConfig>,
    places: Seq<(usize, usize)>,
    n: int,
) -> bool {
    forall|i: int|
        0 <= i < n ==> runs(s, key_at(realms, #[trigger] places[i])) || start_failed_at(
            found,
            succeeded,
            i,
        )
}

proof fn lemma_insertion_stops_nothing<H>(
    before: Seq<RunningHub<H>>,
    after: Seq<RunningHub<H>>,
    realms: Seq<RealmConfig>,
    place: (usize, usize),
    key: HubKey,
)
    requires
        inserted(before, after, realms, place),
    ensures
        runs(before, key) ==> runs(after, key),
        runs(after, key_at(realms, place)),
{
    if runs(before, key) {
        let i = choose|i: int| 0 <= i < before.len() && #[trigger] before[i].key() == key;
        assert(after.drop_last()[i] == before[i]);
        assert(after[i].key() == key);
    }
    assert(after[after.len() - 1].key() == key_at(realms, place));
}

proof fn lemma_start_goes_on<H>(
    states: Seq<Seq<RunningHub<H>>>,
    found: Seq<usize>,
    succeeded: Seq<bool>,
    realms: Seq<RealmConfig>,
    places: Seq<(usize, usize)>,
    k: int,
)
    requires
        0 <= k < found.len(),
        tried(states, found, succeeded, realms, places, k),
        seen_to(states[k], found, succeeded, realms, places, next_look(found.take(k))),
    ensures
        seen_to(states[k + 1], found, succeeded, realms, places, found[k] + 1),
{
    let before = states[k];
    let after = states[k + 1];
    let at = found[k] as int;
    assert forall|i: int| 0 <= i < at + 1 implies runs(
        after,
        key_at(realms, #[trigger] places[i]),
    ) || start_failed_at(found, succeeded, i) by {
        if succeeded[k] {
            lemma_insertion_stops_nothing(
                before,
                after,
                realms,
                places[at],
                key_at(realms, places[i]),
            );
        }
        if i == at {
            assert(found[k] == i);
        } else {
            assert(runs(before, key_at(realms, places[i])) || start_failed_at(
                found,
                succeeded,
                i,
            ));
        }
    }
}

proof fn lemma_seen_to_so_far<H>(
    states: Seq<Seq<RunningHub<H>>>,
    found: Seq<usize>,
    succeeded: Seq<bool>,
    realms: Seq<RealmConfig>,
    places: Seq<(usize, usize)>,
    k: int,
)
    requires
        all_tried(states, found, succeeded, realms, places),
        0 <= k <= found.len(),
    ensures
        0 <= next_look(found.take(k)) <= places.len(),
        seen_to(states[k], found, succeeded, realms, places, next_look(found.take(k))),
    decreases k,
{
    if k > 0 {
        let p = k - 1;
        lemma_seen_to_so_far(states, found, succeeded, realms, places, p);
        assert(found.take(k).last() == found[p]);
        assert(tried(states, found, succeeded, realms, places, p));
        lemma_start_goes_on(states, found, succeeded, realms, places, p);
    }
}

/// Whichever starts fail, every hub of an enabled realm runs in the end or its own
/// start was tried and failed: a failed start keeps no other hub from being started.
pub proof fn law_every_enabled_hub_is_seen_to<H>(
    states: Seq<Seq<RunningHub<H>>>,
    found: Seq<usize>,
    succeeded: Seq<bool>,
    config: AppConfig,
    i: int,
)
    requires
        all_tried(states, found, succeeded, config.realms@, places(config.realms@)),
        0 <= i < places(config.realms@).len(),
    ensures
        runs(states.last(), key_at(config.realms@, places(config.realms@)[i]))
            || start_failed_at(found, succeeded, i),
{
    let ps = places(config.realms@);
    let n = found.len() as int;
    lemma_seen_to_so_far(states, found, succeeded, config.realms@, ps, n);
    assert(found.take(n) =~= found);
    assert(runs(states.last(), key_at(config.realms@, ps[i])) || start_failed_at(
        found,
        succeeded,
        i,
    ));
}

/// No start is tried twice in one round.
pub proof fn law_starts_are_tried_once<H>(
    states: Seq<Seq<RunningHub<H>>>,
    found: Seq<usize>,
    succeeded: Seq<bool>,
    realms: Seq<RealmConfig>,
    places: Seq<(usize, usize)>,
    a: int,
    b: int,
)
    requires
        all_tried(states, found, succeeded, realms, places),
        0 <= a < b < found.len(),
    ensures
        found[a] < found[b],
    decreases b,
{
    assert(tried(states, found, succeeded, realms, places, b));
    assert(found.take(b).last() == found[b - 1]);
    if a < b - 1 {
        law_starts_are_tried_once(states, found, succeeded, realms, places, a, b - 1);
    }
}

/// Where every start succeeds, every hub of an enabled realm runs in the end.
pub proof fn law_every_enabled_hub_runs<H>(
    states: Seq<Seq<RunningHub<H>>>,
    found: Seq<usize>,
    succeeded: Seq<bool>,
    config: AppConfig,
    place: (usize, usize),
)
    requires
        all_tried(states, found, succeeded, config.realms@, places(config.realms@)),
        forall|k: int| 0 <= k < succeeded.len() ==> #[trigger] succeeded[k],
        is_place(config.realms@, place),
        !config.realms@[place.0 as int].disabled,
    ensures
        runs(states.last(), key_at(config.realms@, place)),
{
    let ps = places(config.realms@);
    lemma_sizes(config);
    law_exactly_the_enabled_hubs_have_to_run(config.realms@, place);
    let i = choose|i: int| 0 <= i < ps.len() && ps[i] == place;
    law_every_enabled_hub_is_seen_to(states, found, succeeded, config, i);
}

/// Whether the configuration has the hub `key` in an enabled realm.
pub open spec fn enabled(realms: Seq<RealmConfig>, key: HubKey) -> bool {
    exists|i: int| 0 <= i < places(realms).len() && key_at(realms, #[trigger] places(realms)[i]) == key
}

proof fn lemma_only_enabled_so_far<H>(
    states: Seq<Seq<RunningHub<H>>>,
    found: Seq<usize>,
    succeeded: Seq<bool>,
    config: AppConfig,
    k: int,
    i: int,
)
    requires
        all_tried(states, found, succeeded, config.realms@, places(config.realms@)),
        forall|j: int|
            0 <= j < states[0].len() ==> !outdated(#[trigger] states[0][j], config.realms@),
        0 <= k <= found.len(),
        0 <= i < states[k].len(),
    ensures
        enabled(config.realms@, states[k][i].key()),
    decreases k,
{
    let realms = config.realms@;
    let ps = places(realms);
    if k == 0 {
        let hub = states[0][i];
        assert(!outdated(hub, realms));
        let place = lemma_place_is_enabled(config, hub.realm_name@, hub.hub_name@);
        let j = choose|j: int| 0 <= j < ps.len() && ps[j] == place;
        assert(key_at(realms, ps[j]) == hub.key());
    } else {
        let p = k - 1;
        assert(tried(states, found, succeeded, realms, ps, p));
        if succeeded[p] && i == states[p].len() {
            lemma_seen_to_so_far(states, found, succeeded, realms, ps, p);
            assert(key_at(realms, ps[found[p] as int]) == states[k][i].key());
        } else {
            if succeeded[p] {
                assert(states[k].drop_last()[i] == states[p][i]);
            }
            lemma_only_enabled_so_far(states, found, succeeded, config, p, i);
        }
    }
}

/// Whichever starts fail, every hub that runs in the end is one of an enabled realm.
pub proof fn law_only_enabled_hubs_run<H>(
    settled: Seq<RunningHub<H>>,
    states: Seq<Seq<RunningHub<H>>>,
    found: Seq<usize>,
    succeeded: Seq<bool>,
    config: AppConfig,
    i: int,
)
    requires
        all_tried(states, found, succeeded, config.realms@, places(config.realms@)),
        states[0] == settled.filter(|h: RunningHub<H>| !outdated(h, config.realms@)),
        0 <= i < states.last().len(),
    ensures
        enabled(config.realms@, states.last()[i].key()),
{
    let stays = |h: RunningHub<H>| !outdated(h, config.realms@);
    lemma_filter_members(settled, stays);
    assert forall|j: int| 0 <= j < states[0].len() implies !outdated(
        #[trigger] states[0][j],
        config.realms@,
    ) by {
        assert(stays(settled.filter(stays)[j]));
    }
    lemma_only_enabled_so_far(states, found, succeeded, config, found.len() as int, i);
}

/// Whether the hub `key` is found by its name, in an enabled realm.
pub open spec fn findable(realms: Seq<RealmConfig>, key: HubKey) -> bool {
    hub_place(realms, key.0, key.1, true) is Some
}

/// Whether every hub of an enabled realm is found by its name. One in a second
/// enabled realm of the same name may not be.
pub open spec fn all_findable(realms: Seq<RealmConfig>) -> bool {
    forall|i: int|
        0 <= i < places(realms).len() ==> findable(
            realms,
            key_at(realms, #[trigger] places(realms)[i]),
        )
}

/// Whether none of the hubs `s` needs a change under the configuration `realms`.
pub open spec fn all_up_to_date<H>(s: Seq<RunningHub<H>>, realms: Seq<RealmConfig>) -> bool {
    forall|i: int| 0 <= i < s.len() ==> up_to_date(#[trigger] s[i], realms)
}

/// Whether place `a` comes before place `b`.
pub open spec fn comes_before(a: (usize, usize), b: (usize, usize)) -> bool {
    a.0 < b.0 || (a.0 == b.0 && a.1 < b.1)
}

proof fn lemma_places_in_order(realms: Seq<RealmConfig>)
    requires
        realms.len() <= usize::MAX,
        forall|r: int| 0 <= r < realms.len() ==> #[trigger] realms[r].hubs@.len() <= usize::MAX,
    ensures
        forall|i: int| 0 <= i < places(realms).len() ==> (#[trigger] places(realms)[i]).0
            < realms.len(),
        forall|i: int, j: int|
            0 <= i < j < places(realms).len() ==> comes_before(
                #[trigger] places(realms)[i],
                #[trigger] places(realms)[j],
            ),
    decreases realms.len(),
{
    if realms.len() > 0 {
        let rest = realms.drop_last();
        assert forall|r: int| 0 <= r < rest.len() implies #[trigger] rest[r].hubs@.len()
            <= usize::MAX by {
            assert(realms[r].hubs@.len() <= usize::MAX);
        }
        lemma_places_in_order(rest);
        assert(realms[realms.len() - 1].hubs@.len() <= usize::MAX);
        let front = places(rest);
        let all = places(realms);
        let last = realm_places(realms.last(), realms.len() - 1);
        assert forall|i: int| 0 <= i < all.len() implies (#[trigger] all[i]).0 < realms.len() by {
            if i < front.len() {
                assert(all[i] == front[i]);
            } else {
                assert(all[i] == last[i - front.len()]);
            }
        }
        assert forall|i: int, j: int| 0 <= i < j < all.len() implies comes_before(
            #[trigger] all[i],
            #[trigger] all[j],
        ) by {
            if j < front.len() {
                assert(all[i] == front[i] && all[j] == front[j]);
            } else {
                assert(all[j] == last[j - front.len()]);
                if i < front.len() {
                    assert(all[i] == front[i]);
                } else {
                    assert(all[i] == last[i - front.len()]);
                }
            }
        }
    }
}

proof fn lemma_started_hub_is_up_to_date<H>(
    states: Seq<Seq<RunningHub<H>>>,
    found: Seq<usize>,
    succeeded: Seq<bool>,
    config: AppConfig,
    k: int,
)
    requires
        all_tried(states, found, succeeded, config.realms@, places(config.realms@)),
        forall|j: int| 0 <= j < succeeded.len() ==> #[trigger] succeeded[j],
        0 <= k < found.len(),
        all_findable(config.realms@),
    ensures
        up_to_date(states[k + 1].last(), config.realms@),
{
    let realms = config.realms@;
    let ps = places(realms);
    let place = ps[found[k] as int];
    let key = key_at(realms, place);
    assert(tried(states, found, succeeded, realms, ps, k));
    assert(succeeded[k]);
    assert(findable(realms, key_at(realms, ps[found[k] as int])));
    let first = lemma_place_is_enabled(config, key.0, key.1);
    let j = choose|j: int| 0 <= j < ps.len() && ps[j] == first;
    lemma_sizes(config);
    lemma_places_in_order(realms);
    law_exactly_the_enabled_hubs_have_to_run(realms, place);
    assert(ps.contains(place));
    // The first place of this key is not behind the one that was found.
    let by_realm = realm_named(key.0, true);
    lemma_first_index(realms, by_realm);
    assert(by_realm(realms[place.0 as int]));
    let r = first_index(realms, by_realm);
    assert(r <= place.0);
    if r == place.0 {
        let by_name = hub_named(key.1);
        lemma_first_index(realms[r].hubs@, by_name);
        assert(by_name(realms[r].hubs@[place.1 as int]));
        assert(first_index(realms[r].hubs@, by_name) <= place.1);
    }
    // Nor is it before: its hub would be running.
    if j < found[k] {
        lemma_seen_to_so_far(states, found, succeeded, realms, ps, k);
        if j < next_look(found.take(k)) {
            assert(runs(states[k], key_at(realms, ps[j])) || start_failed_at(found, succeeded, j));
        }
        assert(runs(states[k], key_at(realms, ps[j])));
    }
    if found[k] < j {
        assert(comes_before(ps[found[k] as int], ps[j]));
    }
    assert(first == place);
}

proof fn lemma_insertion_keeps_up_to_date<H>(
    before: Seq<RunningHub<H>>,
    after: Seq<RunningHub<H>>,
    realms: Seq<RealmConfig>,
    place: (usize, usize),
)
    requires
        all_up_to_date(before, realms),
        inserted(before, after, realms, place),
        up_to_date(after.last(), realms),
    ensures
        all_up_to_date(after, realms),
{
    assert forall|i: int| 0 <= i < after.len() implies up_to_date(#[trigger] after[i], realms) by {
        if i < before.len() {
            assert(after.drop_last()[i] == before[i]);
        }
    }
}

proof fn lemma_up_to_date_so_far<H>(
    states: Seq<Seq<RunningHub<H>>>,
    found: Seq<usize>,
    succeeded: Seq<bool>,
    config: AppConfig,
    k: int,
)
    requires
        all_tried(states, found, succeeded, config.realms@, places(config.realms@)),
        forall|j: int| 0 <= j < succeeded.len() ==> #[trigger] succeeded[j],
        0 <= k <= found.len(),
        all_up_to_date(states[0], config.realms@),
        all_findable(config.realms@),
    ensures
        all_up_to_date(states[k], config.realms@),
    decreases k,
{
    if k > 0 {
        let p = k - 1;
        lemma_up_to_date_so_far(states, found, succeeded, config, p);
        lemma_started_hub_is_up_to_date(states, found, succeeded, config, p);
        let ps = places(config.realms@);
        assert(tried(states, found, succeeded, config.realms@, ps, p));
        assert(succeeded[p]);
        lemma_insertion_keeps_up_to_date(
            states[p],
            states[k],
            config.realms@,
            ps[found[p] as int],
        );
    }
}

/// A second round under the same configuration changes nothing, where every load
/// and every start of the first one succeeded: no hub has to go or to load anything,
/// and none is missing. The hubs have to be findable by their names.
pub proof fn law_second_round_changes_nothing<H>(
    before: Seq<RunningHub<H>>,
    settled: Seq<RunningHub<H>>,
    loaded: Seq<bool>,
    states: Seq<Seq<RunningHub<H>>>,
    found: Seq<usize>,
    succeeded: Seq<bool>,
    config: AppConfig,
)
    requires
        loaded.len() == before.len(),
        forall|i: int| 0 <= i < loaded.len() ==> #[trigger] loaded[i],
        all_reviewed(before, settled, config.realms@, loaded),
        all_tried(states, found, succeeded, config.realms@, places(config.realms@)),
        forall|k: int| 0 <= k < succeeded.len() ==> #[trigger] succeeded[k],
        states[0] == settled.filter(|h: RunningHub<H>| !outdated(h, config.realms@)),
        all_findable(config.realms@),
    ensures
        all_up_to_date(states.last(), config.realms@),
        states.last().filter(|h: RunningHub<H>| outdated(h, config.realms@)) == Seq::<
            RunningHub<H>,
        >::empty(),
        first_missing(states.last(), config.realms@, places(config.realms@), 0, None),
{
    let realms = config.realms@;
    let ps = places(realms);
    let stays = |h: RunningHub<H>| !outdated(h, realms);
    let goes = |h: RunningHub<H>| outdated(h, realms);
    lemma_filter_members(settled, stays);
    assert forall|i: int| 0 <= i < states[0].len() implies up_to_date(
        #[trigger] states[0][i],
        realms,
    ) by {
        let hub = settled.filter(stays)[i];
        assert(stays(hub) && settled.contains(hub));
        let k = choose|k: int| 0 <= k < settled.len() && settled[k] == hub;
        assert(loaded[k]);
        assert(reviewed(before[k], settled[k], realms, loaded[k]));
        lemma_review_keeps_its_kind(before[k], settled[k], config, true);
    }
    let n = found.len() as int;
    lemma_up_to_date_so_far(states, found, succeeded, config, n);
    let last = states.last();
    lemma_filter_members(last, goes);
    let out = last.filter(goes);
    if out.len() > 0 {
        assert(goes(out[0]) && last.contains(out[0]));
        let k = choose|k: int| 0 <= k < last.len() && last[k] == out[0];
        assert(up_to_date(last[k], realms));
    }
    assert(out =~= Seq::<RunningHub<H>>::empty());
    assert forall|i: int| 0 <= i < ps.len() implies runs(last, key_at(realms, #[trigger] ps[i])) by {
        law_every_enabled_hub_is_seen_to(states, found, succeeded, config, i);
    }
}

/// A running hub that the configuration has in an enabled realm stays exactly where
/// its address and its port are the configured ones, and is restarted where either
/// differs. One that stays loads certificates exactly where the certificate, the key
/// or the certificate of the realm differs, and gets a new service map exactly where
/// the services differ.
pub proof fn law_review_compares_the_settings<H>(
    hub: RunningHub<H>,
    realms: Seq<RealmConfig>,
    r: usize,
    h: usize,
)
    requires
        hub_place(realms, hub.realm_name@, hub.hub_name@, true) == Some((r as int, h as int)),
    ensures
        ({
            let realm = realms[r as int];
            let new = realm.hubs@[h as int];
            let same_socket = hub.config.server_address@ == new.server_address@
                && hub.config.server_port == new.server_port;
            let same_certificates = hub.config.server_cert@ == new.server_cert@
                && hub.config.server_cert_key@ == new.server_cert_key@ && hub.realm_ca_cert@
                == realm.realm_ca_cert@;
            let same_services = services_view(hub.config.services@) == services_view(new.services@);
            &&& !same_socket ==> review_of(hub, realms) == Review::Restart && outdated(hub, realms)
            &&& same_socket ==> !outdated(hub, realms) && (review_of(hub, realms) matches
                Review::Stay { place, load_certificates, reload_services } && place == (r, h)
                && load_certificates == !same_certificates && reload_services == !same_services)
        }),
{
}

/// A running hub is removed exactly where the configuration has none of its name in
/// the first enabled realm of its realm's name.
pub proof fn law_unconfigured_hub_is_removed<H>(hub: RunningHub<H>, realms: Seq<RealmConfig>)
    ensures
        review_of(hub, realms) == Review::Remove <==> hub_place(
            realms,
            hub.realm_name@,
            hub.hub_name@,
            true,
        ) is None,
        review_of(hub, realms) == Review::Remove ==> outdated(hub, realms),
        (forall|r: int|
            0 <= r < realms.len() ==> (#[trigger] realms[r]).realm_name@ != hub.realm_name@
                || realms[r].disabled) ==> review_of(hub, realms) == Review::Remove,
{
    if forall|r: int|
        0 <= r < realms.len() ==> (#[trigger] realms[r]).realm_name@ != hub.realm_name@
            || realms[r].disabled {
        let p = realm_named(hub.realm_name@, true);
        lemma_first_index(realms, p);
        let r = first_index(realms, p);
        if r < realms.len() {
            assert(p(realms[r]));
        }
    }
}

proof fn lemma_filter_finds<H>(
    s: Seq<RunningHub<H>>,
    p: spec_fn(RunningHub<H>) -> bool,
    i: int,
)
    requires
        0 <= i < s.len(),
        p(s[i]),
    ensures
        s.filter(p).contains(s[i]),
    decreases s.len(),
{
    reveal(Seq::filter);
    let front = s.drop_last();
    if i < front.len() {
        lemma_filter_finds(front, p, i);
        let g = front.filter(p);
        let k = choose|k: int| 0 <= k < g.len() && g[k] == s[i];
        assert(s.filter(p)[k] == s[i]);
    } else {
        assert(s.filter(p).last() == s[i]);
        assert(s.filter(p)[s.filter(p).len() - 1] == s[i]);
    }
}

/// A hub whose address or port has changed is among those that are taken out, and one
/// whose address and port have not is not.
pub proof fn law_moved_hub_is_taken_out<H>(
    s: Seq<RunningHub<H>>,
    realms: Seq<RealmConfig>,
    i: int,
    r: usize,
    h: usize,
)
    requires
        0 <= i < s.len(),
        hub_place(realms, s[i].realm_name@, s[i].hub_name@, true) == Some((r as int, h as int)),
    ensures
        s[i].config.server_address@ != realms[r as int].hubs@[h as int].server_address@
            || s[i].config.server_port != realms[r as int].hubs@[h as int].server_port <==> s.filter(
            |hub: RunningHub<H>| outdated(hub, realms),
        ).contains(s[i]),
{
    let goes = |hub: RunningHub<H>| outdated(hub, realms);
    law_review_compares_the_settings(s[i], realms, r, h);
    lemma_filter_members(s, goes);
    if goes(s[i]) {
        lemma_filter_finds(s, goes, i);
    }
    let out = s.filter(goes);
    if out.contains(s[i]) {
        let k = choose|k: int| 0 <= k < out.len() && out[k] == s[i];
        assert(goes(out[k]));
    }
}

/// A hub that takes a configuration in has every setting of it from then on, looks
/// its clients up in its services, and is the same running hub.
pub proof fn law_adopted_configuration_is_in_force<H>(
    before: RunningHub<H>,
    after: RunningHub<H>,
    realms: Seq<RealmConfig>,
    place: (usize, usize),
    cn: Seq<char>,
)
    requires
        adopted(before, after, realms, place),
    ensures
        ({
            let realm = realms[place.0 as int];
            let new = realm.hubs@[place.1 as int];
            &&& after.realm_name@ == before.realm_name@
            &&& after.hub_name@ == before.hub_name@
            &&& after.handle == before.handle
            &&& after.config.name@ == new.name@
            &&& after.config.server_address@ == new.server_address@
            &&& after.config.server_port == new.server_port
            &&& after.config.server_cert@ == new.server_cert@
            &&& after.config.server_cert_key@ == new.server_cert_key@
            &&& services_view(after.config.services@) == services_view(new.services@)
            &&& after.realm_ca_cert@ == realm.realm_ca_cert@
            &&& after.service_map.service(cn) == service_of(new.services@, cn)
        }),
{
}

/// After its review a hub has the configuration that it was compared with, unless it
/// has to go or its certificates could not be loaded: it is as it was then.
pub proof fn law_review_ends_in_the_new_configuration<H>(
    before: RunningHub<H>,
    after: RunningHub<H>,
    realms: Seq<RealmConfig>,
    loaded: bool,
    r: usize,
    h: usize,
)
    requires
        reviewed(before, after, realms, loaded),
        hub_place(realms, before.realm_name@, before.hub_name@, true) == Some((r as int, h as int)),
    ensures
        ({
            let realm = realms[r as int];
            let new = realm.hubs@[h as int];
            let same_socket = before.config.server_address@ == new.server_address@
                && before.config.server_port == new.server_port;
            let same_certificates = before.config.server_cert@ == new.server_cert@
                && before.config.server_cert_key@ == new.server_cert_key@ && before.realm_ca_cert@
                == realm.realm_ca_cert@;
            &&& same_socket && (same_certificates || loaded) ==> adopted(before, after, realms, (r, h))
            &&& !(same_socket && (same_certificates || loaded)) ==> after == before
        }),
{
    law_review_compares_the_settings(before, realms, r, h);
}

/// A hub that is taken in is known by its names and runs with its configuration and
/// the services in it. The others stay as they were.
pub proof fn law_inserted_hub_runs_with_its_configuration<H>(
    before: Seq<RunningHub<H>>,
    after: Seq<RunningHub<H>>,
    realms: Seq<RealmConfig>,
    place: (usize, usize),
    cn: Seq<char>,
)
    requires
        inserted(before, after, realms, place),
    ensures
        ({
            let realm = realms[place.0 as int];
            let new = realm.hubs@[place.1 as int];
            let hub = after[before.len() as int];
            &&& after.len() == before.len() + 1
            &&& forall|i: int| 0 <= i < before.len() ==> #[trigger] after[i] == before[i]
            &&& hub.realm_name@ == realm.realm_name@
            &&& hub.hub_name@ == new.name@
            &&& hub.config.server_address@ == new.server_address@
            &&& hub.config.server_port == new.server_port
            &&& hub.config.server_cert@ == new.server_cert@
            &&& hub.config.server_cert_key@ == new.server_cert_key@
            &&& services_view(hub.config.services@) == services_view(new.services@)
            &&& hub.realm_ca_cert@ == realm.realm_ca_cert@
            &&& hub.service_map.service(cn) == service_of(new.services@, cn)
        }),
{
    assert forall|i: int| 0 <= i < before.len() implies #[trigger] after[i] == before[i] by {
        assert(after.drop_last()[i] == after[i]);
    }
}

/// A hub runs exactly where one of the running hubs has its realm's name and its own.
pub proof fn law_hubs_are_known_by_their_names<H>(s: Seq<RunningHub<H>>, key: HubKey)
    ensures
        runs(s, key) <==> exists|i: int|
            0 <= i < s.len() && (#[trigger] s[i]).realm_name@ == key.0 && s[i].hub_name@ == key.1,
{
    if runs(s, key) {
        let i = choose|i: int| 0 <= i < s.len() && #[trigger] s[i].key() == key;
        assert(s[i].realm_name@ == key.0);
    }
    if exists|i: int|
        0 <= i < s.len() && (#[trigger] s[i]).realm_name@ == key.0 && s[i].hub_name@ == key.1 {
        let i = choose|i: int|
            0 <= i < s.len() && (#[trigger] s[i]).realm_name@ == key.0 && s[i].hub_name@ == key.1;
        assert(s[i].key() == key);
    }
}

/// The next hub to start is the first one whose names no running hub has.
pub proof fn law_next_missing_hub_is_the_first<H>(
    s: Seq<RunningHub<H>>,
    realms: Seq<RealmConfig>,
    places: Seq<(usize, usize)>,
    from: int,
    r: Option<usize>,
    i: int,
)
    requires
        first_missing(s, realms, places, from, r),
        from <= i < places.len(),
    ensures
        ({
            let realm = realms[places[i].0 as int];
            let running = exists|k: int|
                0 <= k < s.len() && (#[trigger] s[k]).realm_name@ == realm.realm_name@
                    && s[k].hub_name@ == realm.hubs@[places[i].1 as int].name@;
            &&& r is None ==> running
            &&& r matches Some(found) ==> from <= found < places.len() && (i < found ==> running)
                && (i == found ==> !running)
        }),
{
    law_hubs_are_known_by_their_names(s, key_at(realms, places[i]));
    if r is None || i < r->0 {
        assert(runs(s, key_at(realms, places[i])));
    }
}

/// The hubs that have to run are listed realm by realm and hub by hub, each one once,
/// and every one of them is there.
pub proof fn law_hubs_are_listed_in_order(config: AppConfig, i: int, j: int)
    requires
        0 <= i < j < places(config.realms@).len(),
    ensures
        ({
            let a = places(config.realms@)[i];
            let b = places(config.realms@)[j];
            &&& a.0 < b.0 || (a.0 == b.0 && a.1 < b.1)
            &&& a.0 < config.realms@.len() && a.1 < config.realms@[a.0 as int].hubs@.len()
            &&& !config.realms@[a.0 as int].disabled
        }),
{
    lemma_sizes(config);
    lemma_places_in_order(config.realms@);
    let ps = places(config.realms@);
    assert(comes_before(ps[i], ps[j]));
    law_exactly_the_enabled_hubs_have_to_run(config.realms@, ps[i]);
    assert(ps.contains(ps[i]));
}

/// A hub of an enabled realm has to run, and one of a disabled realm has not.
pub proof fn law_hub_has_to_run_where_its_realm_is_enabled(config: AppConfig, r: usize, h: usize)
    requires
        r < config.realms@.len(),
        h < config.realms@[r as int].hubs@.len(),
    ensures
        places(config.realms@).contains((r, h)) <==> !config.realms@[r as int].disabled,
{
    lemma_sizes(config);
    law_exactly_the_enabled_hubs_have_to_run(config.realms@, (r, h));
}

/// Every running hub looks its clients up in the services of its configuration.
pub proof fn law_running_hubs_know_their_clients<H>(table: HubTable<H>, i: int, cn: Seq<char>)
    requires
        table.wf(),
        0 <= i < table@.len(),
    ensures
        table@[i].service_map.service(cn) == service_of(table@[i].config.services@, cn),
{
    assert(table@[i].wf());
}

/// No hub runs twice.
pub proof fn law_no_hub_runs_twice<H>(table: HubTable<H>, i: int, j: int)
    requires
        table.wf(),
        0 <= i < j < table@.len(),
    ensures
        table@[i].realm_name@ != table@[j].realm_name@ || table@[i].hub_name@ != table@[j].hub_name@,
{
    assert(table@[i].key() != table@[j].key());
}

/// A settled table has every hub that was reviewed, in its place, and each one is what
/// its own review and its own certificates made of it.
pub proof fn law_every_hub_is_reviewed<H>(
    before: Seq<RunningHub<H>>,
    after: Seq<RunningHub<H>>,
    config: AppConfig,
    loaded: Seq<bool>,
    i: int,
)
    requires
        all_reviewed(before, after, config.realms@, loaded),
        0 <= i < before.len(),
    ensures
        after.len() == before.len(),
        reviewed(before[i], after[i], config.realms@, loaded[i]),
        after[i].realm_name@ == before[i].realm_name@,
        after[i].hub_name@ == before[i].hub_name@,
        after[i].handle == before[i].handle,
{
    assert(reviewed(before[i], after[i], config.realms@, loaded[i]));
}

} // verus!
