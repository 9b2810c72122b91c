//! Which service a client belongs to.

use vstd::hash_map::StringHashMap;
use vstd::prelude::*;

use crate::config::{services_view, ServiceConfig};
use crate::text::texts;

verus! {

/// The service that a client was found to belong to.
pub struct ServiceInfo {
    pub name: String,
    pub urn: String,
}

/// A name and a URN.
pub type ServiceIdentity = (Seq<char>, Seq<char>);

/// The service map: from the CN of a client to its service.
pub struct ServiceMap {
    services: StringHashMap<ServiceInfo>,
}

/// Whether `service` names `cn` as its provider or as one of its consumers.
pub open spec fn lists(service: ServiceConfig, cn: Seq<char>) -> bool {
    ||| service.provider@ == cn
    ||| exists|j: int| 0 <= j < service.consumers@.len() && #[trigger] service.consumers@[j]@ == cn
}

/// The service of `cn`: the last one of `services` that lists it.
pub open spec fn service_of(services: Seq<ServiceConfig>, cn: Seq<char>) -> Option<ServiceIdentity>
    decreases services.len(),
{
    if services.len() == 0 {
        None
    } else if lists(services.last(), cn) {
        Some((services.last().name@, services.last().urn@))
    } else {
        service_of(services.drop_last(), cn)
    }
}

spec fn found(map: Map<Seq<char>, ServiceInfo>, cn: Seq<char>) -> Option<ServiceIdentity> {
    if map.contains_key(cn) {
        Some((map[cn].name@, map[cn].urn@))
    } else {
        None
    }
}

impl ServiceInfo {
    /// The name and the URN.
    pub open spec fn identity(&self) -> ServiceIdentity {
        (self.name@, self.urn@)
    }
}

impl ServiceMap {
    /// The service that the map has for `cn`.
    pub closed spec fn service(&self, cn: Seq<char>) -> Option<ServiceIdentity> {
        found(self.services@, cn)
    }

    /// Whether the map has for every client what `services` say.
    pub open spec fn covers(&self, services: Seq<ServiceConfig>) -> bool {
        forall|cn: Seq<char>| #[trigger] self.service(cn) == service_of(services, cn)
    }

    /// Looks the client `cn` up.
    pub fn get(&self, cn: &str) -> (r: Option<&ServiceInfo>)
        ensures
            match r {
                Some(info) => self.service(cn@) == Some(info.identity()),
                None => self.service(cn@) is None,
            },
    {
        self.services.get(cn)
    }

    /// The service of the client `cn`; name and URN are `unknown` where no
    /// service lists it.
    pub fn resolve(&self, cn: &str) -> (r: ServiceInfo)
        ensures
            r.identity() == (match self.service(cn@) {
                Some(identity) => identity,
                None => ("unknown"@, "unknown"@),
            }),
    {
        match self.get(cn) {
            Some(info) => ServiceInfo { name: info.name.clone(), urn: info.urn.clone() },
            None => ServiceInfo { name: "unknown".to_owned(), urn: "unknown".to_owned() },
        }
    }
}

/// Builds a map from a client URN (CN) to its service information.
///
/// A client that several services list belongs to the last of them.
pub fn build_service_map(services: &[ServiceConfig]) -> (r: ServiceMap)
    ensures
        r.covers(services@),
{
    let mut map: StringHashMap<ServiceInfo> = StringHashMap::new();
    let mut i: usize = 0;
    proof {
        assert(services@.take(0) =~= Seq::<ServiceConfig>::empty());
    }
    while i < services.len()
        invariant
            i <= services@.len(),
            forall|cn: Seq<char>| #[trigger] found(map@, cn) == service_of(services@.take(i as int), cn),
        decreases services@.len() - i,
    {
        let service = &services[i];
        let ghost identity = (service.name@, service.urn@);
        let ghost before = services@.take(i as int);
        let ghost earlier = map@;
        map.insert(
            service.provider.clone(),
            ServiceInfo { name: service.name.clone(), urn: service.urn.clone() },
        );
        proof {
            assert forall|cn: Seq<char>| service.provider@ != cn implies #[trigger] found(map@, cn)
                == service_of(before, cn) by {
                assert(found(map@, cn) == found(earlier, cn));
            }
        }
        let mut k: usize = 0;
        while k < service.consumers.len()
            invariant
                k <= service.consumers@.len(),
                identity == (service.name@, service.urn@),
                forall|cn: Seq<char>| #[trigger]
                    found(map@, cn) == (if service.provider@ == cn || exists|j: int|
                        0 <= j < k && #[trigger] service.consumers@[j]@ == cn {
                        Some(identity)
                    } else {
                        service_of(before, cn)
                    }),
            decreases service.consumers@.len() - k,
        {
            let ghost earlier = map@;
            map.insert(
                service.consumers[k].clone(),
                ServiceInfo { name: service.name.clone(), urn: service.urn.clone() },
            );
            proof {
                let added = service.consumers@[k as int]@;
                assert forall|cn: Seq<char>| #[trigger] found(map@, cn) == (if service.provider@ == cn
                    || exists|j: int| 0 <= j < k + 1 && #[trigger] service.consumers@[j]@ == cn {
                    Some(identity)
                } else {
                    service_of(before, cn)
                }) by {
                    if cn != added {
                        assert(found(map@, cn) == found(earlier, cn));
                        assert((exists|j: int| 0 <= j < k + 1 && #[trigger] service.consumers@[j]@ == cn)
                            == (exists|j: int| 0 <= j < k && #[trigger] service.consumers@[j]@ == cn));
                    }
                }
            }
            k = k + 1;
        }
        proof {
            let after = services@.take(i + 1);
            assert(after.last() == services@[i as int]);
            assert(after.drop_last() =~= before);
        }
        i = i + 1;
    }
    proof {
        assert(services@.take(i as int) =~= services@);
    }
    ServiceMap { services: map }
}

/// Every client that a service lists is in the map, and nobody else: a client
/// has a service exactly if some service names it.
pub proof fn law_map_covers_exactly_the_listed_clients(services: Seq<ServiceConfig>, cn: Seq<char>)
    ensures
        service_of(services, cn) is Some <==> exists|i: int|
            0 <= i < services.len() && lists(#[trigger] services[i], cn),
    decreases services.len(),
{
    if services.len() > 0 {
        let front = services.drop_last();
        law_map_covers_exactly_the_listed_clients(front, cn);
        if lists(services.last(), cn) {
            assert(lists(services[services.len() - 1], cn));
        } else {
            if exists|i: int| 0 <= i < services.len() && lists(#[trigger] services[i], cn) {
                let i = choose|i: int| 0 <= i < services.len() && lists(#[trigger] services[i], cn);
                assert(front[i] == services[i]);
            }
            if exists|i: int| 0 <= i < front.len() && lists(#[trigger] front[i], cn) {
                let i = choose|i: int| 0 <= i < front.len() && lists(#[trigger] front[i], cn);
                assert(services[i] == front[i]);
            }
        }
    }
}

/// The service of a client depends on what the services say alone.
pub proof fn law_same_services_same_map(
    a: Seq<ServiceConfig>,
    b: Seq<ServiceConfig>,
    cn: Seq<char>,
)
    requires
        services_view(a) == services_view(b),
    ensures
        service_of(a, cn) == service_of(b, cn),
    decreases a.len(),
{
    assert(a.len() == services_view(a).len());
    assert(b.len() == services_view(b).len());
    if a.len() > 0 {
        let last = a.len() - 1;
        assert(services_view(a)[last] == a[last]@);
        assert(services_view(b)[last] == b[last]@);
        let s = a[last];
        let t = b[last];
        assert(texts(s.consumers@) == texts(t.consumers@));
        assert(texts(s.consumers@).len() == texts(t.consumers@).len());
        if lists(s, cn) && s.provider@ != cn {
            let j = choose|j: int| 0 <= j < s.consumers@.len() && #[trigger] s.consumers@[j]@ == cn;
            assert(texts(s.consumers@)[j] == texts(t.consumers@)[j]);
            assert(t.consumers@[j]@ == cn);
        }
        if lists(t, cn) && t.provider@ != cn {
            let j = choose|j: int| 0 <= j < t.consumers@.len() && #[trigger] t.consumers@[j]@ == cn;
            assert(texts(s.consumers@)[j] == texts(t.consumers@)[j]);
            assert(s.consumers@[j]@ == cn);
        }
        assert(services_view(a.drop_last()) =~= services_view(a).drop_last());
        assert(services_view(b.drop_last()) =~= services_view(b).drop_last());
        law_same_services_same_map(a.drop_last(), b.drop_last(), cn);
    }
}

/// A client gets the name and the URN of the last service that has it as its
/// provider or as one of its consumers.
pub proof fn law_last_listing_wins(services: Seq<ServiceConfig>, i: int, cn: Seq<char>)
    requires
        0 <= i < services.len(),
        services[i].provider@ == cn || exists|j: int|
            0 <= j < services[i].consumers@.len() && #[trigger] services[i].consumers@[j]@ == cn,
        forall|k: int| i < k < services.len() ==> (#[trigger] services[k]).provider@ != cn,
        forall|k: int, j: int|
            i < k < services.len() && 0 <= j < services[k].consumers@.len()
                ==> #[trigger] services[k].consumers@[j]@ != cn,
    ensures
        service_of(services, cn) == Some((services[i].name@, services[i].urn@)),
    decreases services.len(),
{
    let last = services.len() - 1;
    if i < last {
        assert(services[last].provider@ != cn);
        assert(!lists(services.last(), cn)) by {
            if lists(services.last(), cn) {
                let j = choose|j: int|
                    0 <= j < services.last().consumers@.len()
                        && #[trigger] services.last().consumers@[j]@ == cn;
                assert(services[last].consumers@[j]@ != cn);
            }
        }
        let front = services.drop_last();
        assert(front[i] == services[i]);
        assert forall|k: int| i < k < front.len() implies (#[trigger] front[k]).provider@ != cn by {
            assert(services[k].provider@ != cn);
        }
        assert forall|k: int, j: int|
            i < k < front.len() && 0 <= j < front[k].consumers@.len() implies #[trigger] front[k].consumers@[j]@
            != cn by {
            assert(services[k].consumers@[j]@ != cn);
        }
        law_last_listing_wins(front, i, cn);
    }
}

/// A client that is neither the provider nor a consumer of any service has none.
pub proof fn law_unlisted_client_has_no_service(services: Seq<ServiceConfig>, cn: Seq<char>)
    requires
        forall|k: int| 0 <= k < services.len() ==> (#[trigger] services[k]).provider@ != cn,
        forall|k: int, j: int|
            0 <= k < services.len() && 0 <= j < services[k].consumers@.len()
                ==> #[trigger] services[k].consumers@[j]@ != cn,
    ensures
        service_of(services, cn) is None,
    decreases services.len(),
{
    if services.len() > 0 {
        let last = services.len() - 1;
        assert(services[last].provider@ != cn);
        assert(!lists(services.last(), cn)) by {
            if lists(services.last(), cn) {
                let j = choose|j: int|
                    0 <= j < services.last().consumers@.len()
                        && #[trigger] services.last().consumers@[j]@ == cn;
                assert(services[last].consumers@[j]@ != cn);
            }
        }
        let front = services.drop_last();
        assert forall|k: int| 0 <= k < front.len() implies (#[trigger] front[k]).provider@ != cn by {
            assert(services[k].provider@ != cn);
        }
        assert forall|k: int, j: int|
            0 <= k < front.len() && 0 <= j < front[k].consumers@.len() implies #[trigger] front[k].consumers@[j]@
            != cn by {
            assert(services[k].consumers@[j]@ != cn);
        }
        law_unlisted_client_has_no_service(front, cn);
    }
}

/// A map that covers a service list answers as the list does, client by client.
pub proof fn law_covering_map_answers_as_the_list(
    map: ServiceMap,
    services: Seq<ServiceConfig>,
    cn: Seq<char>,
)
    requires
        map.covers(services),
    ensures
        map.service(cn) == service_of(services, cn),
{
}

/// A service is known by its name and its URN.
pub proof fn law_identity_is_name_and_urn(info: ServiceInfo)
    ensures
        info.identity() == (info.name@, info.urn@),
{
}

} // verus!
