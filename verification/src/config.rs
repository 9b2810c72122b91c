//! The inventory configuration and the lookups in it.

use vstd::prelude::*;

use crate::name_map::{text_map, NameMap};
use crate::text::{copy_texts, same_text, same_texts, text_of, texts, texts_of};

verus! {

/// How the provider of a service is started and stopped.
pub struct AvailabilityManagementConfig {
    /// Selects the cluster manager: `docker:`, `nomad:` or `k8s:` and what it needs.
    pub cluster_manager_urn: Option<String>,
    pub service_id: String,
    pub image: String,
    pub options: Option<Vec<String>>,
    pub env: Option<NameMap<String>>,
    pub command: Option<Vec<String>>,
    /// Seconds without a stream before the provider is stopped. 0: never.
    pub idle_timeout: u64,
    pub ondemand_start_on_consumer: bool,
    pub ondemand_start_on_payload: bool,
}

/// A service: one provider and its consumers.
pub struct ServiceConfig {
    pub name: String,
    pub urn: String,
    pub provider: String,
    pub consumers: Vec<String>,
    pub availability_management: AvailabilityManagementConfig,
}

/// A hub and the services that it mediates.
pub struct HubConfig {
    pub name: String,
    pub server_address: String,
    pub server_port: u16,
    pub server_cert: String,
    pub server_cert_key: String,
    pub services: Vec<ServiceConfig>,
}

/// A realm and its hubs.
pub struct RealmConfig {
    pub realm_name: String,
    pub disabled: bool,
    pub realm_ca_cert: String,
    pub hubs: Vec<HubConfig>,
}

/// The whole inventory.
pub struct AppConfig {
    pub realms: Vec<RealmConfig>,
}

impl AvailabilityManagementConfig {
    /// The environment names a variable at most once.
    pub open spec fn wf(&self) -> bool {
        self.env matches Some(env) ==> env.wf()
    }
}

/// What [`AvailabilityManagementConfig`] says.
#[verifier::ext_equal]
pub struct AvailabilityView {
    pub cluster_manager_urn: Option<Seq<char>>,
    pub service_id: Seq<char>,
    pub image: Seq<char>,
    pub options: Option<Seq<Seq<char>>>,
    pub env: Option<Map<Seq<char>, Seq<char>>>,
    pub command: Option<Seq<Seq<char>>>,
    pub idle_timeout: u64,
    pub ondemand_start_on_consumer: bool,
    pub ondemand_start_on_payload: bool,
}

/// What [`ServiceConfig`] says.
#[verifier::ext_equal]
pub struct ServiceView {
    pub name: Seq<char>,
    pub urn: Seq<char>,
    pub provider: Seq<char>,
    pub consumers: Seq<Seq<char>>,
    pub availability_management: AvailabilityView,
}

/// What [`HubConfig`] says.
#[verifier::ext_equal]
pub struct HubView {
    pub name: Seq<char>,
    pub server_address: Seq<char>,
    pub server_port: u16,
    pub server_cert: Seq<char>,
    pub server_cert_key: Seq<char>,
    pub services: Seq<ServiceView>,
}

impl View for AvailabilityManagementConfig {
    type V = AvailabilityView;

    open spec fn view(&self) -> AvailabilityView {
        AvailabilityView {
            cluster_manager_urn: text_of(self.cluster_manager_urn),
            service_id: self.service_id@,
            image: self.image@,
            options: texts_of(self.options),
            env: match self.env {
                Some(env) => Some(text_map(env@)),
                None => None,
            },
            command: texts_of(self.command),
            idle_timeout: self.idle_timeout,
            ondemand_start_on_consumer: self.ondemand_start_on_consumer,
            ondemand_start_on_payload: self.ondemand_start_on_payload,
        }
    }
}

impl View for ServiceConfig {
    type V = ServiceView;

    open spec fn view(&self) -> ServiceView {
        ServiceView {
            name: self.name@,
            urn: self.urn@,
            provider: self.provider@,
            consumers: texts(self.consumers@),
            availability_management: self.availability_management@,
        }
    }
}

/// What the services `s` say.
pub open spec fn services_view(s: Seq<ServiceConfig>) -> Seq<ServiceView> {
    s.map_values(|service: ServiceConfig| service@)
}

impl View for HubConfig {
    type V = HubView;

    open spec fn view(&self) -> HubView {
        HubView {
            name: self.name@,
            server_address: self.server_address@,
            server_port: self.server_port,
            server_cert: self.server_cert@,
            server_cert_key: self.server_cert_key@,
            services: services_view(self.services@),
        }
    }
}

fn copy_optional_texts(o: &Option<Vec<String>>) -> (r: Option<Vec<String>>)
    ensures
        texts_of(r) == texts_of(*o),
{
    match o {
        Some(v) => Some(copy_texts(v.as_slice())),
        None => None,
    }
}

fn same_optional_texts(a: &Option<Vec<String>>, b: &Option<Vec<String>>) -> (r: bool)
    ensures
        r == (texts_of(*a) == texts_of(*b)),
{
    match (a, b) {
        (Some(v), Some(w)) => same_texts(v.as_slice(), w.as_slice()),
        (None, None) => true,
        _ => false,
    }
}

impl AvailabilityManagementConfig {
    /// Copies the configuration.
    pub fn duplicate(&self) -> (r: Self)
        requires
            self.wf(),
        ensures
            r.wf(),
            r@ == self@,
    {
        AvailabilityManagementConfig {
            cluster_manager_urn: match &self.cluster_manager_urn {
                Some(urn) => Some(urn.as_str().to_owned()),
                None => None,
            },
            service_id: self.service_id.as_str().to_owned(),
            image: self.image.as_str().to_owned(),
            options: copy_optional_texts(&self.options),
            env: match &self.env {
                Some(env) => Some(env.duplicate()),
                None => None,
            },
            command: copy_optional_texts(&self.command),
            idle_timeout: self.idle_timeout,
            ondemand_start_on_consumer: self.ondemand_start_on_consumer,
            ondemand_start_on_payload: self.ondemand_start_on_payload,
        }
    }

    /// Whether the two configurations say the same.
    pub fn same_as(&self, other: &Self) -> (r: bool)
        requires
            self.wf(),
            other.wf(),
        ensures
            r == (self@ == other@),
    {
        let same_urn = match (&self.cluster_manager_urn, &other.cluster_manager_urn) {
            (Some(a), Some(b)) => same_text(a.as_str(), b.as_str()),
            (None, None) => true,
            _ => false,
        };
        let same_env = match (&self.env, &other.env) {
            (Some(a), Some(b)) => a.same_as(b),
            (None, None) => true,
            _ => false,
        };
        same_urn && same_env && same_text(self.service_id.as_str(), other.service_id.as_str())
            && same_text(self.image.as_str(), other.image.as_str()) && same_optional_texts(
            &self.options,
            &other.options,
        ) && same_optional_texts(&self.command, &other.command) && self.idle_timeout
            == other.idle_timeout && self.ondemand_start_on_consumer
            == other.ondemand_start_on_consumer && self.ondemand_start_on_payload
            == other.ondemand_start_on_payload
    }
}

impl ServiceConfig {
    /// The availability management is valid.
    pub open spec fn wf(&self) -> bool {
        self.availability_management.wf()
    }

    /// Copies the configuration.
    pub fn duplicate(&self) -> (r: Self)
        requires
            self.wf(),
        ensures
            r.wf(),
            r@ == self@,
    {
        ServiceConfig {
            name: self.name.as_str().to_owned(),
            urn: self.urn.as_str().to_owned(),
            provider: self.provider.as_str().to_owned(),
            consumers: copy_texts(self.consumers.as_slice()),
            availability_management: self.availability_management.duplicate(),
        }
    }

    /// Whether the two configurations say the same.
    pub fn same_as(&self, other: &Self) -> (r: bool)
        requires
            self.wf(),
            other.wf(),
        ensures
            r == (self@ == other@),
    {
        same_text(self.name.as_str(), other.name.as_str()) && same_text(
            self.urn.as_str(),
            other.urn.as_str(),
        ) && same_text(self.provider.as_str(), other.provider.as_str()) && same_texts(
            self.consumers.as_slice(),
            other.consumers.as_slice(),
        ) && self.availability_management.same_as(&other.availability_management)
    }
}

impl HubConfig {
    /// The services are valid.
    pub open spec fn wf(&self) -> bool {
        forall|s: int| 0 <= s < self.services@.len() ==> (#[trigger] self.services@[s]).wf()
    }

    /// Copies the configuration.
    pub fn duplicate(&self) -> (r: Self)
        requires
            self.wf(),
        ensures
            r.wf(),
            r@ == self@,
    {
        let mut services: Vec<ServiceConfig> = Vec::new();
        let mut i: usize = 0;
        while i < self.services.len()
            invariant
                self.wf(),
                i <= self.services@.len(),
                services@.len() == i,
                forall|s: int| 0 <= s < i ==> (#[trigger] services@[s]).wf(),
                forall|s: int| 0 <= s < i ==> (#[trigger] services@[s])@ == self.services@[s]@,
            decreases self.services@.len() - i,
        {
            services.push(self.services[i].duplicate());
            i = i + 1;
        }
        proof {
            assert(services_view(services@) =~= services_view(self.services@));
        }
        HubConfig {
            name: self.name.as_str().to_owned(),
            server_address: self.server_address.as_str().to_owned(),
            server_port: self.server_port,
            server_cert: self.server_cert.as_str().to_owned(),
            server_cert_key: self.server_cert_key.as_str().to_owned(),
            services,
        }
    }

    /// Whether the two hubs have the same services in the same order.
    pub fn same_services(&self, other: &Self) -> (r: bool)
        requires
            self.wf(),
            other.wf(),
        ensures
            r == (services_view(self.services@) == services_view(other.services@)),
    {
        if self.services.len() != other.services.len() {
            proof {
                assert(services_view(self.services@).len() != services_view(other.services@).len());
            }
            return false;
        }
        let mut i: usize = 0;
        while i < self.services.len()
            invariant
                self.wf(),
                other.wf(),
                i <= self.services@.len(),
                self.services@.len() == other.services@.len(),
                forall|s: int| 0 <= s < i ==> (#[trigger] self.services@[s])@ == other.services@[s]@,
            decreases self.services@.len() - i,
        {
            if !self.services[i].same_as(&other.services[i]) {
                proof {
                    assert(services_view(self.services@)[i as int] != services_view(
                        other.services@,
                    )[i as int]);
                }
                return false;
            }
            i = i + 1;
        }
        proof {
            assert(services_view(self.services@) =~= services_view(other.services@));
        }
        true
    }
}

impl RealmConfig {
    /// The hubs are valid.
    pub open spec fn wf(&self) -> bool {
        forall|h: int| 0 <= h < self.hubs@.len() ==> (#[trigger] self.hubs@[h]).wf()
    }
}

impl AppConfig {
    /// The realms are valid.
    pub open spec fn wf(&self) -> bool {
        forall|r: int| 0 <= r < self.realms@.len() ==> (#[trigger] self.realms@[r]).wf()
    }
}

/// The place of the first item of `s` that satisfies `p`, or the length of `s`
/// where none does.
pub open spec fn first_index<T>(s: Seq<T>, p: spec_fn(T) -> bool) -> int
    decreases s.len(),
{
    if s.len() == 0 || p(s[0]) {
        0
    } else {
        1 + first_index(s.skip(1), p)
    }
}

/// What `first_index` means: every earlier item fails `p`, and the item there,
/// if there is one, satisfies it.
pub proof fn lemma_first_index<T>(s: Seq<T>, p: spec_fn(T) -> bool)
    ensures
        0 <= first_index(s, p) <= s.len(),
        first_index(s, p) < s.len() ==> p(s[first_index(s, p)]),
        forall|j: int| 0 <= j < first_index(s, p) ==> !p(#[trigger] s[j]),
    decreases s.len(),
{
    if s.len() > 0 && !p(s[0]) {
        let rest = s.skip(1);
        lemma_first_index(rest, p);
        assert forall|j: int| 0 <= j < first_index(s, p) implies !p(#[trigger] s[j]) by {
            if j > 0 {
                assert(rest[j - 1] == s[j]);
            }
        }
    }
}

/// The first item that satisfies `p` is the only place with the properties of
/// `lemma_first_index`.
pub proof fn lemma_first_index_unique<T>(s: Seq<T>, p: spec_fn(T) -> bool, i: int)
    requires
        0 <= i <= s.len(),
        i < s.len() ==> p(s[i]),
        forall|j: int| 0 <= j < i ==> !p(#[trigger] s[j]),
    ensures
        first_index(s, p) == i,
{
    lemma_first_index(s, p);
    let f = first_index(s, p);
    if f < i {
        assert(!p(s[f]));
    } else if i < f {
        assert(!p(s[i]));
    }
}

/// The realm called `name`; only an enabled one where `enabled_only`.
pub open spec fn realm_named(name: Seq<char>, enabled_only: bool) -> spec_fn(RealmConfig) -> bool {
    |r: RealmConfig| r.realm_name@ == name && (enabled_only ==> !r.disabled)
}

/// The hub called `name`.
pub open spec fn hub_named(name: Seq<char>) -> spec_fn(HubConfig) -> bool {
    |h: HubConfig| h.name@ == name
}

/// The service called `name`.
pub open spec fn service_named(name: Seq<char>) -> spec_fn(ServiceConfig) -> bool {
    |s: ServiceConfig| s.name@ == name
}

/// The hub `hub` of realm `realm`: the first hub of that name in the first
/// realm of that name, by their places. With `enabled_only`, disabled realms do
/// not count.
pub open spec fn hub_place(
    realms: Seq<RealmConfig>,
    realm: Seq<char>,
    hub: Seq<char>,
    enabled_only: bool,
) -> Option<(int, int)> {
    let r = first_index(realms, realm_named(realm, enabled_only));
    if r < realms.len() {
        let hubs = realms[r].hubs@;
        let h = first_index(hubs, hub_named(hub));
        if h < hubs.len() {
            Some((r, h))
        } else {
            None
        }
    } else {
        None
    }
}

/// The place of the first service called `name`.
pub fn find_service(services: &Vec<ServiceConfig>, name: &str) -> (r: Option<usize>)
    ensures
        match r {
            Some(i) => i < services@.len() && i == first_index(services@, service_named(name@)),
            None => first_index(services@, service_named(name@)) == services@.len(),
        },
{
    let mut i: usize = 0;
    let ghost p = service_named(name@);
    while i < services.len()
        invariant
            i <= services@.len(),
            p == service_named(name@),
            forall|j: int| 0 <= j < i ==> !p(#[trigger] services@[j]),
        decreases services@.len() - i,
    {
        if same_text(services[i].name.as_str(), name) {
            proof {
                lemma_first_index_unique(services@, p, i as int);
            }
            return Some(i);
        }
        i = i + 1;
    }
    proof {
        lemma_first_index_unique(services@, p, i as int);
    }
    None
}

fn find_realm(realms: &Vec<RealmConfig>, name: &str, enabled_only: bool) -> (r: Option<usize>)
    ensures
        match r {
            Some(i) => i < realms@.len() && i == first_index(
                realms@,
                realm_named(name@, enabled_only),
            ),
            None => first_index(realms@, realm_named(name@, enabled_only)) == realms@.len(),
        },
{
    let mut i: usize = 0;
    let ghost p = realm_named(name@, enabled_only);
    while i < realms.len()
        invariant
            i <= realms@.len(),
            p == realm_named(name@, enabled_only),
            forall|j: int| 0 <= j < i ==> !p(#[trigger] realms@[j]),
        decreases realms@.len() - i,
    {
        if same_text(realms[i].realm_name.as_str(), name) && !(enabled_only && realms[i].disabled) {
            proof {
                lemma_first_index_unique(realms@, p, i as int);
            }
            return Some(i);
        }
        i = i + 1;
    }
    proof {
        lemma_first_index_unique(realms@, p, i as int);
    }
    None
}

/// The place of the hub `hub` of realm `realm`, as `hub_place` has it.
pub fn find_hub(config: &AppConfig, realm: &str, hub: &str, enabled_only: bool) -> (r: Option<
    (usize, usize),
>)
    ensures
        match r {
            Some((i, k)) => {
                &&& i < config.realms@.len()
                &&& k < config.realms@[i as int].hubs@.len()
                &&& hub_place(config.realms@, realm@, hub@, enabled_only) == Some(
                    (i as int, k as int),
                )
            },
            None => hub_place(config.realms@, realm@, hub@, enabled_only) is None,
        },
{
    let i: usize = match find_realm(&config.realms, realm, enabled_only) {
        Some(i) => i,
        None => {
            return None;
        },
    };
    let hubs = &config.realms[i].hubs;
    let ghost p = hub_named(hub@);
    let mut k: usize = 0;
    while k < hubs.len()
        invariant
            k <= hubs@.len(),
            i < config.realms@.len(),
            hubs@ == config.realms@[i as int].hubs@,
            i == first_index(config.realms@, realm_named(realm@, enabled_only)),
            p == hub_named(hub@),
            forall|j: int| 0 <= j < k ==> !p(#[trigger] hubs@[j]),
        decreases hubs@.len() - k,
    {
        if same_text(hubs[k].name.as_str(), hub) {
            proof {
                lemma_first_index_unique(hubs@, p, k as int);
            }
            return Some((i, k));
        }
        k = k + 1;
    }
    proof {
        lemma_first_index_unique(hubs@, p, k as int);
    }
    None
}

/// A hub that is found has the names that were asked for, stands in an enabled realm
/// where only those count, and is the first such hub of the first such realm.
pub proof fn law_found_hub_has_the_names(
    realms: Seq<RealmConfig>,
    realm: Seq<char>,
    hub: Seq<char>,
    enabled_only: bool,
    r: int,
    h: int,
)
    requires
        hub_place(realms, realm, hub, enabled_only) == Some((r, h)),
    ensures
        0 <= r < realms.len(),
        0 <= h < realms[r].hubs@.len(),
        realms[r].realm_name@ == realm,
        realms[r].hubs@[h].name@ == hub,
        enabled_only ==> !realms[r].disabled,
        forall|i: int|
            0 <= i < r ==> (#[trigger] realms[i]).realm_name@ != realm || (enabled_only
                && realms[i].disabled),
        forall|i: int| 0 <= i < h ==> (#[trigger] realms[r].hubs@[i]).name@ != hub,
{
    let p = realm_named(realm, enabled_only);
    lemma_first_index(realms, p);
    assert(p(realms[r]));
    assert forall|i: int| 0 <= i < r implies (#[trigger] realms[i]).realm_name@ != realm || (
    enabled_only && realms[i].disabled) by {
        assert(!p(realms[i]));
    }
    let q = hub_named(hub);
    lemma_first_index(realms[r].hubs@, q);
    assert(q(realms[r].hubs@[h]));
    assert forall|i: int| 0 <= i < h implies (#[trigger] realms[r].hubs@[i]).name@ != hub by {
        assert(!q(realms[r].hubs@[i]));
    }
}

/// A hub of the first realm of its name is found there. With `enabled_only` a
/// disabled realm does not count.
pub proof fn law_hub_is_found(
    realms: Seq<RealmConfig>,
    r: int,
    h: int,
    enabled_only: bool,
)
    requires
        0 <= r < realms.len(),
        0 <= h < realms[r].hubs@.len(),
        enabled_only ==> !realms[r].disabled,
        forall|i: int|
            0 <= i < r ==> (#[trigger] realms[i]).realm_name@ != realms[r].realm_name@ || (
            enabled_only && realms[i].disabled),
        forall|i: int|
            0 <= i < h ==> (#[trigger] realms[r].hubs@[i]).name@ != realms[r].hubs@[h].name@,
    ensures
        hub_place(realms, realms[r].realm_name@, realms[r].hubs@[h].name@, enabled_only) == Some(
            (r, h),
        ),
{
    let p = realm_named(realms[r].realm_name@, enabled_only);
    lemma_first_index_unique(realms, p, r);
    let q = hub_named(realms[r].hubs@[h].name@);
    lemma_first_index_unique(realms[r].hubs@, q, h);
}

/// The first service of a name is the one that is found by it.
pub proof fn law_service_is_found_by_name(services: Seq<ServiceConfig>, name: Seq<char>, k: int)
    requires
        0 <= k < services.len(),
        forall|i: int| 0 <= i < k ==> (#[trigger] services[i]).name@ != name,
    ensures
        first_index(services, service_named(name)) == k <==> services[k].name@ == name,
{
    lemma_first_index(services, service_named(name));
    let p = service_named(name);
    if services[k].name@ == name {
        lemma_first_index_unique(services, p, k);
    } else if first_index(services, p) == k {
        assert(p(services[k]));
    }
}

/// Two availability configurations count as the same exactly where every setting has
/// the same text, number or switch.
pub proof fn law_same_availability_means_same_settings(
    a: AvailabilityManagementConfig,
    b: AvailabilityManagementConfig,
)
    ensures
        a@ == b@ <==> {
            &&& text_of(a.cluster_manager_urn) == text_of(b.cluster_manager_urn)
            &&& a.service_id@ == b.service_id@
            &&& a.image@ == b.image@
            &&& texts_of(a.options) == texts_of(b.options)
            &&& texts_of(a.command) == texts_of(b.command)
            &&& a.idle_timeout == b.idle_timeout
            &&& a.ondemand_start_on_consumer == b.ondemand_start_on_consumer
            &&& a.ondemand_start_on_payload == b.ondemand_start_on_payload
            &&& match (a.env, b.env) {
                (Some(x), Some(y)) => text_map(x@) == text_map(y@),
                (None, None) => true,
                _ => false,
            }
        },
{
}

/// Two services count as the same exactly where their names, URNs, providers,
/// consumers and availability settings are the same.
pub proof fn law_same_service_means_same_settings(a: ServiceConfig, b: ServiceConfig)
    ensures
        a@ == b@ <==> {
            &&& a.name@ == b.name@
            &&& a.urn@ == b.urn@
            &&& a.provider@ == b.provider@
            &&& texts(a.consumers@) == texts(b.consumers@)
            &&& a.availability_management@ == b.availability_management@
        },
{
}

/// Two service lists count as the same exactly where they have the same services in
/// the same order.
pub proof fn law_same_services_means_same_list(a: Seq<ServiceConfig>, b: Seq<ServiceConfig>)
    ensures
        services_view(a) == services_view(b) <==> a.len() == b.len() && forall|i: int|
            0 <= i < a.len() ==> (#[trigger] a[i])@ == b[i]@,
{
    let v = services_view(a);
    let w = services_view(b);
    assert(v.len() == a.len() && w.len() == b.len());
    if v == w {
        assert forall|i: int| 0 <= i < a.len() implies (#[trigger] a[i])@ == b[i]@ by {
            assert(v[i] == a[i]@ && w[i] == b[i]@);
        }
    }
    if a.len() == b.len() && forall|i: int| 0 <= i < a.len() ==> (#[trigger] a[i])@ == b[i]@ {
        assert(v =~= w);
    }
}

/// Two hub configurations count as the same exactly where every setting and the
/// service lists are the same.
pub proof fn law_same_hub_means_same_settings(a: HubConfig, b: HubConfig)
    ensures
        a@ == b@ <==> {
            &&& a.name@ == b.name@
            &&& a.server_address@ == b.server_address@
            &&& a.server_port == b.server_port
            &&& a.server_cert@ == b.server_cert@
            &&& a.server_cert_key@ == b.server_cert_key@
            &&& services_view(a.services@) == services_view(b.services@)
        },
{
}

/// Texts are the same exactly where each one is, in order.
pub proof fn law_same_texts_means_same_text_by_text(a: Seq<String>, b: Seq<String>)
    ensures
        texts(a) == texts(b) <==> a.len() == b.len() && forall|i: int|
            0 <= i < a.len() ==> (#[trigger] a[i])@ == b[i]@,
{
    let v = texts(a);
    let w = texts(b);
    assert(v.len() == a.len() && w.len() == b.len());
    if v == w {
        assert forall|i: int| 0 <= i < a.len() implies (#[trigger] a[i])@ == b[i]@ by {
            assert(v[i] == a[i]@ && w[i] == b[i]@);
        }
    }
    if a.len() == b.len() && forall|i: int| 0 <= i < a.len() ==> (#[trigger] a[i])@ == b[i]@ {
        assert(v =~= w);
    }
}

} // verus!
