//! Translation of live registrations into locality-grouped, weighted
//! endpoint assignments for the endpoint-discovery protocol (EDS).
//!
//! The locality convention: a host's locality is the value of its
//! `zone` tag; hosts without that tag share the `default` locality.
//! Every endpoint is emitted with weight 1 and health `healthy`.

use vstd::prelude::*;

use crate::store::Storage;
use crate::text::append_dec_u16;
use crate::text::dec_str;
use crate::text::str_eq;
use crate::types::Host;
use crate::types::SpecHost;
use crate::types::SpecTag;
use crate::types::StoreError;
use crate::types::Tag;

verus! {

/// The discovery-protocol resource type carried in every assignment.
pub const EDS_TYPE_URL: &'static str = "type.googleapis.com/envoy.api.v2.ClusterLoadAssignment";

/// One weighted endpoint of an assignment.
pub struct LbEndpoint {
    pub address: String,
    pub weight: u64,
    pub health: String,
}

/// Mathematical image of an [`LbEndpoint`].
#[verifier::ext_equal]
pub struct SpecEndpoint {
    pub address: Seq<char>,
    pub weight: u64,
    pub health: Seq<char>,
}

impl View for LbEndpoint {
    type V = SpecEndpoint;

    open spec fn view(&self) -> SpecEndpoint {
        SpecEndpoint { address: self.address@, weight: self.weight, health: self.health@ }
    }
}

impl DeepView for LbEndpoint {
    type V = SpecEndpoint;

    open spec fn deep_view(&self) -> SpecEndpoint {
        self.view()
    }
}

/// The endpoints of one locality, in store order.
pub struct LocalityLbEndpoints {
    pub locality: String,
    pub lb_endpoints: Vec<LbEndpoint>,
}

/// Mathematical image of a [`LocalityLbEndpoints`].
#[verifier::ext_equal]
pub struct SpecLocality {
    pub locality: Seq<char>,
    pub lb_endpoints: Seq<SpecEndpoint>,
}

impl View for LocalityLbEndpoints {
    type V = SpecLocality;

    open spec fn view(&self) -> SpecLocality {
        SpecLocality { locality: self.locality@, lb_endpoints: self.lb_endpoints.deep_view() }
    }
}

impl DeepView for LocalityLbEndpoints {
    type V = SpecLocality;

    open spec fn deep_view(&self) -> SpecLocality {
        self.view()
    }
}

/// One locality-grouped assignment for one requested service.
pub struct ClusterLoadAssignment {
    pub type_url: String,
    pub cluster_name: String,
    pub endpoints: Vec<LocalityLbEndpoints>,
}

/// Mathematical image of a [`ClusterLoadAssignment`].
#[verifier::ext_equal]
pub struct SpecAssignment {
    pub type_url: Seq<char>,
    pub cluster_name: Seq<char>,
    pub endpoints: Seq<SpecLocality>,
}

impl View for ClusterLoadAssignment {
    type V = SpecAssignment;

    open spec fn view(&self) -> SpecAssignment {
        SpecAssignment {
            type_url: self.type_url@,
            cluster_name: self.cluster_name@,
            endpoints: self.endpoints.deep_view(),
        }
    }
}

impl DeepView for ClusterLoadAssignment {
    type V = SpecAssignment;

    open spec fn deep_view(&self) -> SpecAssignment {
        self.view()
    }
}

/// The body of a discovery request: the service names asked for.
pub struct DiscoveryRequest {
    pub resource_names: Vec<String>,
}

/// The envelope of a discovery response: a merely-unique version
/// identifier and one assignment per requested service.
pub struct EdsDiscoveryResponse {
    pub version_info: String,
    pub resources: Vec<ClusterLoadAssignment>,
}

/// The value of the first tag named `key`, if any.
pub open spec fn spec_tag_value(tags: Seq<SpecTag>, key: Seq<char>) -> Option<Seq<char>>
    decreases tags.len(),
{
    if tags.len() == 0 {
        None
    } else if tags[0].key == key {
        Some(tags[0].value)
    } else {
        spec_tag_value(tags.drop_first(), key)
    }
}

/// Finds the value of the first tag named `key`.
pub fn find_tag(tags: &Tag, key: &str) -> (r: Option<String>)
    ensures
        match r {
            Some(v) => spec_tag_value(tags.deep_view(), key@) == Some(v@),
            None => spec_tag_value(tags.deep_view(), key@) is None,
        },
{
    let ghost d = tags.deep_view();
    proof {
        assert(d.skip(0) =~= d);
    }
    let mut i: usize = 0;
    while i < tags.len()
        invariant
            0 <= i <= tags@.len(),
            d == tags.deep_view(),
            d.len() == tags@.len(),
            spec_tag_value(d, key@) == spec_tag_value(d.skip(i as int), key@),
        decreases tags@.len() - i,
    {
        let e = &tags[i];
        proof {
            assert(d.skip(i as int)[0] == d[i as int]);
            assert(d[i as int] == e@);
            assert(d.skip(i as int).drop_first() =~= d.skip(i + 1));
        }
        if str_eq(e.key.as_str(), key) {
            return Some(e.value.clone());
        }
        i += 1;
    }
    proof {
        assert(d.skip(d.len() as int) =~= Seq::<SpecTag>::empty());
    }
    None
}

/// The locality of a host: its `zone` tag, or the shared `default`
/// locality when it has none.
pub open spec fn locality_of(h: SpecHost) -> Seq<char> {
    match spec_tag_value(h.tags, "zone"@) {
        Some(v) => v,
        None => "default"@,
    }
}

/// The locality key of one host, as a string.
fn locality_key(h: &Host) -> (r: String)
    ensures
        r@ == locality_of(h@),
{
    match find_tag(&h.tags, "zone") {
        Some(v) => v,
        None => "default".to_owned(),
    }
}

/// `ip:port`, the wire address of a host.
pub open spec fn spec_address(ip: Seq<char>, port: u16) -> Seq<char> {
    ip + seq![':'] + dec_str(port as nat)
}

/// The endpoint descriptor emitted for one host: its address, weight
/// 1, health `healthy`.
pub open spec fn endpoint_of(h: SpecHost) -> SpecEndpoint {
    SpecEndpoint { address: spec_address(h.ip_address, h.port), weight: 1, health: "healthy"@ }
}

/// Builds the endpoint descriptor of one host.
pub fn endpoint_for(h: &Host) -> (r: LbEndpoint)
    ensures
        r@ == endpoint_of(h@),
{
    let mut addr = h.ip_address.clone();
    addr.append(":");
    append_dec_u16(&mut addr, h.port);
    proof {
        reveal_strlit(":");
        assert(":"@ =~= seq![':']);
        assert(addr@ =~= spec_address(h@.ip_address, h@.port));
    }
    LbEndpoint { address: addr, weight: 1, health: "healthy".to_owned() }
}

/// The distinct localities of `hosts`, in order of first appearance.
pub open spec fn locality_keys(hosts: Seq<SpecHost>) -> Seq<Seq<char>>
    decreases hosts.len(),
{
    if hosts.len() == 0 {
        Seq::empty()
    } else {
        let prev = locality_keys(hosts.drop_last());
        if prev.contains(locality_of(hosts.last())) {
            prev
        } else {
            prev.push(locality_of(hosts.last()))
        }
    }
}

/// The endpoints of one locality: the hosts of that locality, in
/// order, each as its endpoint descriptor.
pub open spec fn group_endpoints(hosts: Seq<SpecHost>, key: Seq<char>) -> Seq<SpecEndpoint> {
    hosts.filter(|h: SpecHost| locality_of(h) == key).map_values(|h: SpecHost| endpoint_of(h))
}

/// The full locality partition of `hosts`: one group per distinct
/// locality, in order of first appearance, each holding its hosts'
/// endpoints in store order.
pub open spec fn localities_model(hosts: Seq<SpecHost>) -> Seq<SpecLocality> {
    locality_keys(hosts).map_values(
        |k: Seq<char>| SpecLocality { locality: k, lb_endpoints: group_endpoints(hosts, k) },
    )
}

/// Every host's locality appears among the locality keys.
proof fn lemma_locality_keys_complete(hosts: Seq<SpecHost>)
    ensures
        forall|i: int|
            0 <= i < hosts.len() ==> locality_keys(hosts).contains(
                locality_of(#[trigger] hosts[i]),
            ),
    decreases hosts.len(),
{
    if hosts.len() > 0 {
        let dl = hosts.drop_last();
        lemma_locality_keys_complete(dl);
        let prev = locality_keys(dl);
        let k = locality_of(hosts.last());
        assert forall|i: int| 0 <= i < hosts.len() implies locality_keys(hosts).contains(
            locality_of(#[trigger] hosts[i]),
        ) by {
            if i < hosts.len() - 1 {
                assert(dl[i] == hosts[i]);
                assert(prev.contains(locality_of(hosts[i])));
                let j = choose|j: int| 0 <= j < prev.len() && prev[j] == locality_of(hosts[i]);
                if !prev.contains(k) {
                    assert(prev.push(k)[j] == prev[j]);
                }
            } else {
                if prev.contains(k) {
                    assert(locality_keys(hosts) == prev);
                } else {
                    assert(locality_keys(hosts)[prev.len() as int] == k);
                }
            }
        }
    }
}

/// The locality keys are pairwise distinct.
proof fn lemma_locality_keys_no_dup(hosts: Seq<SpecHost>)
    ensures
        forall|k: int, l: int|
            0 <= k < l < locality_keys(hosts).len() ==> #[trigger] locality_keys(hosts)[k]
                != #[trigger] locality_keys(hosts)[l],
    decreases hosts.len(),
{
    if hosts.len() > 0 {
        let dl = hosts.drop_last();
        lemma_locality_keys_no_dup(dl);
        let prev = locality_keys(dl);
        let key = locality_of(hosts.last());
        let cur = locality_keys(hosts);
        assert forall|k: int, l: int| 0 <= k < l < cur.len() implies #[trigger] cur[k]
            != #[trigger] cur[l] by {
            if prev.contains(key) {
                assert(cur == prev);
                assert(prev[k] != prev[l]);
            } else {
                assert(cur == prev.push(key));
                if l < prev.len() {
                    assert(prev[k] != prev[l]);
                } else {
                    assert(cur[l] == key);
                    assert(cur[k] == prev[k]);
                    if prev[k] == key {
                        assert(prev.contains(key));
                    }
                }
            }
        }
    }
}

/// Extending the host list by one host extends its locality partition:
/// the host's endpoint joins its locality's group (a fresh group if the
/// locality is new), and every other group stays as it was.
proof fn lemma_partition_step(m: Seq<SpecHost>, i: int)
    requires
        0 <= i < m.len(),
    ensures
        locality_keys(m.take(i)).contains(locality_of(m[i])) ==> locality_keys(m.take(i + 1))
            == locality_keys(m.take(i)),
        !locality_keys(m.take(i)).contains(locality_of(m[i])) ==> locality_keys(m.take(i + 1))
            == locality_keys(m.take(i)).push(locality_of(m[i])),
        forall|k2: Seq<char>|
            k2 == locality_of(m[i]) ==> #[trigger] group_endpoints(m.take(i + 1), k2)
                == group_endpoints(m.take(i), k2).push(endpoint_of(m[i])),
        forall|k2: Seq<char>|
            k2 != locality_of(m[i]) ==> #[trigger] group_endpoints(m.take(i + 1), k2)
                == group_endpoints(m.take(i), k2),
{
    assert(m.take(i + 1).drop_last() =~= m.take(i));
    assert(m.take(i + 1).last() == m[i]);
    assert forall|k2: Seq<char>| k2 == locality_of(m[i]) implies #[trigger] group_endpoints(
        m.take(i + 1),
        k2,
    ) == group_endpoints(m.take(i), k2).push(endpoint_of(m[i])) by {
        reveal(Seq::<SpecHost>::filter);
        let p = |h: SpecHost| locality_of(h) == k2;
        let f = |h: SpecHost| endpoint_of(h);
        assert(m.take(i + 1).filter(p) == m.take(i).filter(p).push(m[i]));
        assert(m.take(i + 1).filter(p).map_values(f) =~= m.take(i).filter(p).map_values(f).push(
            endpoint_of(m[i]),
        ));
    }
    assert forall|k2: Seq<char>| k2 != locality_of(m[i]) implies #[trigger] group_endpoints(
        m.take(i + 1),
        k2,
    ) == group_endpoints(m.take(i), k2) by {
        reveal(Seq::<SpecHost>::filter);
        let p = |h: SpecHost| locality_of(h) == k2;
        assert(m.take(i + 1).filter(p) == m.take(i).filter(p));
    }
}

/// Partitions `hosts` by locality: one group per distinct locality in
/// order of first appearance, each listing its hosts' endpoints in
/// store order.
pub fn hosts_to_locality_lb_endpoints(hosts: Vec<Host>) -> (r: Vec<LocalityLbEndpoints>)
    ensures
        r.deep_view() == localities_model(hosts.deep_view()),
{
    let ghost m = hosts.deep_view();
    let mut out: Vec<LocalityLbEndpoints> = Vec::new();
    let mut i: usize = 0;
    while i < hosts.len()
        invariant
            0 <= i <= hosts@.len(),
            m == hosts.deep_view(),
            m.len() == hosts@.len(),
            out@.len() == locality_keys(m.take(i as int)).len(),
            out.deep_view() =~~= localities_model(m.take(i as int)),
        decreases hosts@.len() - i,
    {
        let h = &hosts[i];
        let key = locality_key(h);
        let e = endpoint_for(h);
        let ghost keys_pre = locality_keys(m.take(i as int));
        proof {
            assert(m[i as int] == h@);
            lemma_locality_keys_no_dup(m.take(i as int));
            lemma_partition_step(m, i as int);
        }
        let mut idx: Option<usize> = None;
        let mut j: usize = 0;
        while j < out.len()
            invariant
                0 <= j <= out@.len(),
                out@.len() == keys_pre.len(),
                out.deep_view() =~~= localities_model(m.take(i as int)),
                keys_pre == locality_keys(m.take(i as int)),
                key@ == locality_of(m[i as int]),
                m == hosts.deep_view(),
                0 <= i < m.len(),
                match idx {
                    Some(x) => x < out@.len() && keys_pre[x as int] == key@,
                    None => forall|g: int| 0 <= g < j ==> keys_pre[g] != key@,
                },
            decreases out@.len() - j,
        {
            if idx.is_none() {
                proof {
                    assert(out.deep_view()[j as int].locality == keys_pre[j as int]);
                }
                if str_eq(out[j].locality.as_str(), key.as_str()) {
                    idx = Some(j);
                }
            }
            j += 1;
        }
        let ghost pre = out.deep_view();
        let ghost prev = out@;
        match idx {
            Some(x) => {
                proof {
                    assert(keys_pre.contains(key@));
                    assert(locality_keys(m.take(i + 1)) == keys_pre);
                }
                let mut grp = out.remove(x);
                let ghost grp_eps = grp.lb_endpoints.deep_view();
                grp.lb_endpoints.push(e);
                proof {
                    assert(grp.lb_endpoints.deep_view() =~= grp_eps.push(e@));
                }
                out.insert(x, grp);
                proof {
                    assert(out@ =~= prev.update(x as int, grp));
                    assert forall|g: int| 0 <= g < out.deep_view().len() implies out.deep_view()[g]
                        =~~= localities_model(m.take(i + 1))[g] by {
                        if g == x {
                            assert(pre[g].lb_endpoints == group_endpoints(m.take(i as int), key@));
                            assert(group_endpoints(m.take(i + 1), key@) == group_endpoints(
                                m.take(i as int),
                                key@,
                            ).push(endpoint_of(m[i as int])));
                        } else {
                            assert(out@[g] == prev[g]);
                            assert(out.deep_view()[g] == pre[g]);
                            assert(keys_pre[g] != keys_pre[x as int]);
                            assert(group_endpoints(m.take(i + 1), keys_pre[g]) == group_endpoints(
                                m.take(i as int),
                                keys_pre[g],
                            ));
                        }
                    }
                    assert(out.deep_view() =~~= localities_model(m.take(i + 1)));
                }
            },
            None => {
                proof {
                    if keys_pre.contains(key@) {
                        let w = choose|w: int| 0 <= w < keys_pre.len() && keys_pre[w] == key@;
                        assert(keys_pre[w] != key@);
                    }
                    assert(locality_keys(m.take(i + 1)) == keys_pre.push(key@));
                    lemma_group_empty_when_absent(m.take(i as int), key@);
                }
                let mut eps: Vec<LbEndpoint> = Vec::new();
                eps.push(e);
                let grp = LocalityLbEndpoints { locality: key, lb_endpoints: eps };
                proof {
                    assert(grp@.lb_endpoints =~= group_endpoints(m.take(i as int), key@).push(
                        endpoint_of(m[i as int]),
                    ));
                }
                out.push(grp);
                proof {
                    assert forall|g: int| 0 <= g < out.deep_view().len() implies out.deep_view()[g]
                        =~~= localities_model(m.take(i + 1))[g] by {
                        if g < prev.len() {
                            assert(out@[g] == prev[g]);
                            assert(out.deep_view()[g] == pre[g]);
                            assert(keys_pre.push(key@)[g] == keys_pre[g]);
                            if keys_pre[g] == key@ {
                                assert(keys_pre.contains(key@));
                            }
                            assert(group_endpoints(m.take(i + 1), keys_pre[g]) == group_endpoints(
                                m.take(i as int),
                                keys_pre[g],
                            ));
                        } else {
                            assert(out@[g] == grp);
                            assert(group_endpoints(m.take(i + 1), key@) == group_endpoints(
                                m.take(i as int),
                                key@,
                            ).push(endpoint_of(m[i as int])));
                        }
                    }
                    assert(out.deep_view() =~~= localities_model(m.take(i + 1)));
                }
            },
        }
        i += 1;
    }
    proof {
        assert(m.take(m.len() as int) =~= m);
    }
    out
}

/// A locality that is not among the keys has no endpoints.
proof fn lemma_group_empty_when_absent(hosts: Seq<SpecHost>, key: Seq<char>)
    requires
        !locality_keys(hosts).contains(key),
    ensures
        group_endpoints(hosts, key) =~= Seq::<SpecEndpoint>::empty(),
{
    lemma_locality_keys_complete(hosts);
    let p = |h: SpecHost| locality_of(h) == key;
    let f = hosts.filter(p);
    if f.len() > 0 {
        hosts.lemma_filter_pred(p, 0);
        assert(f.contains(f[0]));
        crate::store::lemma_filter_subset(hosts, p, f[0]);
        let j = choose|j: int| 0 <= j < hosts.len() && hosts[j] == f[0];
        assert(locality_keys(hosts).contains(locality_of(hosts[j])));
        assert(false);
    }
    hosts.lemma_filter_len(p);
}

/// Law (empty is valid): a service with no live hosts translates to a
/// partition with no localities at all — an empty assignment, not an
/// error.
pub proof fn lemma_empty_partition()
    ensures
        localities_model(Seq::<SpecHost>::empty()) == Seq::<SpecLocality>::empty(),
{
    assert(locality_keys(Seq::<SpecHost>::empty()) == Seq::<Seq<char>>::empty());
    assert(localities_model(Seq::<SpecHost>::empty()) =~= Seq::<SpecLocality>::empty());
}

/// What one assignment of a well-built discovery response satisfies:
/// the EDS type URL, the requested cluster name, and the locality
/// partition of exactly what the store's own query for that name
/// answered.
pub open spec fn assignment_answers<S: Storage>(
    s: &S,
    a: ClusterLoadAssignment,
    name: Seq<char>,
) -> bool {
    &&& a@.type_url == EDS_TYPE_URL@
    &&& a@.cluster_name == name
    &&& exists|ns: &str, hosts: Vec<Host>|
        ns@ == name && #[trigger] call_ensures(
            <S as Storage>::query_items,
            (s, ns),
            Ok::<Vec<Host>, StoreError>(hosts),
        ) && a@.endpoints == localities_model(hosts.deep_view())
}

/// Assembles the assignment of one requested service from its live
/// hosts.
pub fn assignment_for(name: &str, hosts: Vec<Host>) -> (r: ClusterLoadAssignment)
    ensures
        r@.type_url == EDS_TYPE_URL@,
        r@.cluster_name == name@,
        r@.endpoints == localities_model(hosts.deep_view()),
{
    let endpoints = hosts_to_locality_lb_endpoints(hosts);
    ClusterLoadAssignment {
        type_url: EDS_TYPE_URL.to_owned(),
        cluster_name: name.to_owned(),
        endpoints,
    }
}

/// Builds one assignment per requested service from the store's live
/// registrations: each assignment's endpoints are the locality
/// partition of exactly what the store answered for its name. A store
/// fault on any one service aborts the whole batch, surfacing that
/// query's own error.
pub fn build_eds_resources<S: Storage>(s: &S, names: &Vec<String>) -> (r: Result<
    Vec<ClusterLoadAssignment>,
    StoreError,
>)
    requires
        s.wf(),
    ensures
        r matches Ok(res) ==> res@.len() == names@.len() && forall|i: int|
            0 <= i < res@.len() ==> assignment_answers(s, #[trigger] res@[i], names@[i]@),
        r matches Err(e) ==> exists|ns: &str|
            #[trigger] call_ensures(
                <S as Storage>::query_items,
                (s, ns),
                Err::<Vec<Host>, StoreError>(e),
            ) && exists|i: int| 0 <= i < names@.len() && ns@ == names@[i]@,
{
    let mut res: Vec<ClusterLoadAssignment> = Vec::new();
    let mut i: usize = 0;
    while i < names.len()
        invariant
            0 <= i <= names@.len(),
            s.wf(),
            res@.len() == i,
            forall|k: int| 0 <= k < i ==> assignment_answers(s, #[trigger] res@[k], names@[k]@),
        decreases names@.len() - i,
    {
        let name = &names[i];
        let ns = name.as_str();
        let q = s.query_items(ns);
        let ghost qv = q;
        proof {
            assert(call_ensures(<S as Storage>::query_items, (s, ns), qv));
        }
        let hosts = match q {
            Ok(v) => v,
            Err(e) => {
                proof {
                    assert(ns@ == names@[i as int]@);
                }
                return Err(e);
            },
        };
        let ghost hostsv = hosts;
        let a = assignment_for(ns, hosts);
        proof {
            assert(call_ensures(
                <S as Storage>::query_items,
                (s, ns),
                Ok::<Vec<Host>, StoreError>(hostsv),
            ));
            assert(assignment_answers(s, a, names@[i as int]@));
        }
        res.push(a);
        i += 1;
    }
    Ok(res)
}

/// Relies on `uuid::Uuid::new_v4` and its hyphenated `Display` form: a
/// fresh random version identifier, always 36 characters long. The
/// value is random, so nothing more is promised of it.
#[verifier::external_body]
fn fresh_version_id() -> (r: String)
    ensures
        r@.len() == 36,
{
    uuid::Uuid::new_v4().to_string()
}

/// Builds the whole discovery response for a batch of requested
/// services: one assignment per name, each from its own query's
/// answer, wrapped with a freshly generated version identifier. A
/// store fault on any name aborts the batch with that query's error.
pub fn discovery_response<S: Storage>(s: &S, names: &Vec<String>) -> (r: Result<
    EdsDiscoveryResponse,
    StoreError,
>)
    requires
        s.wf(),
    ensures
        r matches Ok(res) ==> {
            &&& res.version_info@.len() == 36
            &&& res.resources@.len() == names@.len()
            &&& forall|i: int|
                0 <= i < res.resources@.len() ==> assignment_answers(
                    s,
                    #[trigger] res.resources@[i],
                    names@[i]@,
                )
        },
        r matches Err(e) ==> exists|ns: &str|
            #[trigger] call_ensures(
                <S as Storage>::query_items,
                (s, ns),
                Err::<Vec<Host>, StoreError>(e),
            ) && exists|i: int| 0 <= i < names@.len() && ns@ == names@[i]@,
{
    let resources = match build_eds_resources(s, names) {
        Ok(v) => v,
        Err(e) => {
            return Err(e);
        },
    };
    Ok(EdsDiscoveryResponse { version_info: fresh_version_id(), resources })
}

} // verus!
