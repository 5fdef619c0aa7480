//! The registration store: a keyed collection of [`Host`] records with
//! TTL semantics. `StoreState` is the sequential heart of the store; its
//! mathematical model is a sequence of host records with pairwise
//! distinct `(service, ip_address, port)` identity keys.

use std::sync::Arc;
use vstd::prelude::*;
use vstd::rwlock::RwLock;
use vstd::rwlock::RwLockPredicate;

use crate::clock::unix_now;
use crate::text::str_eq;
use crate::types::Host;
use crate::types::SpecHost;
use crate::types::StoreError;

verus! {

/// Whether `h` carries the identity key `(service, ip, port)`.
pub open spec fn key_matches(h: SpecHost, service: Seq<char>, ip: Seq<char>, port: u16) -> bool {
    h.service == service && h.ip_address == ip && h.port == port
}

/// Whether two records share one identity key.
pub open spec fn same_key(a: SpecHost, b: SpecHost) -> bool {
    a.service == b.service && a.ip_address == b.ip_address && a.port == b.port
}

/// Whether some record in `s` carries the key `(service, ip, port)`.
pub open spec fn has_key(s: Seq<SpecHost>, service: Seq<char>, ip: Seq<char>, port: u16) -> bool {
    exists|i: int| 0 <= i < s.len() && key_matches(#[trigger] s[i], service, ip, port)
}

/// The index of the record carrying `(service, ip, port)`; meaningful
/// only when `has_key` holds and keys are unique.
pub open spec fn key_index(s: Seq<SpecHost>, service: Seq<char>, ip: Seq<char>, port: u16) -> int {
    choose|i: int| 0 <= i < s.len() && key_matches(#[trigger] s[i], service, ip, port)
}

/// Identity keys are pairwise distinct.
pub open spec fn unique_keys(s: Seq<SpecHost>) -> bool {
    forall|i: int, j: int|
        0 <= i < s.len() && 0 <= j < s.len() && i != j ==> !same_key(
            #[trigger] s[i],
            #[trigger] s[j],
        )
}

/// The record carrying `(service, ip, port)` in `s`, if any.
pub open spec fn lookup(s: Seq<SpecHost>, service: Seq<char>, ip: Seq<char>, port: u16) -> Option<
    SpecHost,
> {
    if has_key(s, service, ip, port) {
        Some(s[key_index(s, service, ip, port)])
    } else {
        None
    }
}

/// The record as an upsert writes it: the service name comes from the
/// store call, the expiry deadline is refreshed, every other attribute
/// is taken from the caller's host.
pub open spec fn refreshed_host(h: SpecHost, service: Seq<char>, expire: u64) -> SpecHost {
    SpecHost { service: service, expire_time: expire, ..h }
}

/// One upsert: a record with the same identity is overwritten in place;
/// otherwise the new record is appended.
pub open spec fn store_model(s: Seq<SpecHost>, service: Seq<char>, h: SpecHost, expire: u64) -> Seq<
    SpecHost,
> {
    let nh = refreshed_host(h, service, expire);
    if has_key(s, service, h.ip_address, h.port) {
        s.update(key_index(s, service, h.ip_address, h.port), nh)
    } else {
        s.push(nh)
    }
}

/// One deletion: the record with the given identity leaves the
/// sequence, whatever its expiry state; everything else keeps its
/// place.
pub open spec fn delete_model(s: Seq<SpecHost>, service: Seq<char>, ip: Seq<char>, port: u16) -> Seq<
    SpecHost,
> {
    if has_key(s, service, ip, port) {
        s.remove(key_index(s, service, ip, port))
    } else {
        s
    }
}

/// Whether a record is still live at wall-clock second `now`.
pub open spec fn live_at(h: SpecHost, now: u64) -> bool {
    h.expire_time > now
}

/// What a read at time `now` returns: the live records of `service`, in
/// store order.
pub open spec fn query_model(s: Seq<SpecHost>, service: Seq<char>, now: u64) -> Seq<SpecHost> {
    s.filter(|h: SpecHost| h.service == service && live_at(h, now))
}

/// The sequential state of the in-memory store: the records and the
/// store-wide TTL (in seconds) fixed at construction.
pub struct StoreState {
    pub hosts: Vec<Host>,
    pub ttl: u64,
}

impl StoreState {
    /// The mathematical contents of the store.
    pub open spec fn model(&self) -> Seq<SpecHost> {
        self.hosts.deep_view()
    }

    /// Internal invariant: identity keys are unique.
    pub open spec fn wf(&self) -> bool {
        unique_keys(self.model())
    }

    pub fn new(ttl: u64) -> (s: StoreState)
        ensures
            s.wf(),
            s.model() == Seq::<SpecHost>::empty(),
            s.ttl == ttl,
    {
        let s = StoreState { hosts: Vec::new(), ttl };
        proof {
            assert(s.model() =~= Seq::<SpecHost>::empty());
        }
        s
    }

    /// Finds the position of the record with the given identity key.
    fn find_key(&self, service: &str, ip: &str, port: u16) -> (r: Option<usize>)
        ensures
            match r {
                Some(i) => 0 <= i < self.model().len() && key_matches(
                    self.model()[i as int],
                    service@,
                    ip@,
                    port,
                ),
                None => !has_key(self.model(), service@, ip@, port),
            },
    {
        let ghost m = self.model();
        let mut i: usize = 0;
        while i < self.hosts.len()
            invariant
                0 <= i <= self.hosts.len(),
                m == self.model(),
                m.len() == self.hosts.len(),
                forall|j: int| 0 <= j < i ==> !key_matches(#[trigger] m[j], service@, ip@, port),
            decreases self.hosts.len() - i,
        {
            let h = &self.hosts[i];
            proof {
                assert(m[i as int] == h@);
            }
            if h.port == port && str_eq(h.service.as_str(), service) && str_eq(
                h.ip_address.as_str(),
                ip,
            ) {
                return Some(i);
            }
            i += 1;
        }
        None
    }
    /// Upserts `host` under `service` with the expiry deadline
    /// `now + ttl`. Any TTL-like value the caller put in
    /// `host.expire_time` is ignored.
    pub fn store_at(&mut self, service: &str, host: Host, now: u64)
        requires
            old(self).wf(),
            now + old(self).ttl <= u64::MAX,
        ensures
            final(self).wf(),
            final(self).ttl == old(self).ttl,
            final(self).model() == store_model(
                old(self).model(),
                service@,
                host@,
                (now + old(self).ttl) as u64,
            ),
    {
        let ghost m = self.model();
        let expire: u64 = now + self.ttl;
        let found = self.find_key(service, host.ip_address.as_str(), host.port);
        let nh = Host {
            ip_address: host.ip_address,
            port: host.port,
            last_check_in: host.last_check_in,
            expire_time: expire,
            revision: host.revision,
            service: service.to_owned(),
            tags: host.tags,
        };
        proof {
            assert(nh@ == refreshed_host(host@, service@, expire));
        }
        match found {
            Some(i) => {
                proof {
                    lemma_key_index_is(m, service@, host@.ip_address, host@.port, i as int);
                }
                self.hosts.remove(i);
                self.hosts.insert(i, nh);
                proof {
                    assert(self.model() =~= m.update(i as int, refreshed_host(host@, service@, expire)));
                    lemma_update_same_key_unique(m, i as int, refreshed_host(host@, service@, expire));
                }
            },
            None => {
                self.hosts.push(nh);
                proof {
                    assert(self.model() =~= m.push(refreshed_host(host@, service@, expire)));
                    lemma_push_new_key_unique(m, refreshed_host(host@, service@, expire));
                }
            },
        }
    }

    /// Returns copies of the live records of `service` at time `now`,
    /// in store order.
    pub fn query_at(&self, service: &str, now: u64) -> (r: Vec<Host>)
        requires
            self.wf(),
        ensures
            r.deep_view() == query_model(self.model(), service@, now),
    {
        let ghost m = self.model();
        let ghost p = |h: SpecHost| h.service == service@ && live_at(h, now);
        let mut out: Vec<Host> = Vec::new();
        let mut i: usize = 0;
        while i < self.hosts.len()
            invariant
                0 <= i <= self.hosts@.len(),
                m == self.model(),
                m.len() == self.hosts@.len(),
                p == (|h: SpecHost| h.service == service@ && live_at(h, now)),
                out@.len() == m.take(i as int).filter(p).len(),
                out.deep_view() =~= m.take(i as int).filter(p),
            decreases self.hosts@.len() - i,
        {
            let h = &self.hosts[i];
            proof {
                reveal(Seq::<SpecHost>::filter);
                assert(m[i as int] == h@);
                assert(m.take(i + 1).drop_last() =~= m.take(i as int));
                assert(m.take(i + 1).last() == m[i as int]);
            }
            let ghost pre = out.deep_view();
            let ghost prev = out@;
            if now < h.expire_time && str_eq(h.service.as_str(), service) {
                let e = h.duplicate();
                out.push(e);
                proof {
                    reveal(Seq::<SpecHost>::filter);
                    assert(p(m[i as int]));
                    assert(m.take(i + 1).filter(p) == m.take(i as int).filter(p).push(m[i as int]));
                    assert forall|j: int| 0 <= j < out.deep_view().len() implies out.deep_view()[j]
                        == m.take(i + 1).filter(p)[j] by {
                        assert(out.deep_view()[j] == out@[j]@);
                        if j < prev.len() {
                            assert(out@[j] == prev[j]);
                            assert(pre[j] == prev[j]@);
                        } else {
                            assert(out@[j] == e);
                        }
                    }
                    assert(out.deep_view() =~= m.take(i + 1).filter(p));
                }
            } else {
                proof {
                    reveal(Seq::<SpecHost>::filter);
                    assert(!p(m[i as int]));
                    assert(m.take(i + 1).filter(p) == m.take(i as int).filter(p));
                }
            }
            i += 1;
        }
        proof {
            assert(m.take(m.len() as int) =~= m);
        }
        out
    }

    /// Removes the record with identity `(service, ip, port)`, whatever
    /// its expiry state, and hands it back; `None` when no such record
    /// exists.
    pub fn delete_at(&mut self, service: &str, ip: &str, port: u16) -> (r: Option<Host>)
        requires
            old(self).wf(),
        ensures
            final(self).wf(),
            final(self).ttl == old(self).ttl,
            final(self).model() == delete_model(old(self).model(), service@, ip@, port),
            match r {
                Some(h) => has_key(old(self).model(), service@, ip@, port) && Some(h@) == lookup(
                    old(self).model(),
                    service@,
                    ip@,
                    port,
                ),
                None => !has_key(old(self).model(), service@, ip@, port),
            },
    {
        let ghost m = self.model();
        match self.find_key(service, ip, port) {
            Some(i) => {
                proof {
                    lemma_key_index_is(m, service@, ip@, port, i as int);
                }
                let h = self.hosts.remove(i);
                proof {
                    assert(self.model() =~= m.remove(i as int));
                    lemma_remove_unique(m, i as int);
                }
                Some(h)
            },
            None => None,
        }
    }

    /// The store-wide TTL, fixed at construction.
    pub fn ttl(&self) -> (t: u64)
        ensures
            t == self.ttl,
    {
        self.ttl
    }
}

/// Updating a record with one that keeps its identity key preserves
/// key uniqueness.
proof fn lemma_update_same_key_unique(s: Seq<SpecHost>, i: int, nh: SpecHost)
    requires
        unique_keys(s),
        0 <= i < s.len(),
        same_key(nh, s[i]),
    ensures
        unique_keys(s.update(i, nh)),
{
    let t = s.update(i, nh);
    assert forall|x: int, y: int|
        0 <= x < t.len() && 0 <= y < t.len() && x != y implies !same_key(
        #[trigger] t[x],
        #[trigger] t[y],
    ) by {
        assert(!same_key(s[x], s[y]));
    }
}

/// Appending a record whose key is absent preserves key uniqueness.
proof fn lemma_push_new_key_unique(s: Seq<SpecHost>, nh: SpecHost)
    requires
        unique_keys(s),
        !has_key(s, nh.service, nh.ip_address, nh.port),
    ensures
        unique_keys(s.push(nh)),
{
    let t = s.push(nh);
    assert forall|x: int, y: int|
        0 <= x < t.len() && 0 <= y < t.len() && x != y implies !same_key(
        #[trigger] t[x],
        #[trigger] t[y],
    ) by {
        if x < s.len() && y < s.len() {
            assert(!same_key(s[x], s[y]));
        } else if x < s.len() {
            assert(t[y] == nh);
            if same_key(t[x], t[y]) {
                assert(key_matches(s[x], nh.service, nh.ip_address, nh.port));
            }
        } else {
            assert(t[x] == nh);
            if same_key(t[x], t[y]) {
                assert(key_matches(s[y], nh.service, nh.ip_address, nh.port));
            }
        }
    }
}

/// Removing a record preserves key uniqueness.
proof fn lemma_remove_unique(s: Seq<SpecHost>, i: int)
    requires
        unique_keys(s),
        0 <= i < s.len(),
    ensures
        unique_keys(s.remove(i)),
{
    let t = s.remove(i);
    assert forall|x: int, y: int|
        0 <= x < t.len() && 0 <= y < t.len() && x != y implies !same_key(
        #[trigger] t[x],
        #[trigger] t[y],
    ) by {
        let sx = if x < i {
            x
        } else {
            x + 1
        };
        let sy = if y < i {
            y
        } else {
            y + 1
        };
        assert(t[x] == s[sx]);
        assert(t[y] == s[sy]);
        assert(!same_key(s[sx], s[sy]));
    }
}

/// Pins the chosen `key_index` to a known matching position: with
/// unique keys there is only one.
pub proof fn lemma_key_index_is(
    s: Seq<SpecHost>,
    service: Seq<char>,
    ip: Seq<char>,
    port: u16,
    i: int,
)
    requires
        unique_keys(s),
        0 <= i < s.len(),
        key_matches(s[i], service, ip, port),
    ensures
        has_key(s, service, ip, port),
        key_index(s, service, ip, port) == i,
{
    assert(has_key(s, service, ip, port));
    let j = key_index(s, service, ip, port);
    assert(0 <= j < s.len() && key_matches(s[j], service, ip, port));
    if j != i {
        assert(same_key(s[i], s[j]));
    }
}

/// Upserting preserves key uniqueness.
pub proof fn lemma_store_model_unique(s: Seq<SpecHost>, service: Seq<char>, h: SpecHost, expire: u64)
    requires
        unique_keys(s),
    ensures
        unique_keys(store_model(s, service, h, expire)),
{
    let nh = refreshed_host(h, service, expire);
    if has_key(s, service, h.ip_address, h.port) {
        let i = key_index(s, service, h.ip_address, h.port);
        assert(0 <= i < s.len() && key_matches(s[i], service, h.ip_address, h.port));
        lemma_update_same_key_unique(s, i, nh);
    } else {
        lemma_push_new_key_unique(s, nh);
    }
}

/// After an upsert, the stored identity is present and carries exactly
/// the refreshed record.
pub proof fn lemma_store_hits(s: Seq<SpecHost>, service: Seq<char>, h: SpecHost, expire: u64)
    requires
        unique_keys(s),
    ensures
        has_key(store_model(s, service, h, expire), service, h.ip_address, h.port),
        lookup(store_model(s, service, h, expire), service, h.ip_address, h.port) == Some(
            refreshed_host(h, service, expire),
        ),
{
    let nh = refreshed_host(h, service, expire);
    let t = store_model(s, service, h, expire);
    if has_key(s, service, h.ip_address, h.port) {
        let i = key_index(s, service, h.ip_address, h.port);
        assert(0 <= i < s.len() && key_matches(s[i], service, h.ip_address, h.port));
        lemma_update_same_key_unique(s, i, nh);
        assert(t[i] == nh);
        lemma_key_index_is(t, service, h.ip_address, h.port, i);
    } else {
        lemma_push_new_key_unique(s, nh);
        assert(t[s.len() as int] == nh);
        lemma_key_index_is(t, service, h.ip_address, h.port, s.len() as int);
    }
}

/// An upsert touches no other identity: for every different key, the
/// stored record (or its absence) is exactly what it was before.
pub proof fn lemma_store_frame(
    s: Seq<SpecHost>,
    service: Seq<char>,
    h: SpecHost,
    expire: u64,
    svc2: Seq<char>,
    ip2: Seq<char>,
    port2: u16,
)
    requires
        unique_keys(s),
        !(svc2 == service && ip2 == h.ip_address && port2 == h.port),
    ensures
        lookup(store_model(s, service, h, expire), svc2, ip2, port2) == lookup(s, svc2, ip2, port2),
{
    let nh = refreshed_host(h, service, expire);
    let t = store_model(s, service, h, expire);
    lemma_store_model_unique(s, service, h, expire);
    assert(!key_matches(nh, svc2, ip2, port2));
    if has_key(s, service, h.ip_address, h.port) {
        let i = key_index(s, service, h.ip_address, h.port);
        assert(0 <= i < s.len() && key_matches(s[i], service, h.ip_address, h.port));
        if has_key(s, svc2, ip2, port2) {
            let j = key_index(s, svc2, ip2, port2);
            assert(0 <= j < s.len() && key_matches(s[j], svc2, ip2, port2));
            assert(j != i);
            assert(t[j] == s[j]);
            lemma_key_index_is(t, svc2, ip2, port2, j);
            lemma_key_index_is(s, svc2, ip2, port2, j);
        } else {
            if has_key(t, svc2, ip2, port2) {
                let k = key_index(t, svc2, ip2, port2);
                assert(0 <= k < t.len() && key_matches(t[k], svc2, ip2, port2));
                assert(k != i);
                assert(t[k] == s[k]);
                assert(false);
            }
        }
    } else {
        if has_key(s, svc2, ip2, port2) {
            let j = key_index(s, svc2, ip2, port2);
            assert(0 <= j < s.len() && key_matches(s[j], svc2, ip2, port2));
            assert(t[j] == s[j]);
            lemma_key_index_is(t, svc2, ip2, port2, j);
            lemma_key_index_is(s, svc2, ip2, port2, j);
        } else {
            if has_key(t, svc2, ip2, port2) {
                let k = key_index(t, svc2, ip2, port2);
                assert(0 <= k < t.len() && key_matches(t[k], svc2, ip2, port2));
                if k < s.len() {
                    assert(t[k] == s[k]);
                    assert(false);
                } else {
                    assert(t[k] == nh);
                    assert(false);
                }
            }
        }
    }
}

/// Law (idempotence): storing the same identity again leaves one
/// record for it — the repeated upsert collapses into the latest one —
/// and each upsert leaves the record carrying the freshly computed
/// deadline.
pub proof fn lemma_store_idempotent(
    s: Seq<SpecHost>,
    service: Seq<char>,
    h: SpecHost,
    e1: u64,
    e2: u64,
)
    requires
        unique_keys(s),
    ensures
        store_model(store_model(s, service, h, e1), service, h, e2) == store_model(
            s,
            service,
            h,
            e2,
        ),
        lookup(store_model(s, service, h, e1), service, h.ip_address, h.port) == Some(
            refreshed_host(h, service, e1),
        ),
{
    let nh1 = refreshed_host(h, service, e1);
    let nh2 = refreshed_host(h, service, e2);
    let t1 = store_model(s, service, h, e1);
    lemma_store_hits(s, service, h, e1);
    lemma_store_model_unique(s, service, h, e1);
    if has_key(s, service, h.ip_address, h.port) {
        let i = key_index(s, service, h.ip_address, h.port);
        assert(0 <= i < s.len() && key_matches(s[i], service, h.ip_address, h.port));
        assert(t1 == s.update(i, nh1));
        assert(t1[i] == nh1);
        lemma_key_index_is(t1, service, h.ip_address, h.port, i);
        assert(store_model(t1, service, h, e2) == t1.update(i, nh2));
        assert(t1.update(i, nh2) =~= s.update(i, nh2));
    } else {
        assert(t1 == s.push(nh1));
        assert(t1[s.len() as int] == nh1);
        lemma_key_index_is(t1, service, h.ip_address, h.port, s.len() as int);
        assert(store_model(t1, service, h, e2) == t1.update(s.len() as int, nh2));
        assert(t1.update(s.len() as int, nh2) =~= s.push(nh2));
    }
}

/// A member of a filtered host sequence is a member of the original.
pub proof fn lemma_filter_subset(s: Seq<SpecHost>, p: spec_fn(SpecHost) -> bool, x: SpecHost)
    requires
        s.filter(p).contains(x),
    ensures
        s.contains(x),
    decreases s.len(),
{
    reveal(Seq::<SpecHost>::filter);
    if s.len() > 0 {
        let sub = s.drop_last().filter(p);
        if p(s.last()) {
            if x == s.last() {
                assert(s[s.len() - 1] == x);
            } else {
                assert(sub.contains(x));
                lemma_filter_subset(s.drop_last(), p, x);
                let j = choose|j: int| 0 <= j < s.drop_last().len() && s.drop_last()[j] == x;
                assert(s[j] == x);
            }
        } else {
            lemma_filter_subset(s.drop_last(), p, x);
            let j = choose|j: int| 0 <= j < s.drop_last().len() && s.drop_last()[j] == x;
            assert(s[j] == x);
        }
    }
}

/// Law (expiry): a read at time `now` returns a record of `service`
/// exactly when its deadline has not passed — every live record of the
/// service is in the result, and everything in the result is a live
/// record of the service from the store.
pub proof fn lemma_query_iff(s: Seq<SpecHost>, service: Seq<char>, now: u64)
    ensures
        forall|i: int|
            0 <= i < s.len() && s[i].service == service ==> (query_model(
                s,
                service,
                now,
            ).contains(#[trigger] s[i]) <==> live_at(s[i], now)),
        forall|h: SpecHost|
            query_model(s, service, now).contains(h) ==> s.contains(h) && h.service == service
                && live_at(h, now),
{
    let p = |h: SpecHost| h.service == service && live_at(h, now);
    let q = query_model(s, service, now);
    assert forall|i: int|
        0 <= i < s.len() && s[i].service == service implies (q.contains(#[trigger] s[i]) <==> live_at(
        s[i],
        now,
    )) by {
        if live_at(s[i], now) {
            s.lemma_filter_contains(p, i);
        }
        if q.contains(s[i]) {
            let j = choose|j: int| 0 <= j < q.len() && q[j] == s[i];
            s.lemma_filter_pred(p, j);
        }
    }
    assert forall|h: SpecHost| q.contains(h) implies s.contains(h) && h.service == service
        && live_at(h, now) by {
        let j = choose|j: int| 0 <= j < q.len() && q[j] == h;
        s.lemma_filter_pred(p, j);
        lemma_filter_subset(s, p, h);
    }
}

/// Law (delete once): after a deletion of an identity, that identity
/// is gone — an immediately repeated deletion finds nothing.
pub proof fn lemma_delete_once(s: Seq<SpecHost>, service: Seq<char>, ip: Seq<char>, port: u16)
    requires
        unique_keys(s),
    ensures
        !has_key(delete_model(s, service, ip, port), service, ip, port),
{
    if has_key(s, service, ip, port) {
        let i = key_index(s, service, ip, port);
        assert(0 <= i < s.len() && key_matches(s[i], service, ip, port));
        let t = s.remove(i);
        if has_key(t, service, ip, port) {
            let k = key_index(t, service, ip, port);
            assert(0 <= k < t.len() && key_matches(t[k], service, ip, port));
            let sk = if k < i {
                k
            } else {
                k + 1
            };
            assert(t[k] == s[sk]);
            assert(same_key(s[i], s[sk]));
            assert(false);
        }
    } else {
        assert(delete_model(s, service, ip, port) == s);
    }
}

/// Law (round trip): a record stored with deadline `e` comes back from
/// a read of its service at any time before `e`.
pub proof fn lemma_store_then_query(
    s: Seq<SpecHost>,
    service: Seq<char>,
    h: SpecHost,
    e: u64,
    now: u64,
)
    requires
        unique_keys(s),
        now < e,
    ensures
        query_model(store_model(s, service, h, e), service, now).contains(
            refreshed_host(h, service, e),
        ),
{
    let t = store_model(s, service, h, e);
    let nh = refreshed_host(h, service, e);
    lemma_store_hits(s, service, h, e);
    let ki = key_index(t, service, h.ip_address, h.port);
    assert(0 <= ki < t.len() && key_matches(t[ki], service, h.ip_address, h.port));
    assert(t[ki] == nh);
    let p = |x: SpecHost| x.service == service && live_at(x, now);
    t.lemma_filter_contains(p, ki);
}

/// A batch of registrations, each `(service, host, deadline)`.
pub type StoreBatch = Seq<(Seq<char>, SpecHost, u64)>;

/// The state after upserting a whole batch, in order.
pub open spec fn store_all(s: Seq<SpecHost>, entries: StoreBatch) -> Seq<SpecHost>
    decreases entries.len(),
{
    if entries.len() == 0 {
        s
    } else {
        store_model(
            store_all(s, entries.drop_last()),
            entries.last().0,
            entries.last().1,
            entries.last().2,
        )
    }
}

/// Whether the batch entries carry pairwise distinct identity keys.
pub open spec fn distinct_entries(entries: StoreBatch) -> bool {
    forall|k: int, l: int|
        0 <= k < entries.len() && 0 <= l < entries.len() && k != l ==> !((#[trigger] entries[k]).0
            == (#[trigger] entries[l]).0 && entries[k].1.ip_address == entries[l].1.ip_address
            && entries[k].1.port == entries[l].1.port)
}

/// Law (no lost registrations): storing any number of distinct
/// identities, in whatever order they arrive, loses none of them —
/// afterwards every one of them is present, carrying exactly its own
/// refreshed record.
pub proof fn lemma_store_all_complete(s: Seq<SpecHost>, entries: StoreBatch)
    requires
        unique_keys(s),
        distinct_entries(entries),
    ensures
        unique_keys(store_all(s, entries)),
        forall|k: int|
            0 <= k < entries.len() ==> lookup(
                store_all(s, entries),
                (#[trigger] entries[k]).0,
                entries[k].1.ip_address,
                entries[k].1.port,
            ) == Some(refreshed_host(entries[k].1, entries[k].0, entries[k].2)),
    decreases entries.len(),
{
    if entries.len() > 0 {
        let dl = entries.drop_last();
        let last = entries.last();
        assert(distinct_entries(dl)) by {
            assert forall|k: int, l: int|
                0 <= k < dl.len() && 0 <= l < dl.len() && k != l implies !((#[trigger] dl[k]).0
                == (#[trigger] dl[l]).0 && dl[k].1.ip_address == dl[l].1.ip_address
                && dl[k].1.port == dl[l].1.port) by {
                assert(dl[k] == entries[k]);
                assert(dl[l] == entries[l]);
            }
        }
        lemma_store_all_complete(s, dl);
        let base = store_all(s, dl);
        lemma_store_model_unique(base, last.0, last.1, last.2);
        lemma_store_hits(base, last.0, last.1, last.2);
        assert forall|k: int| 0 <= k < entries.len() implies lookup(
            store_all(s, entries),
            (#[trigger] entries[k]).0,
            entries[k].1.ip_address,
            entries[k].1.port,
        ) == Some(refreshed_host(entries[k].1, entries[k].0, entries[k].2)) by {
            if k == entries.len() - 1 {
                assert(entries[k] == last);
            } else {
                assert(dl[k] == entries[k]);
                lemma_store_frame(
                    base,
                    last.0,
                    last.1,
                    last.2,
                    entries[k].0,
                    entries[k].1.ip_address,
                    entries[k].1.port,
                );
            }
        }
    }
}

/// The capability interface of a registration store, over which
/// concrete backings are polymorphic.
pub trait Storage: Sized + Clone {
    /// Whether this handle is usable.
    spec fn wf(&self) -> bool;

    /// The store-wide TTL of this handle, in seconds.
    spec fn spec_ttl(&self) -> u64;

    /// Upserts `host` under `service`, refreshing its expiry deadline
    /// to now plus the store-wide TTL.
    fn store_item(&self, service: &str, host: Host) -> (r: Result<(), StoreError>)
        requires
            self.wf(),
    ;

    /// Returns the not-yet-expired hosts of `service`.
    fn query_items(&self, service: &str) -> (r: Result<Vec<Host>, StoreError>)
        requires
            self.wf(),
        ensures
            r matches Ok(hosts) ==> forall|i: int|
                0 <= i < hosts@.len() ==> (#[trigger] hosts@[i])@.service == service@,
    ;

    /// Removes the record with identity `(service, ip, port)`, expired
    /// or not, and returns it; `None` when absent. A returned record
    /// carries exactly the requested identity.
    fn delete_item(&self, service: &str, ip: String, port: u16) -> (r: Result<
        Option<Host>,
        StoreError,
    >)
        requires
            self.wf(),
        ensures
            r matches Ok(Some(h)) ==> h@.service == service@ && h@.ip_address == ip@ && h@.port
                == port,
    ;

    /// The store-wide TTL in seconds, fixed at construction.
    fn ttl(&self) -> (t: u64)
        requires
            self.wf(),
        ensures
            t == self.spec_ttl(),
    ;
}

/// The lock invariant of the shared in-memory store: the guarded state
/// is well formed and carries the TTL the store was built with.
pub struct StorePred {
    pub ttl: u64,
}

impl RwLockPredicate<StoreState> for StorePred {
    open spec fn inv(self, s: StoreState) -> bool {
        s.wf() && s.ttl == self.ttl
    }
}

/// The in-memory store: one [`StoreState`] behind a readers-writer
/// lock. Cloning the handle shares the same state; each operation is
/// one atomic critical section on that state.
pub struct MemoryStorage {
    ttl: u64,
    lock: Arc<RwLock<StoreState, StorePred>>,
}

impl MemoryStorage {
    /// The handle's invariant: the lock guards states with this TTL.
    pub closed spec fn inv(&self) -> bool {
        self.lock.pred() == (StorePred { ttl: self.ttl })
    }

    pub fn new(ttl: u64) -> (s: MemoryStorage)
        ensures
            s.inv(),
            s.spec_ttl() == ttl,
    {
        let state = StoreState::new(ttl);
        let lock = RwLock::new(state, Ghost(StorePred { ttl }));
        MemoryStorage { ttl, lock: Arc::new(lock) }
    }
}

impl Clone for MemoryStorage {
    /// A second handle to the same shared state.
    fn clone(&self) -> (r: MemoryStorage)
        ensures
            r == *self,
    {
        MemoryStorage { ttl: self.ttl, lock: self.lock.clone() }
    }
}

impl Storage for MemoryStorage {
    open spec fn wf(&self) -> bool {
        self.inv()
    }

    closed spec fn spec_ttl(&self) -> u64 {
        self.ttl
    }

    /// Obtains the current time, then performs one atomic upsert with
    /// deadline now plus TTL. Fails only when the clock cannot be read
    /// or its value leaves no room for the TTL; the backing memory
    /// itself cannot fault.
    fn store_item(&self, service: &str, host: Host) -> (r: Result<(), StoreError>)
        ensures
            r matches Err(e) ==> e is TimeSource,
    {
        let now = match unix_now() {
            Ok(t) => t,
            Err(e) => {
                return Err(e);
            },
        };
        let (mut state, handle) = self.lock.acquire_write();
        if now > u64::MAX - state.ttl {
            handle.release_write(state);
            return Err(
                StoreError::TimeSource {
                    reason: "system time leaves no room for the configured TTL".to_owned(),
                },
            );
        }
        state.store_at(service, host, now);
        handle.release_write(state);
        Ok(())
    }

    /// One atomic expiry-filtered read at the current time. Every
    /// returned host belongs to `service`; the result is the live
    /// part of some well-formed store contents at one instant. Fails
    /// only when the clock cannot be read: the backing memory itself
    /// cannot fault.
    fn query_items(&self, service: &str) -> (r: Result<Vec<Host>, StoreError>)
        ensures
            r matches Ok(hosts) ==> exists|s: Seq<SpecHost>, now: u64|
                unique_keys(s) && hosts.deep_view() == query_model(s, service@, now),
            r matches Err(e) ==> e is TimeSource,
    {
        let now = match unix_now() {
            Ok(t) => t,
            Err(e) => {
                return Err(e);
            },
        };
        let read_handle = self.lock.acquire_read();
        let state = read_handle.borrow();
        let hosts = state.query_at(service, now);
        proof {
            let m = state.model();
            let p = |h: SpecHost| h.service == service@ && live_at(h, now);
            assert forall|i: int| 0 <= i < hosts@.len() implies (#[trigger] hosts@[i])@.service
                == service@ by {
                m.lemma_filter_pred(p, i);
                assert(hosts.deep_view()[i] == hosts@[i]@);
            }
            assert(unique_keys(m) && hosts.deep_view() == query_model(m, service@, now));
        }
        read_handle.release_read();
        Ok(hosts)
    }

    /// One atomic removal by identity, expired or not. It never fails:
    /// the backing memory cannot fault and no clock is needed. A
    /// returned record carries exactly the requested identity.
    fn delete_item(&self, service: &str, ip: String, port: u16) -> (r: Result<
        Option<Host>,
        StoreError,
    >)
        ensures
            r is Ok,
            r matches Ok(Some(h)) ==> h@.service == service@ && h@.ip_address == ip@ && h@.port
                == port,
    {
        let (mut state, handle) = self.lock.acquire_write();
        let removed = state.delete_at(service, ip.as_str(), port);
        handle.release_write(state);
        Ok(removed)
    }

    fn ttl(&self) -> (t: u64)
        ensures
            t == self.spec_ttl(),
    {
        self.ttl
    }
}

} // verus!
