//! Registries of connected clients: the coordinator's hub of agents (per
//! tenant, for live network-map fanout) and the relay's table of clients by
//! public key. Each holds an outbound queue per client; a later registration
//! under the same key replaces the earlier one.

use vstd::prelude::*;
use crate::proto::NetworkMap;
use crate::relay::{encode_frame, frame_bytes};
use crate::jwt::{count_char, jwt_signature_ok, signature_valid};
use crate::text::str_eq;

verus! {

/// An outbound queue of messages to one connected client.
pub trait Outbox<M> {
    /// Queue `msg`; false when the client is gone.
    fn deliver(&self, msg: M) -> bool;
}

/// The queue registered for `(tenant, device)`: the last registration.
pub open spec fn hub_lookup<T>(entries: Seq<(u128, u128, T)>, tenant: u128, device: u128) -> Option<T>
    decreases entries.len(),
{
    if entries.len() == 0 {
        None
    } else if entries.last().0 == tenant && entries.last().1 == device {
        Some(entries.last().2)
    } else {
        hub_lookup(entries.drop_last(), tenant, device)
    }
}

/// The entries without those for `(tenant, device)`, in order.
pub open spec fn hub_without<T>(entries: Seq<(u128, u128, T)>, tenant: u128, device: u128) -> Seq<(u128, u128, T)>
    decreases entries.len(),
{
    if entries.len() == 0 {
        seq![]
    } else {
        let prev = hub_without(entries.drop_last(), tenant, device);
        if entries.last().0 == tenant && entries.last().1 == device {
            prev
        } else {
            prev.push(entries.last())
        }
    }
}

/// The devices of `tenant` with a registration, in registration order.
pub open spec fn hub_devices<T>(entries: Seq<(u128, u128, T)>, tenant: u128) -> Seq<u128>
    decreases entries.len(),
{
    if entries.len() == 0 {
        seq![]
    } else {
        let prev = hub_devices(entries.drop_last(), tenant);
        if entries.last().0 == tenant {
            prev.push(entries.last().1)
        } else {
            prev
        }
    }
}

proof fn lemma_hub_without<T>(entries: Seq<(u128, u128, T)>, tenant: u128, device: u128, t: u128, d: u128)
    ensures
        hub_lookup(hub_without(entries, tenant, device), t, d) == if t == tenant && d == device {
            None
        } else {
            hub_lookup(entries, t, d)
        },
    decreases entries.len(),
{
    if entries.len() > 0 {
        lemma_hub_without(entries.drop_last(), tenant, device, t, d);
        let prev = hub_without(entries.drop_last(), tenant, device);
        if !(entries.last().0 == tenant && entries.last().1 == device) {
            assert(prev.push(entries.last()).drop_last() =~= prev);
        }
    }
}

/// No two registrations are for the same `(tenant, device)`.
pub open spec fn hub_keys_distinct<T>(es: Seq<(u128, u128, T)>) -> bool {
    forall|i: int, j: int| 0 <= i < j < es.len() ==> !(#[trigger] es[i].0 == #[trigger] es[j].0 && es[i].1 == es[j].1)
}

proof fn lemma_hub_without_distinct<T>(es: Seq<(u128, u128, T)>, tenant: u128, device: u128)
    requires
        hub_keys_distinct(es),
    ensures
        hub_keys_distinct(hub_without(es, tenant, device)),
        forall|k: int| 0 <= k < hub_without(es, tenant, device).len() ==> !((#[trigger] hub_without(es, tenant, device)[k]).0 == tenant
            && hub_without(es, tenant, device)[k].1 == device),
        forall|k: int| 0 <= k < hub_without(es, tenant, device).len() ==> exists|j: int| 0 <= j < es.len()
            && es[j] == #[trigger] hub_without(es, tenant, device)[k],
    decreases es.len(),
{
    if es.len() > 0 {
        let e0 = es.drop_last();
        assert(hub_keys_distinct(e0)) by {
            assert forall|i: int, j: int| 0 <= i < j < e0.len() implies !(#[trigger] e0[i].0 == #[trigger] e0[j].0 && e0[i].1 == e0[j].1) by {
                assert(e0[i] == es[i] && e0[j] == es[j]);
            }
        }
        lemma_hub_without_distinct(e0, tenant, device);
        let prev = hub_without(e0, tenant, device);
        let w = hub_without(es, tenant, device);
        assert forall|k: int| 0 <= k < prev.len() implies exists|j: int| 0 <= j < es.len() && es[j] == #[trigger] prev[k] by {
            let j = choose|j: int| 0 <= j < e0.len() && e0[j] == prev[k];
            assert(es[j] == prev[k]);
        }
        if !(es.last().0 == tenant && es.last().1 == device) {
            assert(w == prev.push(es.last()));
            assert forall|i: int, j: int| 0 <= i < j < w.len() implies !(#[trigger] w[i].0 == #[trigger] w[j].0 && w[i].1 == w[j].1) by {
                if j == prev.len() {
                    let a = choose|a: int| 0 <= a < e0.len() && e0[a] == prev[i];
                    assert(es[a] == w[i]);
                    assert(w[j] == es[es.len() - 1]);
                } else {
                    assert(w[i] == prev[i] && w[j] == prev[j]);
                }
            }
            assert forall|k: int| 0 <= k < w.len() implies exists|j: int| 0 <= j < es.len() && es[j] == #[trigger] w[k] by {
                if k == prev.len() {
                    assert(es[es.len() - 1] == w[k]);
                } else {
                    assert(w[k] == prev[k]);
                }
            }
        }
    }
}

proof fn lemma_hub_devices<T>(entries: Seq<(u128, u128, T)>, tenant: u128, d: u128)
    ensures
        hub_devices(entries, tenant).contains(d) <==> hub_lookup(entries, tenant, d) is Some,
    decreases entries.len(),
{
    if entries.len() > 0 {
        lemma_hub_devices(entries.drop_last(), tenant, d);
        let prev = hub_devices(entries.drop_last(), tenant);
        if entries.last().0 == tenant {
            assert(prev.push(entries.last().1)[prev.len() as int] == entries.last().1);
            if prev.contains(d) {
                let i = choose|i: int| 0 <= i < prev.len() && prev[i] == d;
                assert(prev.push(entries.last().1)[i] == d);
            }
            if prev.push(entries.last().1).contains(d) && entries.last().1 != d {
                let i = choose|i: int| 0 <= i < prev.len() + 1 && prev.push(entries.last().1)[i] == d;
                assert(prev[i] == d);
            }
        }
    }
}

/// Connected agents per tenant, each with its outbound queue.
pub struct Hub<T> {
    entries: Vec<(u128, u128, T)>,
}

impl<T> Hub<T> {
    /// Each device is registered once.
    #[verifier::type_invariant]
    spec fn wf(self) -> bool {
        hub_keys_distinct(self.entries@)
    }

    /// The registrations, oldest first.
    pub closed spec fn entries(&self) -> Seq<(u128, u128, T)> {
        self.entries@
    }

    /// The queue of `device` in `tenant`, if connected.
    pub open spec fn lookup(&self, tenant: u128, device: u128) -> Option<T> {
        hub_lookup(self.entries(), tenant, device)
    }

    /// An empty hub.
    pub fn new() -> (r: Hub<T>)
        ensures
            forall|t: u128, d: u128| r.lookup(t, d) is None,
            r.entries() == Seq::<(u128, u128, T)>::empty(),
    {
        Hub { entries: Vec::new() }
    }

    /// Register a connected agent with its queue (replacing an earlier
    /// registration of the same device).
    pub fn register(&mut self, tenant: u128, device: u128, queue: T)
        ensures
            final(self).lookup(tenant, device) == Some(queue),
            forall|t: u128, d: u128| !(t == tenant && d == device) ==> final(self).lookup(t, d) == old(self).lookup(t, d),
    {
        proof {
            use_type_invariant(&*self);
            lemma_hub_without_distinct(self.entries@, tenant, device);
        }
        self.unregister(tenant, device);
        let mut es: Vec<(u128, u128, T)> = Vec::new();
        std::mem::swap(&mut es, &mut self.entries);
        let ghost before = es@;
        es.push((tenant, device, queue));
        proof {
            assert forall|i: int, j: int| 0 <= i < j < es@.len() implies !(#[trigger] es@[i].0 == #[trigger] es@[j].0 && es@[i].1 == es@[j].1) by {
                assert(es@[i] == before[i]);
                if j < before.len() {
                    assert(es@[j] == before[j]);
                }
            }
        }
        self.entries = es;
        proof {
            assert forall|t: u128, d: u128| !(t == tenant && d == device) implies self.lookup(t, d) == old(self).lookup(t, d) by {
                assert(self.entries@.drop_last() =~= hub_without(old(self).entries@, tenant, device));
                lemma_hub_without(old(self).entries@, tenant, device, t, d);
            }
        }
    }

    /// Remove a disconnected agent.
    pub fn unregister(&mut self, tenant: u128, device: u128)
        ensures
            final(self).entries() == hub_without(old(self).entries(), tenant, device),
            final(self).lookup(tenant, device) is None,
            forall|t: u128, d: u128| !(t == tenant && d == device) ==> final(self).lookup(t, d) == old(self).lookup(t, d),
    {
        proof {
            use_type_invariant(&*self);
            lemma_hub_without_distinct(self.entries@, tenant, device);
        }
        let ghost old_entries = self.entries@;
        let mut es: Vec<(u128, u128, T)> = Vec::new();
        std::mem::swap(&mut es, &mut self.entries);
        let mut i = es.len();
        assert(es@.take(i as int) =~= es@);
        assert(es@.skip(i as int) =~= Seq::<(u128, u128, T)>::empty());
        while i > 0
            invariant
                i <= es@.len(),
                hub_without(old_entries, tenant, device) == hub_without(es@.take(i as int), tenant, device)
                    + es@.skip(i as int),
            decreases i,
        {
            let ghost before = es@;
            assert(before.take(i as int).drop_last() =~= before.take(i - 1));
            if es[i - 1].0 == tenant && es[i - 1].1 == device {
                let _ = es.remove(i - 1);
                assert(es@.take(i - 1) =~= before.take(i - 1));
                assert(es@.skip(i - 1) =~= before.skip(i as int));
            } else {
                assert(es@.skip(i - 1) =~= seq![before[i - 1]] + before.skip(i as int));
                assert(hub_without(before.take(i - 1), tenant, device).push(before[i - 1]) + before.skip(i as int)
                    =~= hub_without(before.take(i - 1), tenant, device) + es@.skip(i - 1));
            }
            i = i - 1;
        }
        assert(es@.skip(0) =~= es@);
        assert(hub_without(es@.take(0), tenant, device) =~= Seq::<(u128, u128, T)>::empty());
        assert(hub_without(old_entries, tenant, device) =~= es@);
        self.entries = es;
        proof {
            lemma_hub_without(old_entries, tenant, device, tenant, device);
            assert forall|t: u128, d: u128| !(t == tenant && d == device) implies self.lookup(t, d) == old(self).lookup(t, d) by {
                lemma_hub_without(old_entries, tenant, device, t, d);
            }
        }
    }

    /// The devices of `tenant` that are connected.
    pub fn connected_devices(&self, tenant: u128) -> (r: Vec<u128>)
        ensures
            r@ == hub_devices(self.entries(), tenant),
            forall|d: u128| r@.contains(d) <==> self.lookup(tenant, d) is Some,
    {
        let mut out: Vec<u128> = Vec::new();
        let mut i: usize = 0;
        while i < self.entries.len()
            invariant
                i <= self.entries@.len(),
                out@ == hub_devices(self.entries@.take(i as int), tenant),
            decreases self.entries.len() - i,
        {
            assert(self.entries@.take(i + 1).drop_last() =~= self.entries@.take(i as int));
            if self.entries[i].0 == tenant {
                out.push(self.entries[i].1);
            }
            i = i + 1;
        }
        assert(self.entries@.take(self.entries@.len() as int) =~= self.entries@);
        proof {
            assert forall|d: u128| out@.contains(d) <==> self.lookup(tenant, d) is Some by {
                lemma_hub_devices(self.entries@, tenant, d);
            }
        }
        out
    }

    /// The queue of a connected device.
    pub fn get(&self, tenant: u128, device: u128) -> (r: Option<&T>)
        ensures
            r == match self.lookup(tenant, device) {
                Some(q) => Some(&q),
                None => None::<&T>,
            },
    {
        let mut i = self.entries.len();
        assert(self.entries@.take(i as int) =~= self.entries@);
        while i > 0
            invariant
                i <= self.entries@.len(),
                hub_lookup(self.entries@, tenant, device) == hub_lookup(self.entries@.take(i as int), tenant, device),
            decreases i,
        {
            assert(self.entries@.take(i as int).drop_last() =~= self.entries@.take(i - 1));
            let e = &self.entries[i - 1];
            if e.0 == tenant && e.1 == device {
                return Some(&e.2);
            }
            i = i - 1;
        }
        None
    }
}

impl<T: Outbox<NetworkMap>> Hub<T> {
    /// Push a map to one connected device (nothing when it is not
    /// connected).
    pub fn send_to(&self, tenant: u128, device: u128, map: NetworkMap)
        ensures
            self.lookup(tenant, device) matches Some(q) ==> exists|r: bool| #[trigger] call_ensures(T::deliver, (&q, map), r),
    {
        if let Some(q) = self.get(tenant, device) {
            let ghost m = map;
            let r = q.deliver(map);
            assert(call_ensures(T::deliver, (q, m), r));
        }
    }
}

/// The queue registered under a public key: the last registration.
pub open spec fn key_lookup<T>(entries: Seq<(Seq<char>, T)>, key: Seq<char>) -> Option<T>
    decreases entries.len(),
{
    if entries.len() == 0 {
        None
    } else if entries.last().0 == key {
        Some(entries.last().1)
    } else {
        key_lookup(entries.drop_last(), key)
    }
}

/// The entries without those under `key`, in order.
pub open spec fn key_without<T>(entries: Seq<(Seq<char>, T)>, key: Seq<char>) -> Seq<(Seq<char>, T)>
    decreases entries.len(),
{
    if entries.len() == 0 {
        seq![]
    } else {
        let prev = key_without(entries.drop_last(), key);
        if entries.last().0 == key {
            prev
        } else {
            prev.push(entries.last())
        }
    }
}

/// Registrations by the view of their keys.
pub open spec fn entries_of<T>(ps: Seq<(String, T)>) -> Seq<(Seq<char>, T)> {
    ps.map_values(|e: (String, T)| (e.0@, e.1))
}

/// No two registrations are under the same key.
pub open spec fn keys_distinct<T>(es: Seq<(Seq<char>, T)>) -> bool {
    forall|i: int, j: int| 0 <= i < j < es.len() ==> #[trigger] es[i].0 != #[trigger] es[j].0
}

pub(crate) proof fn lemma_key_without_distinct<T>(es: Seq<(Seq<char>, T)>, key: Seq<char>)
    requires
        keys_distinct(es),
    ensures
        keys_distinct(key_without(es, key)),
        forall|k: int| 0 <= k < key_without(es, key).len() ==> (#[trigger] key_without(es, key)[k]).0 != key,
        forall|k: int| 0 <= k < key_without(es, key).len() ==> exists|j: int| 0 <= j < es.len()
            && es[j] == #[trigger] key_without(es, key)[k],
    decreases es.len(),
{
    if es.len() > 0 {
        let e0 = es.drop_last();
        assert(keys_distinct(e0)) by {
            assert forall|i: int, j: int| 0 <= i < j < e0.len() implies #[trigger] e0[i].0 != #[trigger] e0[j].0 by {
                assert(e0[i] == es[i] && e0[j] == es[j]);
            }
        }
        lemma_key_without_distinct(e0, key);
        let prev = key_without(e0, key);
        let w = key_without(es, key);
        assert forall|k: int| 0 <= k < prev.len() implies exists|j: int| 0 <= j < es.len() && es[j] == #[trigger] prev[k] by {
            let j = choose|j: int| 0 <= j < e0.len() && e0[j] == prev[k];
            assert(es[j] == prev[k]);
        }
        if es.last().0 != key {
            assert(w == prev.push(es.last()));
            assert forall|i: int, j: int| 0 <= i < j < w.len() implies #[trigger] w[i].0 != #[trigger] w[j].0 by {
                if j == prev.len() {
                    let a = choose|a: int| 0 <= a < e0.len() && e0[a] == prev[i];
                    assert(es[a] == w[i]);
                    assert(w[j] == es[es.len() - 1]);
                } else {
                    assert(w[i] == prev[i] && w[j] == prev[j]);
                }
            }
            assert forall|k: int| 0 <= k < w.len() implies exists|j: int| 0 <= j < es.len() && es[j] == #[trigger] w[k] by {
                if k == prev.len() {
                    assert(es[es.len() - 1] == w[k]);
                } else {
                    assert(w[k] == prev[k]);
                }
            }
        }
    }
}

pub(crate) proof fn lemma_key_without<T>(entries: Seq<(Seq<char>, T)>, key: Seq<char>, k: Seq<char>)
    ensures
        key_lookup(key_without(entries, key), k) == if k == key { None } else { key_lookup(entries, k) },
    decreases entries.len(),
{
    if entries.len() > 0 {
        lemma_key_without(entries.drop_last(), key, k);
        let prev = key_without(entries.drop_last(), key);
        if entries.last().0 != key {
            assert(prev.push(entries.last()).drop_last() =~= prev);
        }
    }
}

/// `jsonwebtoken::decode` with HS256 and the default validation (signature
/// and expiry, with its leeway) succeeds. The outcome depends on the clock;
/// what is stated is that `decode` refuses, before anything else, a token
/// that does not have the three dot-separated parts
/// `header.payload.signature`, i.e. one with fewer than two dots.
#[verifier::external_body]
fn jwt_decodes(secret: &str, token: &str) -> (r: bool)
    ensures
        count_char(token@, '.') < 2 ==> !r,
{
    jsonwebtoken::decode::<serde_json::Value>(
        token,
        &jsonwebtoken::DecodingKey::from_secret(secret.as_bytes()),
        &jsonwebtoken::Validation::default(),
    ).is_ok()
}

/// Verify a coordinator-signed token (HS256, checking expiry): its signature
/// must sign it under `secret`, and it must decode and be unexpired. A token
/// that lacks the three parts `header.payload.signature` is refused.
pub fn verify_token(secret: &str, token: &str) -> (r: bool)
    ensures
        count_char(token@, '.') < 2 ==> !r,
        r ==> jwt_signature_ok(secret@, token@),
{
    signature_valid(secret, token) && jwt_decodes(secret, token)
}

/// The relay's registry of connected clients by public key, and the secret
/// that client tokens must be signed with (none: any client is accepted).
pub struct RelayState<T> {
    peers: Vec<(String, T)>,
    jwt_secret: Option<String>,
}

impl<T> RelayState<T> {
    /// Each public key is registered once.
    #[verifier::type_invariant]
    spec fn wf(self) -> bool {
        keys_distinct(self.entries())
    }

    pub closed spec fn entries(&self) -> Seq<(Seq<char>, T)> {
        entries_of(self.peers@)
    }

    pub closed spec fn secret(&self) -> Option<Seq<char>> {
        match self.jwt_secret {
            Some(s) => Some(s@),
            None => None,
        }
    }

    /// The queue of the client with public key `key`, if connected.
    pub open spec fn lookup(&self, key: Seq<char>) -> Option<T> {
        key_lookup(self.entries(), key)
    }

    /// A relay with no clients; `Some(secret)` requires clients to present a
    /// token signed with the coordinator's secret.
    pub fn new(jwt_secret: Option<String>) -> (r: RelayState<T>)
        ensures
            r.secret() == match jwt_secret {
                Some(s) => Some(s@),
                None => None::<Seq<char>>,
            },
            forall|k: Seq<char>| r.lookup(k) is None,
    {
        let r = RelayState { peers: Vec::new(), jwt_secret };
        assert(r.entries() =~= Seq::<(Seq<char>, T)>::empty());
        r
    }

    /// Whether a client presenting `token` is admitted: always without a
    /// secret, else when the token verifies against it (a token without the
    /// three parts `header.payload.signature` never does).
    pub fn authorize(&self, token: &str) -> (r: bool)
        ensures
            self.secret() is None ==> r,
            self.secret() is Some && count_char(token@, '.') < 2 ==> !r,
            r ==> (self.secret() matches Some(s) ==> jwt_signature_ok(s, token@)),
    {
        match &self.jwt_secret {
            Some(secret) => verify_token(secret.as_str(), token),
            None => true,
        }
    }

    /// Register a client's queue under its public key.
    pub fn register(&mut self, key: String, queue: T)
        ensures
            final(self).lookup(key@) == Some(queue),
            forall|k: Seq<char>| k != key@ ==> final(self).lookup(k) == old(self).lookup(k),
            final(self).secret() == old(self).secret(),
    {
        proof {
            use_type_invariant(&*self);
            lemma_key_without_distinct(self.entries(), key@);
        }
        self.unregister(key.as_str());
        let ghost mid = self.entries();
        let ghost kv = key@;
        let mut ps: Vec<(String, T)> = Vec::new();
        std::mem::swap(&mut ps, &mut self.peers);
        assert(entries_of(ps@) == mid);
        ps.push((key, queue));
        proof {
            assert(entries_of(ps@) =~= mid.push((kv, queue)));
            assert forall|i: int, j: int| 0 <= i < j < entries_of(ps@).len() implies
                #[trigger] entries_of(ps@)[i].0 != #[trigger] entries_of(ps@)[j].0 by {
                assert(entries_of(ps@)[i] == mid[i]);
                if j < mid.len() {
                    assert(entries_of(ps@)[j] == mid[j]);
                }
            }
        }
        self.peers = ps;
        proof {
            assert(self.entries() =~= mid.push((kv, queue)));
            assert(self.entries().drop_last() =~= mid);
        }
    }

    /// Remove a disconnected client.
    pub fn unregister(&mut self, key: &str)
        ensures
            final(self).entries() == key_without(old(self).entries(), key@),
            final(self).lookup(key@) is None,
            forall|k: Seq<char>| k != key@ ==> final(self).lookup(k) == old(self).lookup(k),
            final(self).secret() == old(self).secret(),
    {
        proof {
            use_type_invariant(&*self);
            lemma_key_without_distinct(self.entries(), key@);
        }
        let ghost old_entries = self.entries();
        let mut ps: Vec<(String, T)> = Vec::new();
        std::mem::swap(&mut ps, &mut self.peers);
        assert(entries_of(ps@) == old_entries);
        let mut i = ps.len();
        assert(entries_of(ps@).take(i as int) =~= entries_of(ps@));
        assert(entries_of(ps@).skip(i as int) =~= Seq::<(Seq<char>, T)>::empty());
        while i > 0
            invariant
                i <= ps@.len(),
                key_without(old_entries, key@) == key_without(entries_of(ps@).take(i as int), key@) + entries_of(ps@).skip(i as int),
            decreases i,
        {
            let ghost before = entries_of(ps@);
            assert(before.take(i as int).drop_last() =~= before.take(i - 1));
            if str_eq(ps[i - 1].0.as_str(), key) {
                let _ = ps.remove(i - 1);
                assert(entries_of(ps@).take(i - 1) =~= before.take(i - 1));
                assert(entries_of(ps@).skip(i - 1) =~= before.skip(i as int));
            } else {
                assert(entries_of(ps@).skip(i - 1) =~= seq![before[i - 1]] + before.skip(i as int));
                assert(key_without(before.take(i - 1), key@).push(before[i - 1]) + before.skip(i as int)
                    =~= key_without(before.take(i - 1), key@) + entries_of(ps@).skip(i - 1));
            }
            i = i - 1;
        }
        assert(entries_of(ps@).skip(0) =~= entries_of(ps@));
        assert(key_without(entries_of(ps@).take(0), key@) =~= Seq::<(Seq<char>, T)>::empty());
        assert(key_without(old_entries, key@) =~= entries_of(ps@));
        self.peers = ps;
        proof {
            lemma_key_without(old_entries, key@, key@);
            assert forall|k: Seq<char>| k != key@ implies self.lookup(k) == old(self).lookup(k) by {
                lemma_key_without(old_entries, key@, k);
            }
        }
    }

    /// The queue of the client with public key `key`.
    pub fn get(&self, key: &str) -> (r: Option<&T>)
        ensures
            r == match self.lookup(key@) {
                Some(q) => Some(&q),
                None => None::<&T>,
            },
    {
        let ghost es = self.entries();
        let mut i = self.peers.len();
        assert(es.take(i as int) =~= es);
        while i > 0
            invariant
                i <= self.peers@.len(),
                es == self.entries(),
                key_lookup(es, key@) == key_lookup(es.take(i as int), key@),
            decreases i,
        {
            assert(es.take(i as int).drop_last() =~= es.take(i - 1));
            assert(es[i - 1] == (self.peers@[i - 1].0@, self.peers@[i - 1].1));
            if str_eq(self.peers[i - 1].0.as_str(), key) {
                return Some(&self.peers[i - 1].1);
            }
            i = i - 1;
        }
        None
    }
}

impl<T: Outbox<Vec<u8>>> RelayState<T> {
    /// Forward `payload` to the client with key `dst`, framed with the
    /// sender's key `src`; false when `dst` is not connected or its queue is
    /// gone.
    pub fn forward(&self, src: &str, dst: &str, payload: &[u8]) -> (r: bool)
        ensures
            match self.lookup(dst@) {
                Some(q) => exists|frame: Vec<u8>|
                    frame@ == frame_bytes(src@, payload@) && #[trigger] call_ensures(T::deliver, (&q, frame), r),
                None => !r,
            },
    {
        match self.get(dst) {
            Some(q) => {
                let frame = encode_frame(src, payload);
                let ghost f = frame;
                let r = q.deliver(frame);
                assert(call_ensures(T::deliver, (q, f), r));
                r
            },
            None => false,
        }
    }
}

impl<T> Default for RelayState<T> {
    /// A relay without a secret (every client is accepted) and no clients.
    fn default() -> (r: RelayState<T>)
        ensures
            r.secret() is None,
            forall|k: Seq<char>| r.lookup(k) is None,
    {
        RelayState::new(None)
    }
}

} // verus!
