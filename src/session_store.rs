//! Which session each connection key (a client address, or a private code)
//! belongs to, how many connections hold each session, and the expiry of
//! private codes.
use std::collections::HashMap;
use vstd::prelude::*;
use vstd::string::StrSliceExecFns;
use vstd::string::StringExecFns;

use crate::consts::SAFE_CHARSET;
use crate::error::ServerError;
use crate::text::{trim, trimmed};
use crate::outside::{new_session_id, random_in_range};
use crate::text_map::{listed, TextMap};

verus! {

broadcast use vstd::std_specs::hash::group_hash_axioms, vstd::string::group_string_axioms;

/// The session a key leads to, and whether the key is a private code.
#[derive(Clone, Copy, PartialEq, Eq, Structural)]
pub struct SessionData {
    pub uuid: u128,
    pub is_private: bool,
}

/// Why a key does not lead to a session.
#[derive(Clone, Copy, Debug, PartialEq, Eq, Structural)]
pub enum ResolveError {
    NotFound,
    Expired,
}

pub ghost struct RegistryView {
    pub keys: Map<Seq<char>, SessionData>,
    pub counts: Map<u128, u64>,
    pub expired: Set<Seq<char>>,
    pub scheduled: Map<Seq<char>, u64>,
    pub next_ticket: u64,
}

pub open spec fn count_of(counts: Map<u128, u64>, u: u128) -> u64 {
    if counts.contains_key(u) {
        counts[u]
    } else {
        0
    }
}

pub open spec fn incr(x: u64) -> u64 {
    if x < u64::MAX {
        (x + 1) as u64
    } else {
        x
    }
}

/// Looking `key` up, as `resolve` does it, with `fresh` as the identifier of
/// a session that it creates.
pub open spec fn resolve_spec(v: RegistryView, key: Seq<char>, strict: bool, private: bool, fresh: u128) -> (
    RegistryView,
    Result<u128, ResolveError>,
) {
    if private && v.expired.contains(key) {
        (v, Err(ResolveError::Expired))
    } else {
        let v1 = if private {
            RegistryView { scheduled: v.scheduled.remove(key), ..v }
        } else {
            v
        };
        if v1.keys.contains_key(key) {
            let u = v1.keys[key].uuid;
            (RegistryView { counts: v1.counts.insert(u, incr(count_of(v1.counts, u))), ..v1 }, Ok(u))
        } else if strict {
            (v1, Err(ResolveError::NotFound))
        } else {
            (
                RegistryView {
                    keys: v1.keys.insert(key, SessionData { uuid: fresh, is_private: private }),
                    counts: v1.counts.insert(fresh, incr(count_of(v1.counts, fresh))),
                    ..v1
                },
                Ok(fresh),
            )
        }
    }
}

/// Key `k` is a public key of session `u`.
pub open spec fn public_of(v: RegistryView, k: Seq<char>, u: u128) -> bool {
    v.keys.contains_key(k) && v.keys[k].uuid == u && !v.keys[k].is_private
}

/// Key `k` is a private code of session `u`.
pub open spec fn private_of(v: RegistryView, k: Seq<char>, u: u128) -> bool {
    v.keys.contains_key(k) && v.keys[k].uuid == u && v.keys[k].is_private
}

/// Dropping one connection of session `u`. At the last one the session's
/// public keys go at once, and its private codes are scheduled to expire
/// under one new ticket.
pub open spec fn release_spec(v: RegistryView, u: u128) -> RegistryView {
    if !v.counts.contains_key(u) {
        v
    } else if v.counts[u] > 1 {
        RegistryView { counts: v.counts.insert(u, (v.counts[u] - 1) as u64), ..v }
    } else {
        let any_private = exists|k: Seq<char>| private_of(v, k, u);
        RegistryView {
            keys: Map::new(
                |k: Seq<char>| v.keys.contains_key(k) && !public_of(v, k, u),
                |k: Seq<char>| v.keys[k],
            ),
            counts: v.counts.remove(u),
            expired: v.expired,
            scheduled: Map::new(
                |k: Seq<char>| v.scheduled.contains_key(k) || private_of(v, k, u),
                |k: Seq<char>|
                    if private_of(v, k, u) {
                        v.next_ticket
                    } else {
                        v.scheduled[k]
                    },
            ),
            next_ticket: if any_private {
                incr(v.next_ticket)
            } else {
                v.next_ticket
            },
        }
    }
}

/// An expiry timer of `code` under `ticket` firing: it takes effect only
/// while that very ticket is still scheduled.
pub open spec fn expire_spec(v: RegistryView, code: Seq<char>, ticket: u64) -> RegistryView {
    if v.scheduled.contains_key(code) && v.scheduled[code] == ticket {
        RegistryView {
            keys: v.keys.remove(code),
            scheduled: v.scheduled.remove(code),
            expired: v.expired.insert(code),
            ..v
        }
    } else {
        v
    }
}

/// One of the first `n` entries has key `q`, session `u` and privacy `private`.
pub open spec fn owned_entry(es: Seq<(Seq<char>, SessionData)>, n: int, q: Seq<char>, u: u128, private: bool) -> bool {
    exists|j: int| 0 <= j < n && #[trigger] es[j].0 == q && es[j].1.uuid == u && es[j].1.is_private == private
}

/// `k` is among the codes of `xs`.
pub open spec fn to_expire(xs: Seq<(String, u64)>, k: Seq<char>) -> bool {
    exists|a: int| 0 <= a < xs.len() && #[trigger] xs[a].0@ == k
}

/// `n` releases of session `u` in a row.
pub open spec fn release_times(v: RegistryView, u: u128, n: nat) -> RegistryView
    decreases n,
{
    if n == 0 {
        v
    } else {
        release_spec(release_times(v, u, (n - 1) as nat), u)
    }
}

proof fn lemma_release_times_before_last(v: RegistryView, u: u128, m: nat)
    requires
        v.counts.contains_key(u),
        m < v.counts[u],
    ensures
        release_times(v, u, m).keys == v.keys,
        release_times(v, u, m).scheduled == v.scheduled,
        release_times(v, u, m).counts.contains_key(u),
        release_times(v, u, m).counts[u] == v.counts[u] - m,
        release_times(v, u, m).counts == v.counts.insert(u, (v.counts[u] - m) as u64),
        release_times(v, u, m).expired == v.expired,
        release_times(v, u, m).next_ticket == v.next_ticket,
    decreases m,
{
    if m > 0 {
        lemma_release_times_before_last(v, u, (m - 1) as nat);
        let w = release_times(v, u, (m - 1) as nat);
        assert(release_times(v, u, m).counts =~= v.counts.insert(u, (v.counts[u] - m) as u64));
    } else {
        assert(v.counts.insert(u, v.counts[u]) =~= v.counts);
    }
}

/// `m` public lookups of `key` in a row, with `fresh` as the identifier of a
/// session that the first one creates.
pub open spec fn public_lookups(v: RegistryView, key: Seq<char>, fresh: u128, m: nat) -> RegistryView
    decreases m,
{
    if m == 0 {
        v
    } else {
        resolve_spec(public_lookups(v, key, fresh, (m - 1) as nat), key, false, false, fresh).0
    }
}

/// The session that public lookups of `key` lead to.
pub open spec fn looked_up(v: RegistryView, key: Seq<char>, fresh: u128) -> u128 {
    if v.keys.contains_key(key) {
        v.keys[key].uuid
    } else {
        fresh
    }
}

proof fn lemma_public_lookups_shape(v: RegistryView, key: Seq<char>, fresh: u128, j: nat)
    requires
        1 <= j,
        v.keys.contains_key(key) ==> !v.keys[key].is_private && count_of(v.counts, v.keys[key].uuid) + j
            < u64::MAX,
        !v.keys.contains_key(key) ==> !v.counts.contains_key(fresh) && j < u64::MAX,
    ensures
        ({
            let u = looked_up(v, key, fresh);
            let d = if v.keys.contains_key(key) { v.keys[key] } else { SessionData { uuid: fresh, is_private: false } };
            let w = public_lookups(v, key, fresh, j);
            &&& w.keys == v.keys.insert(key, d)
            &&& w.counts == v.counts.insert(u, (count_of(v.counts, u) + j) as u64)
            &&& w.expired == v.expired
            &&& w.scheduled == v.scheduled
            &&& w.next_ticket == v.next_ticket
        }),
    decreases j,
{
    let u = looked_up(v, key, fresh);
    let d = if v.keys.contains_key(key) { v.keys[key] } else { SessionData { uuid: fresh, is_private: false } };
    let w = public_lookups(v, key, fresh, j);
    if j == 1 {
        assert(public_lookups(v, key, fresh, 0) == v);
        assert(w == resolve_spec(v, key, false, false, fresh).0);
        assert(incr(count_of(v.counts, u)) == count_of(v.counts, u) + 1);
        if v.keys.contains_key(key) {
            assert(w.keys =~= v.keys.insert(key, d));
        }
    } else {
        lemma_public_lookups_shape(v, key, fresh, (j - 1) as nat);
        let p = public_lookups(v, key, fresh, (j - 1) as nat);
        assert(p.keys.contains_key(key) && p.keys[key] == d);
        assert(count_of(p.counts, u) == count_of(v.counts, u) + j - 1);
        assert(w.keys =~= v.keys.insert(key, d));
        assert(w.counts =~= v.counts.insert(u, (count_of(v.counts, u) + j) as u64));
    }
}

/// `m` lookups of a public key, followed by as many releases of the session
/// they returned, leave the registry as it was; `fresh` is the identifier of
/// a session the first lookup would create, unused so far.
pub proof fn lemma_public_lookups_then_releases(v: RegistryView, key: Seq<char>, fresh: u128, m: nat)
    requires
        1 <= m,
        !v.keys.contains_key(key) ==> !v.counts.contains_key(fresh) && m < u64::MAX && forall|k: Seq<char>|
            #[trigger] v.keys.contains_key(k) ==> v.keys[k].uuid != fresh,
        v.keys.contains_key(key) ==> !v.keys[key].is_private && v.counts.contains_key(v.keys[key].uuid)
            && 1 <= v.counts[v.keys[key].uuid] && v.counts[v.keys[key].uuid] + m < u64::MAX,
    ensures
        release_times(public_lookups(v, key, fresh, m), looked_up(v, key, fresh), m) == v,
{
    let u = looked_up(v, key, fresh);
    let w = public_lookups(v, key, fresh, m);
    lemma_public_lookups_shape(v, key, fresh, m);
    if v.keys.contains_key(key) {
        lemma_release_times_before_last(w, u, m);
        let x = release_times(w, u, m);
        assert(x.keys =~= v.keys);
        assert(x.counts =~= v.counts);
    } else {
        lemma_release_times_before_last(w, u, (m - 1) as nat);
        let x = release_times(w, u, (m - 1) as nat);
        lemma_public_lookups_shape(v, key, fresh, 1);
        let one = public_lookups(v, key, fresh, 1);
        assert(x.counts =~= one.counts);
        assert(x == one);
        lemma_public_lookup_then_release(v, key, fresh);
    }
}

/// A key of session `u`, released as many times as `u` counts connections
/// with no lookup in between: `u` counts no connection any more, a public
/// key is gone, and a private code stays, scheduled to expire.
pub proof fn lemma_release_every_connection(v: RegistryView, k: Seq<char>, u: u128)
    requires
        v.keys.contains_key(k),
        v.keys[k].uuid == u,
        v.counts.contains_key(u),
        v.counts[u] >= 1,
    ensures
        !release_times(v, u, v.counts[u] as nat).counts.contains_key(u),
        !v.keys[k].is_private ==> !release_times(v, u, v.counts[u] as nat).keys.contains_key(k),
        v.keys[k].is_private ==> release_times(v, u, v.counts[u] as nat).keys.contains_key(k)
            && release_times(v, u, v.counts[u] as nat).scheduled.contains_key(k),
{
    let n = v.counts[u] as nat;
    lemma_release_times_before_last(v, u, (n - 1) as nat);
    let w = release_times(v, u, (n - 1) as nat);
    assert(w.counts[u] == 1);
    assert(release_times(v, u, n) == release_spec(w, u));
    if v.keys[k].is_private {
        assert(private_of(w, k, u));
    } else {
        assert(public_of(w, k, u));
    }
}

/// A lookup of a public key, followed by the release of the session it
/// returned, leaves the registry as it was; `fresh` is the identifier of a
/// session the lookup would create, unused so far.
pub proof fn lemma_public_lookup_then_release(v: RegistryView, key: Seq<char>, fresh: u128)
    requires
        !v.keys.contains_key(key) ==> !v.counts.contains_key(fresh) && forall|k: Seq<char>|
            #[trigger] v.keys.contains_key(k) ==> v.keys[k].uuid != fresh,
        v.keys.contains_key(key) ==> !v.keys[key].is_private && v.counts.contains_key(v.keys[key].uuid)
            && 1 <= v.counts[v.keys[key].uuid] < u64::MAX,
    ensures
        resolve_spec(v, key, false, false, fresh).1 is Ok,
        release_spec(
            resolve_spec(v, key, false, false, fresh).0,
            resolve_spec(v, key, false, false, fresh).1->Ok_0,
        ) == v,
{
    let (v1, r) = resolve_spec(v, key, false, false, fresh);
    let u = r->Ok_0;
    let v2 = release_spec(v1, u);
    if v.keys.contains_key(key) {
        assert(v2.counts =~= v.counts);
    } else {
        assert(v2.keys =~= v.keys);
        assert(v2.counts =~= v.counts);
        assert(v2.scheduled =~= v.scheduled);
        assert(!exists|k: Seq<char>| private_of(v1, k, u));
    }
}

/// A private code with no connection, looked up, released and then left to
/// its expiry timer, is gone from the registry and marked expired.
pub proof fn lemma_private_code_expires(v: RegistryView, code: Seq<char>, strict: bool, fresh: u128)
    requires
        v.keys.contains_key(code),
        v.keys[code].is_private,
        !v.expired.contains(code),
        !v.counts.contains_key(v.keys[code].uuid),
    ensures
        resolve_spec(v, code, strict, true, fresh).1 == Ok::<u128, ResolveError>(v.keys[code].uuid),
        release_spec(resolve_spec(v, code, strict, true, fresh).0, v.keys[code].uuid).scheduled.contains_key(code),
        ({
            let v2 = release_spec(resolve_spec(v, code, strict, true, fresh).0, v.keys[code].uuid);
            let v3 = expire_spec(v2, code, v2.scheduled[code]);
            &&& !v3.keys.contains_key(code)
            &&& v3.expired.contains(code)
            &&& !v3.counts.contains_key(v.keys[code].uuid)
        }),
{
    let u = v.keys[code].uuid;
    let v1 = resolve_spec(v, code, strict, true, fresh).0;
    assert(v1.counts[u] == 1);
    assert(private_of(v1, code, u));
}

/// `m` lookups of the private code `code` in a row.
pub open spec fn private_lookups(v: RegistryView, code: Seq<char>, strict: bool, fresh: u128, m: nat) -> RegistryView
    decreases m,
{
    if m == 0 {
        v
    } else {
        resolve_spec(private_lookups(v, code, strict, fresh, (m - 1) as nat), code, strict, true, fresh).0
    }
}

proof fn lemma_private_lookups_shape(v: RegistryView, code: Seq<char>, strict: bool, fresh: u128, j: nat)
    requires
        1 <= j < u64::MAX,
        v.keys.contains_key(code),
        v.keys[code].is_private,
        !v.expired.contains(code),
        !v.counts.contains_key(v.keys[code].uuid),
    ensures
        ({
            let w = private_lookups(v, code, strict, fresh, j);
            &&& w.keys == v.keys
            &&& w.counts == v.counts.insert(v.keys[code].uuid, j as u64)
            &&& w.expired == v.expired
            &&& w.scheduled == v.scheduled.remove(code)
            &&& w.next_ticket == v.next_ticket
        }),
    decreases j,
{
    let u = v.keys[code].uuid;
    let w = private_lookups(v, code, strict, fresh, j);
    if j == 1 {
        assert(private_lookups(v, code, strict, fresh, 0) == v);
    } else {
        lemma_private_lookups_shape(v, code, strict, fresh, (j - 1) as nat);
        let p = private_lookups(v, code, strict, fresh, (j - 1) as nat);
        assert(count_of(p.counts, u) == j - 1);
        assert(w.counts =~= v.counts.insert(u, j as u64));
        assert(w.scheduled =~= v.scheduled.remove(code));
    }
}

/// A private code with no connection, looked up `m` times, released as many
/// times and then left to its expiry timer, is gone from the registry and
/// marked expired, and its session counts no connection.
pub proof fn lemma_private_lookups_release_expire(v: RegistryView, code: Seq<char>, strict: bool, fresh: u128, m: nat)
    requires
        1 <= m < u64::MAX,
        v.keys.contains_key(code),
        v.keys[code].is_private,
        !v.expired.contains(code),
        !v.counts.contains_key(v.keys[code].uuid),
    ensures
        release_times(private_lookups(v, code, strict, fresh, m), v.keys[code].uuid, m).scheduled.contains_key(code),
        ({
            let v2 = release_times(private_lookups(v, code, strict, fresh, m), v.keys[code].uuid, m);
            let v3 = expire_spec(v2, code, v2.scheduled[code]);
            &&& !v3.keys.contains_key(code)
            &&& v3.expired == v.expired.insert(code)
            &&& !v3.counts.contains_key(v.keys[code].uuid)
        }),
{
    let u = v.keys[code].uuid;
    lemma_private_lookups_shape(v, code, strict, fresh, m);
    let w = private_lookups(v, code, strict, fresh, m);
    lemma_release_times_before_last(w, u, (m - 1) as nat);
    let x = release_times(w, u, (m - 1) as nat);
    assert(x.counts[u] == 1);
    assert(private_of(x, code, u));
    assert(release_times(w, u, m) == release_spec(x, u));
}

/// A private code that has expired never leads to a session again.
pub proof fn lemma_expired_code_never_resolves(v: RegistryView, code: Seq<char>, strict: bool, fresh: u128)
    requires
        v.expired.contains(code),
    ensures
        resolve_spec(v, code, strict, true, fresh) == (v, Err::<u128, ResolveError>(ResolveError::Expired)),
{
}

/// What a release asks of its caller.
pub struct ReleaseOutcome {
    /// The session lost its last connection: the coordinator drops it.
    pub session_emptied: bool,
    /// Private codes to expire after the grace period, with their ticket.
    pub expirations: Vec<(String, u64)>,
}

/// The registry of keys, connection counts and private-code expiry.
pub struct SessionStore {
    key_to_session: TextMap<SessionData>,
    uuid_client_counts: HashMap<u128, u64>,
    expired_private_codes: TextMap<bool>,
    scheduled_expirations: TextMap<u64>,
    next_ticket: u64,
}

impl View for SessionStore {
    type V = RegistryView;

    closed spec fn view(&self) -> RegistryView {
        RegistryView {
            keys: self.key_to_session.view(),
            counts: self.uuid_client_counts@,
            expired: self.expired_private_codes.view().dom(),
            scheduled: self.scheduled_expirations.view(),
            next_ticket: self.next_ticket,
        }
    }
}

impl SessionStore {
    pub closed spec fn wf(&self) -> bool {
        &&& self.key_to_session.wf()
        &&& self.expired_private_codes.wf()
        &&& self.scheduled_expirations.wf()
    }

    pub fn new() -> (r: Self)
        ensures
            r.wf(),
            r@.keys == Map::<Seq<char>, SessionData>::empty(),
            r@.counts == Map::<u128, u64>::empty(),
            r@.expired == Set::<Seq<char>>::empty(),
            r@.scheduled == Map::<Seq<char>, u64>::empty(),
    {
        SessionStore {
            key_to_session: TextMap::new(),
            uuid_client_counts: HashMap::new(),
            expired_private_codes: TextMap::new(),
            scheduled_expirations: TextMap::new(),
            next_ticket: 0,
        }
    }

    /// Whether `key` is a private code that has expired.
    pub fn is_code_expired(&self, key: &str) -> (r: bool)
        requires
            self.wf(),
        ensures
            r == self@.expired.contains(key@),
    {
        self.expired_private_codes.contains_key(&String::from_str(key))
    }

    /// Adds one connection to session `u`.
    fn increment_client_count(&mut self, u: u128)
        ensures
            final(self).wf() == old(self).wf(),
            final(self)@ == (RegistryView { counts: old(self)@.counts.insert(u, incr(count_of(old(self)@.counts, u))), ..old(self)@ }),
    {
        let c: u64 = match self.uuid_client_counts.get(&u) {
            Some(c) => *c,
            None => 0,
        };
        let n: u64 = if c < u64::MAX {
            c + 1
        } else {
            c
        };
        self.uuid_client_counts.insert(u, n);
        assert(self@ == (RegistryView { counts: old(self)@.counts.insert(u, incr(count_of(old(self)@.counts, u))), ..old(self)@ }));
    }

    /// Looks `key` up for a new connection, with `fresh` as the identifier of
    /// a session that this creates. An expired private code is refused; a
    /// private code's pending expiry is cancelled; a known key gains one
    /// connection; an unknown key is refused in strict mode and otherwise
    /// starts a session of one connection.
    pub fn resolve(&mut self, key: &str, strict_mode: bool, is_private: bool, fresh: u128) -> (r: Result<u128, ResolveError>)
        requires
            old(self).wf(),
        ensures
            final(self).wf(),
            (final(self)@, r) == resolve_spec(old(self)@, key@, strict_mode, is_private, fresh),
    {
        let k = String::from_str(key);
        if is_private && self.expired_private_codes.contains_key(&k) {
            return Err(ResolveError::Expired);
        }
        if is_private {
            self.scheduled_expirations.remove(&k);
        }
        match self.key_to_session.get(&k) {
            Some(data) => {
                self.increment_client_count(data.uuid);
                Ok(data.uuid)
            },
            None => {
                if strict_mode {
                    return Err(ResolveError::NotFound);
                }
                self.key_to_session.insert(k, SessionData { uuid: fresh, is_private });
                self.increment_client_count(fresh);
                Ok(fresh)
            },
        }
    }

    /// `resolve` with a new random session identifier.
    pub fn get_or_create_session_uuid(&mut self, key: &str, strict_mode: bool, is_private: bool) -> (r: Result<u128, ResolveError>)
        requires
            old(self).wf(),
        ensures
            final(self).wf(),
            exists|fresh: u128| (final(self)@, r) == resolve_spec(old(self)@, key@, strict_mode, is_private, fresh),
    {
        let fresh = new_session_id();
        self.resolve(key, strict_mode, is_private, fresh)
    }

    /// The keys of session `u` whose privacy is `private`.
    fn keys_of(&self, u: u128, private: bool) -> (r: Vec<String>)
        requires
            self.wf(),
        ensures
            forall|q: Seq<char>| #[trigger] listed(r@, q) <==> (
                self@.keys.contains_key(q) && self@.keys[q].uuid == u && self@.keys[q].is_private
                    == private),
    {
        let ghost es = self.key_to_session.entries();
        let mut out: Vec<String> = Vec::new();
        let mut i: usize = 0;
        while i < self.key_to_session.len()
            invariant
                i <= es.len(),
                es == self.key_to_session.entries(),
                self.wf(),
                forall|q: Seq<char>| #[trigger] listed(out@, q) <==> owned_entry(es, i as int, q, u, private),
            decreases es.len() - i,
        {
            let (k, d) = self.key_to_session.entry(i);
            let ghost before = out@;
            if d.uuid == u && d.is_private == private {
                out.push(k.clone());
            }
            assert forall|q: Seq<char>| #[trigger] listed(out@, q) <==> owned_entry(es, i + 1, q, u, private) by {
                if listed(out@, q) {
                    let a = choose|a: int| 0 <= a < out@.len() && #[trigger] out@[a]@ == q;
                    if a < before.len() {
                        assert(before[a]@ == q);
                        assert(listed(before, q));
                    } else {
                        assert(es[i as int].0 == q);
                    }
                }
                if owned_entry(es, i + 1, q, u, private) {
                    let j = choose|j: int| 0 <= j < i + 1 && #[trigger] es[j].0 == q && es[j].1.uuid == u && es[j].1.is_private == private;
                    if j < i {
                        assert(owned_entry(es, i as int, q, u, private));
                        assert(listed(before, q));
                        let a = choose|a: int| 0 <= a < before.len() && #[trigger] before[a]@ == q;
                        assert(out@[a]@ == q);
                    } else {
                        assert(out@[before.len() as int]@ == q);
                    }
                }
            }
            i = i + 1;
        }
        proof {
            assert forall|q: Seq<char>| owned_entry(es, es.len() as int, q, u, private) <==> (
                #[trigger] self@.keys.contains_key(q) && self@.keys[q].uuid == u && self@.keys[q].is_private == private) by {
                if owned_entry(es, es.len() as int, q, u, private) {
                    let j = choose|j: int| 0 <= j < es.len() && #[trigger] es[j].0 == q && es[j].1.uuid == u && es[j].1.is_private == private;
                    self.key_to_session.lemma_entries(j);
                }
                if self@.keys.contains_key(q) {
                    self.key_to_session.lemma_view_has_entry(q);
                    let j = choose|j: int| 0 <= j < es.len() && es[j].0 == q;
                    self.key_to_session.lemma_entries(j);
                }
            }
        }
        out
    }

    /// One connection of session `uuid` ends. At the last one the session's
    /// public keys go at once, its private codes are scheduled to expire
    /// under one new ticket, and the caller learns that the session emptied.
    pub fn remove_client(&mut self, uuid: u128) -> (r: ReleaseOutcome)
        requires
            old(self).wf(),
        ensures
            final(self).wf(),
            final(self)@ == release_spec(old(self)@, uuid),
            r.session_emptied == (old(self)@.counts.contains_key(uuid) && old(self)@.counts[uuid] <= 1),
            !r.session_emptied ==> r.expirations@.len() == 0,
            forall|a: int| 0 <= a < r.expirations@.len() ==> private_of(old(self)@, #[trigger] r.expirations@[a].0@, uuid)
                && r.expirations@[a].1 == old(self)@.next_ticket,
            r.session_emptied ==> forall|k: Seq<char>| #[trigger] private_of(old(self)@, k, uuid) ==> to_expire(
                r.expirations@,
                k,
            ),
    {
        let ghost v = self@;
        let c: u64 = match self.uuid_client_counts.get(&uuid) {
            Some(c) => *c,
            None => return ReleaseOutcome { session_emptied: false, expirations: Vec::new() },
        };
        if c > 1 {
            self.uuid_client_counts.insert(uuid, c - 1);
            assert(self@ == release_spec(v, uuid));
            return ReleaseOutcome { session_emptied: false, expirations: Vec::new() };
        }
        self.uuid_client_counts.remove(&uuid);
        let public_keys = self.keys_of(uuid, false);
        let private_keys = self.keys_of(uuid, true);
        let mut m: usize = 0;
        while m < public_keys.len()
            invariant
                m <= public_keys.len(),
                self.key_to_session.wf(),
                self.expired_private_codes.wf(),
                self.scheduled_expirations.wf(),
                self@.counts == v.counts.remove(uuid),
                self@.expired == v.expired,
                self@.scheduled == v.scheduled,
                self@.next_ticket == v.next_ticket,
                forall|q: Seq<char>| #[trigger] listed(public_keys@, q) <==> public_of(v, q, uuid),
                self@.keys == Map::new(
                    |k: Seq<char>| v.keys.contains_key(k) && !(exists|a: int| 0 <= a < m && #[trigger] public_keys@[a]@ == k),
                    |k: Seq<char>| v.keys[k],
                ),
            decreases public_keys.len() - m,
        {
            let ghost before = self@.keys;
            self.key_to_session.remove(&public_keys[m]);
            proof {
                let nk = Map::new(
                    |k: Seq<char>| v.keys.contains_key(k) && !(exists|a: int| 0 <= a < m + 1 && #[trigger] public_keys@[a]@ == k),
                    |k: Seq<char>| v.keys[k],
                );
                assert forall|k: Seq<char>| #[trigger] self@.keys.contains_key(k) == nk.contains_key(k) by {
                    if exists|a: int| 0 <= a < m + 1 && #[trigger] public_keys@[a]@ == k {
                        let a = choose|a: int| 0 <= a < m + 1 && #[trigger] public_keys@[a]@ == k;
                        if a < m {
                            assert(!before.contains_key(k));
                        }
                    }
                    if exists|a: int| 0 <= a < m && #[trigger] public_keys@[a]@ == k {
                        let a = choose|a: int| 0 <= a < m && #[trigger] public_keys@[a]@ == k;
                        assert(0 <= a < m + 1 && public_keys@[a]@ == k);
                    }
                }
                assert(self@.keys =~= nk);
            }
            m = m + 1;
        }
        proof {
            assert forall|k: Seq<char>| #[trigger] self@.keys.contains_key(k) == release_spec(v, uuid).keys.contains_key(k) by {
                assert(listed(public_keys@, k) == public_of(v, k, uuid));
            }
            assert(self@.keys =~= release_spec(v, uuid).keys);
        }
        let ticket = self.next_ticket;
        let mut expirations: Vec<(String, u64)> = Vec::new();
        let mut p: usize = 0;
        while p < private_keys.len()
            invariant
                p <= private_keys.len(),
                self.key_to_session.wf(),
                self.expired_private_codes.wf(),
                self.scheduled_expirations.wf(),
                ticket == v.next_ticket,
                self@.counts == v.counts.remove(uuid),
                self@.expired == v.expired,
                self@.keys == release_spec(v, uuid).keys,
                self@.next_ticket == v.next_ticket,
                forall|q: Seq<char>| #[trigger] listed(private_keys@, q) <==> private_of(v, q, uuid),
                expirations@.len() == p,
                forall|a: int| 0 <= a < p ==> #[trigger] expirations@[a].0@ == private_keys@[a]@ && expirations@[a].1 == ticket,
                self@.scheduled == Map::new(
                    |k: Seq<char>| v.scheduled.contains_key(k) || (exists|a: int| 0 <= a < p && #[trigger] private_keys@[a]@ == k),
                    |k: Seq<char>| if (exists|a: int| 0 <= a < p && #[trigger] private_keys@[a]@ == k) { ticket } else { v.scheduled[k] },
                ),
            decreases private_keys.len() - p,
        {
            let ghost before = self@.scheduled;
            self.scheduled_expirations.insert(private_keys[p].clone(), ticket);
            expirations.push((private_keys[p].clone(), ticket));
            proof {
                let ns = Map::new(
                    |k: Seq<char>| v.scheduled.contains_key(k) || (exists|a: int| 0 <= a < p + 1 && #[trigger] private_keys@[a]@ == k),
                    |k: Seq<char>| if (exists|a: int| 0 <= a < p + 1 && #[trigger] private_keys@[a]@ == k) { ticket } else { v.scheduled[k] },
                );
                assert forall|k: Seq<char>| #[trigger] self@.scheduled.contains_key(k) == ns.contains_key(k) by {
                    if exists|a: int| 0 <= a < p + 1 && #[trigger] private_keys@[a]@ == k {
                        let a = choose|a: int| 0 <= a < p + 1 && #[trigger] private_keys@[a]@ == k;
                        if a < p {
                            assert(before.contains_key(k));
                        }
                    }
                    if exists|a: int| 0 <= a < p && #[trigger] private_keys@[a]@ == k {
                        let a = choose|a: int| 0 <= a < p && #[trigger] private_keys@[a]@ == k;
                        assert(0 <= a < p + 1 && private_keys@[a]@ == k);
                    }
                }
                assert forall|k: Seq<char>| #[trigger] self@.scheduled.contains_key(k) implies self@.scheduled[k] == ns[k] by {
                    if exists|a: int| 0 <= a < p && #[trigger] private_keys@[a]@ == k {
                        let a = choose|a: int| 0 <= a < p && #[trigger] private_keys@[a]@ == k;
                        assert(0 <= a < p + 1 && private_keys@[a]@ == k);
                    }
                    if k != private_keys@[p as int]@ {
                        if exists|a: int| 0 <= a < p + 1 && #[trigger] private_keys@[a]@ == k {
                            let a = choose|a: int| 0 <= a < p + 1 && #[trigger] private_keys@[a]@ == k;
                            assert(a < p);
                        }
                    }
                }
                assert(self@.scheduled =~= ns);
            }
            p = p + 1;
        }
        if private_keys.len() > 0 {
            self.next_ticket = if self.next_ticket < u64::MAX {
                self.next_ticket + 1
            } else {
                self.next_ticket
            };
            proof {
                assert(listed(private_keys@, private_keys@[0]@));
                assert(private_of(v, private_keys@[0]@, uuid));
            }
        } else {
            proof {
                if exists|k: Seq<char>| private_of(v, k, uuid) {
                    let k = choose|k: Seq<char>| private_of(v, k, uuid);
                    assert(listed(private_keys@, k));
                    let a = choose|a: int| 0 <= a < private_keys@.len() && #[trigger] private_keys@[a]@ == k;
                }
            }
        }
        proof {
            assert forall|k: Seq<char>| #[trigger] self@.scheduled.contains_key(k) == release_spec(v, uuid).scheduled.contains_key(k) by {
                assert(listed(private_keys@, k) == private_of(v, k, uuid));
            }
            assert forall|k: Seq<char>| #[trigger] self@.scheduled.contains_key(k) implies self@.scheduled[k] == release_spec(v, uuid).scheduled[k] by {
                assert(listed(private_keys@, k) == private_of(v, k, uuid));
            }
            assert(self@.scheduled =~= release_spec(v, uuid).scheduled);
            assert(self@ == release_spec(v, uuid));
            assert forall|k: Seq<char>| #[trigger] private_of(v, k, uuid) implies to_expire(expirations@, k) by {
                assert(listed(private_keys@, k));
                let a = choose|a: int| 0 <= a < private_keys@.len() && #[trigger] private_keys@[a]@ == k;
                assert(expirations@[a].0@ == k);
            }
            assert forall|a: int| 0 <= a < expirations@.len() implies private_of(v, #[trigger] expirations@[a].0@, uuid)
                && expirations@[a].1 == v.next_ticket by {
                assert(expirations@[a].0@ == private_keys@[a]@);
                assert(listed(private_keys@, private_keys@[a]@));
            }
        }
        ReleaseOutcome { session_emptied: true, expirations }
    }

    /// Registers `code` as private session `uuid`, with no connection yet. A
    /// code that is in use or has expired is refused.
    pub fn register_private_code(&mut self, code: &str, uuid: u128) -> (r: bool)
        requires
            old(self).wf(),
        ensures
            final(self).wf(),
            r == (!old(self)@.keys.contains_key(code@) && !old(self)@.expired.contains(code@)),
            r ==> final(self)@ == (RegistryView {
                keys: old(self)@.keys.insert(code@, SessionData { uuid, is_private: true }),
                ..old(self)@
            }),
            !r ==> final(self)@ == old(self)@,
    {
        let k = String::from_str(code);
        if self.key_to_session.contains_key(&k) || self.expired_private_codes.contains_key(&k) {
            return false;
        }
        self.key_to_session.insert(k, SessionData { uuid, is_private: true });
        true
    }

    /// Creates a private session under a new random code of `length`
    /// characters of the safe alphabet, with no connection yet. Gives up with
    /// `InternalServerError` when a few codes in a row are all taken.
    pub fn create_private_code(&mut self, length: usize) -> (r: Result<String, ServerError>)
        requires
            old(self).wf(),
        ensures
            final(self).wf(),
            (forall|c: Seq<char>|
                c.len() == length ==> !old(self)@.keys.contains_key(c) && !old(self)@.expired.contains(c)) ==> r is Ok,
            r is Err ==> r == Err::<String, ServerError>(ServerError::InternalServerError) && final(self)@ == old(self)@,
            r is Ok ==> {
                let c = r->Ok_0@;
                &&& c.len() == length
                &&& forall|i: int| 0 <= i < length ==> SAFE_CHARSET@.contains(#[trigger] c[i])
                &&& !old(self)@.keys.contains_key(c)
                &&& !old(self)@.expired.contains(c)
                &&& final(self)@.keys.contains_key(c)
                &&& final(self)@.keys[c].is_private
                &&& final(self)@ == (RegistryView {
                    keys: old(self)@.keys.insert(c, final(self)@.keys[c]),
                    ..old(self)@
                })
            },
    {
        let mut attempt: usize = 0;
        while attempt < 8
            invariant
                self.wf(),
                self@ == old(self)@,
                attempt > 0 ==> exists|c: Seq<char>|
                    c.len() == length && (#[trigger] old(self)@.keys.contains_key(c) || old(self)@.expired.contains(c)),
            decreases 8 - attempt,
        {
            let code = SessionStore::generate_random_code(length);
            let uuid = new_session_id();
            if self.register_private_code(code.as_str(), uuid) {
                return Ok(code);
            }
            assert(old(self)@.keys.contains_key(code@) || old(self)@.expired.contains(code@));
            attempt = attempt + 1;
        }
        Err(ServerError::InternalServerError)
    }

    /// Opens a connection on private code `code`: an empty (or blank) code is
    /// a bad request, and a code that is unknown or has expired is not found.
    pub fn open_private_session(&mut self, code: &str) -> (r: Result<u128, ServerError>)
        requires
            old(self).wf(),
        ensures
            final(self).wf(),
            trim(code@).len() == 0 ==> final(self)@ == old(self)@ && (r matches Err(ServerError::BadRequest(m))
                && m@ == "Session code cannot be empty"@),
            trim(code@).len() > 0 ==> {
                let (v, res) = resolve_spec(old(self)@, code@, true, true, 0);
                &&& final(self)@ == v
                &&& res is Ok ==> r == Ok::<u128, ServerError>(res->Ok_0)
                &&& res is Err ==> r == Err::<u128, ServerError>(ServerError::NotFound)
            },
    {
        let t = trimmed(code);
        if t.as_str().is_empty() {
            return Err(ServerError::BadRequest(String::from_str("Session code cannot be empty")));
        }
        match self.resolve(code, true, true, 0) {
            Ok(u) => Ok(u),
            Err(_) => Err(ServerError::NotFound),
        }
    }

    /// Opens a connection on the public key `key`, creating its session when
    /// there is none.
    pub fn open_public_session(&mut self, key: &str) -> (r: u128)
        requires
            old(self).wf(),
        ensures
            final(self).wf(),
            exists|fresh: u128| (final(self)@, Ok::<u128, ResolveError>(r)) == resolve_spec(old(self)@, key@, false, false, fresh),
    {
        let fresh = new_session_id();
        match self.resolve(key, false, false, fresh) {
            Ok(u) => u,
            Err(_) => fresh,
        }
    }

    /// A random code of `length` characters of the safe alphabet.
    pub fn generate_random_code(length: usize) -> (r: String)
        ensures
            r@.len() == length,
            forall|i: int| 0 <= i < length ==> SAFE_CHARSET@.contains(#[trigger] r@[i]),
    {
        let charset = "ABCDEFGHJKLMNPQRSTUVWXYZabcdefghijkmnopqrstuvwxyz23456789";
        proof {
            reveal_strlit("ABCDEFGHJKLMNPQRSTUVWXYZabcdefghijkmnopqrstuvwxyz23456789");
        }
        assert(charset@.len() == 57);
        assert(charset@ == SAFE_CHARSET@);
        let mut out = String::new();
        let mut i: usize = 0;
        while i < length
            invariant
                i <= length,
                charset@ == SAFE_CHARSET@,
                charset@.len() == 57,
                out@.len() == i,
                forall|q: int| 0 <= q < i ==> charset@.contains(#[trigger] out@[q]),
            decreases length - i,
        {
            let pick = random_in_range(0, 57) as usize;
            let c = charset.substring_char(pick, pick + 1);
            let ghost before = out@;
            out.append(c);
            assert(out@[i as int] == charset@[pick as int]);
            assert(forall|q: int| 0 <= q < i ==> out@[q] == before[q]);
            i = i + 1;
        }
        out
    }

    /// The timer of `code` under `ticket` fires: while that ticket is still
    /// scheduled the code leaves the registry and is marked expired.
    pub fn expire(&mut self, code: &str, ticket: u64) -> (r: bool)
        requires
            old(self).wf(),
        ensures
            final(self).wf(),
            final(self)@ == expire_spec(old(self)@, code@, ticket),
            r == (old(self)@.scheduled.contains_key(code@) && old(self)@.scheduled[code@] == ticket),
    {
        let k = String::from_str(code);
        match self.scheduled_expirations.get(&k) {
            Some(t) => {
                if t != ticket {
                    return false;
                }
                self.scheduled_expirations.remove(&k);
                self.key_to_session.remove(&k);
                self.expired_private_codes.insert(k, true);
                assert(self@.expired =~= old(self)@.expired.insert(code@));
                assert(self@ == expire_spec(old(self)@, code@, ticket));
                true
            },
            None => false,
        }
    }
}

} // verus!
