//! The address-keyed registry of public sessions: each client address leads
//! to one session, which lives while clients use it.
use std::collections::HashMap;
use vstd::prelude::*;
use vstd::string::StringExecFns;

use crate::outside::new_session_id;
use crate::session_store::{count_of, incr};
use crate::text_map::TextMap;

verus! {

broadcast use vstd::std_specs::hash::group_hash_axioms;

pub ghost struct ManagerView {
    pub ips: Map<Seq<char>, u128>,
    pub counts: Map<u128, u64>,
}

/// The map of `ips` without the addresses of session `u`.
pub open spec fn without_session(ips: Map<Seq<char>, u128>, u: u128) -> Map<Seq<char>, u128> {
    Map::new(|k: Seq<char>| ips.contains_key(k) && ips[k] != u, |k: Seq<char>| ips[k])
}

pub struct SessionManager {
    ip_to_uuid: TextMap<u128>,
    uuid_to_client_count: HashMap<u128, u64>,
}

impl View for SessionManager {
    type V = ManagerView;

    closed spec fn view(&self) -> ManagerView {
        ManagerView { ips: self.ip_to_uuid.view(), counts: self.uuid_to_client_count@ }
    }
}

impl SessionManager {
    pub closed spec fn wf(&self) -> bool {
        self.ip_to_uuid.wf()
    }

    pub fn new() -> (r: Self)
        ensures
            r.wf(),
            r@.ips == Map::<Seq<char>, u128>::empty(),
            r@.counts == Map::<u128, u64>::empty(),
    {
        SessionManager { ip_to_uuid: TextMap::new(), uuid_to_client_count: HashMap::new() }
    }

    /// The session of address `ip`, with `fresh` as a new session's
    /// identifier when `ip` has none; the session gains one client.
    pub fn get_or_create_uuid_with(&mut self, ip: &str, fresh: u128) -> (r: u128)
        requires
            old(self).wf(),
        ensures
            final(self).wf(),
            r == (if old(self)@.ips.contains_key(ip@) {
                old(self)@.ips[ip@]
            } else {
                fresh
            }),
            final(self)@.ips == old(self)@.ips.insert(ip@, r),
            final(self)@.counts == old(self)@.counts.insert(r, incr(count_of(old(self)@.counts, r))),
    {
        let key = String::from_str(ip);
        let uuid = match self.ip_to_uuid.get(&key) {
            Some(u) => u,
            None => fresh,
        };
        self.ip_to_uuid.insert(key, uuid);
        let c: u64 = match self.uuid_to_client_count.get(&uuid) {
            Some(c) => *c,
            None => 0,
        };
        let n: u64 = if c < u64::MAX {
            c + 1
        } else {
            c
        };
        self.uuid_to_client_count.insert(uuid, n);
        assert(old(self)@.ips.contains_key(ip@) ==> old(self)@.ips.insert(ip@, uuid) =~= old(self)@.ips);
        uuid
    }

    /// `get_or_create_uuid_with` under a new random identifier.
    pub fn get_or_create_uuid(&mut self, ip: &str) -> (r: u128)
        requires
            old(self).wf(),
        ensures
            final(self).wf(),
            old(self)@.ips.contains_key(ip@) ==> r == old(self)@.ips[ip@],
            final(self)@.ips == old(self)@.ips.insert(ip@, r),
            final(self)@.counts == old(self)@.counts.insert(r, incr(count_of(old(self)@.counts, r))),
    {
        let fresh = new_session_id();
        self.get_or_create_uuid_with(ip, fresh)
    }

    /// One client of session `uuid` leaves; with the last one the session
    /// and its addresses go. A session with no client count is left alone.
    pub fn remove_client(&mut self, uuid: u128)
        requires
            old(self).wf(),
        ensures
            final(self).wf(),
            !(old(self)@.counts.contains_key(uuid) && old(self)@.counts[uuid] > 0) ==> final(self)@ == old(self)@,
            old(self)@.counts.contains_key(uuid) && old(self)@.counts[uuid] > 1 ==> final(self)@ == (ManagerView {
                counts: old(self)@.counts.insert(uuid, (old(self)@.counts[uuid] - 1) as u64),
                ..old(self)@
            }),
            old(self)@.counts.contains_key(uuid) && old(self)@.counts[uuid] == 1 ==> final(self)@ == (ManagerView {
                ips: without_session(old(self)@.ips, uuid),
                counts: old(self)@.counts.remove(uuid),
            }),
    {
        let c: u64 = match self.uuid_to_client_count.get(&uuid) {
            Some(c) => *c,
            None => return,
        };
        if c == 0 {
            return;
        }
        if c > 1 {
            self.uuid_to_client_count.insert(uuid, c - 1);
            return;
        }
        self.uuid_to_client_count.remove(&uuid);
        self.ip_to_uuid.remove_value(uuid);
        assert(self@.ips =~= without_session(old(self)@.ips, uuid));
    }

    /// Drops session `uuid` and its addresses, whatever its client count.
    pub fn force_remove_uuid(&mut self, uuid: u128)
        requires
            old(self).wf(),
        ensures
            final(self).wf(),
            final(self)@.ips == without_session(old(self)@.ips, uuid),
            final(self)@.counts == old(self)@.counts.remove(uuid),
    {
        self.uuid_to_client_count.remove(&uuid);
        self.ip_to_uuid.remove_value(uuid);
        assert(self@.ips =~= without_session(old(self)@.ips, uuid));
    }
}

} // verus!
