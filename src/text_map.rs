//! A small table keyed by text, kept as a vector of entries with distinct keys.
//!
//! vstd's model of `HashMap` and `HashSet` applies only to key types that
//! obey its hash-table key model, which it grants to integer types (and
//! boxed integers) but not to `String`: with a `String` key the calls are
//! accepted but nothing about the contents can be proved. The registries
//! keyed by text therefore keep their entries here, with the distinctness
//! of keys as the table's invariant and a `Map` as its view.
use vstd::prelude::*;

verus! {

pub struct TextMap<V> {
    entries: Vec<(String, V)>,
}

/// The keys of `es` are distinct.
pub open spec fn distinct_keys<V>(es: Seq<(Seq<char>, V)>) -> bool {
    forall|a: int, b: int| 0 <= a < b < es.len() ==> es[a].0 != es[b].0
}

/// The map that the entries `es` describe.
pub open spec fn entries_map<V>(es: Seq<(Seq<char>, V)>) -> Map<Seq<char>, V> {
    Map::new(
        |k: Seq<char>| exists|i: int| 0 <= i < es.len() && es[i].0 == k,
        |k: Seq<char>| es[choose|i: int| 0 <= i < es.len() && es[i].0 == k].1,
    )
}

proof fn lemma_entry_value<V>(es: Seq<(Seq<char>, V)>, i: int)
    requires
        distinct_keys(es),
        0 <= i < es.len(),
    ensures
        entries_map(es).contains_key(es[i].0),
        entries_map(es)[es[i].0] == es[i].1,
{
    let k = es[i].0;
    assert(exists|j: int| 0 <= j < es.len() && es[j].0 == k);
    let j = choose|j: int| 0 <= j < es.len() && es[j].0 == k;
    if j != i {
        if j < i {
            assert(es[j].0 != es[i].0);
        } else {
            assert(es[i].0 != es[j].0);
        }
    }
}

impl<V> TextMap<V> {
    pub closed spec fn entries(&self) -> Seq<(Seq<char>, V)> {
        self.entries@.map_values(|e: (String, V)| (e.0@, e.1))
    }

    pub open spec fn view(&self) -> Map<Seq<char>, V> {
        entries_map(self.entries())
    }

    pub open spec fn wf(&self) -> bool {
        distinct_keys(self.entries())
    }

    pub fn new() -> (r: Self)
        ensures
            r.wf(),
            r.view() == Map::<Seq<char>, V>::empty(),
    {
        let r = TextMap { entries: Vec::new() };
        assert(r.view() =~= Map::<Seq<char>, V>::empty());
        r
    }

    pub fn len(&self) -> (r: usize)
        ensures
            r == self.entries().len(),
    {
        self.entries.len()
    }

    pub proof fn lemma_entries(&self, i: int)
        requires
            self.wf(),
            0 <= i < self.entries().len(),
        ensures
            self.view().contains_key(self.entries()[i].0),
            self.view()[self.entries()[i].0] == self.entries()[i].1,
    {
        lemma_entry_value(self.entries(), i);
    }

    pub proof fn lemma_view_has_entry(&self, k: Seq<char>)
        requires
            self.view().contains_key(k),
        ensures
            exists|i: int| 0 <= i < self.entries().len() && self.entries()[i].0 == k,
    {
    }

    pub fn position(&self, key: &String) -> (r: Option<usize>)
        requires
            self.wf(),
        ensures
            r is Some ==> r->0 < self.entries().len() && self.entries()[r->0 as int].0 == key@,
            r is None ==> !self.view().contains_key(key@),
    {
        let mut i: usize = 0;
        while i < self.entries.len()
            invariant
                i <= self.entries.len(),
                forall|j: int| 0 <= j < i ==> self.entries()[j].0 != key@,
            decreases self.entries.len() - i,
        {
            if self.entries[i].0 == *key {
                return Some(i);
            }
            i = i + 1;
        }
        None
    }

    /// Sets `key` to `value`, in place when the key is there, at the end otherwise.
    pub fn insert(&mut self, key: String, value: V)
        requires
            old(self).wf(),
        ensures
            final(self).wf(),
            final(self).view() == old(self).view().insert(key@, value),
    {
        let ghost es = self.entries();
        let ghost k = key@;
        match self.position(&key) {
            Some(i) => {
                self.entries[i].1 = value;
                proof {
                    let ns = es.update(i as int, (k, value));
                    assert(self.entries() =~= ns);
                    assert forall|a: int, b: int| 0 <= a < b < ns.len() implies ns[a].0 != ns[b].0 by {
                        assert(es[a].0 != es[b].0);
                    }
                    assert forall|q: Seq<char>| #[trigger] self.view().contains_key(q) == old(self).view().insert(k, value).contains_key(q) by {
                        if q != k && old(self).view().contains_key(q) {
                            let j = choose|j: int| 0 <= j < es.len() && es[j].0 == q;
                            assert(ns[j].0 == q);
                        }
                        if q == k {
                            assert(ns[i as int].0 == q);
                        }
                        if self.view().contains_key(q) {
                            let j = choose|j: int| 0 <= j < ns.len() && ns[j].0 == q;
                            if j != i {
                                assert(es[j].0 == q);
                            }
                        }
                    }
                    assert forall|q: Seq<char>| #[trigger] self.view().contains_key(q) implies self.view()[q] == old(self).view().insert(k, value)[q] by {
                        let j = choose|j: int| 0 <= j < ns.len() && ns[j].0 == q;
                        lemma_entry_value(ns, j);
                        if j != i {
                            lemma_entry_value(es, j);
                        }
                    }
                    assert(self.view() =~= old(self).view().insert(k, value));
                }
            },
            None => {
                self.entries.push((key, value));
                proof {
                    let ns = es.push((k, value));
                    assert(self.entries() =~= ns);
                    assert forall|a: int, b: int| 0 <= a < b < ns.len() implies ns[a].0 != ns[b].0 by {
                        if b == es.len() {
                            if es[a].0 == k {
                                assert(old(self).view().contains_key(k));
                            }
                        } else {
                            assert(es[a].0 != es[b].0);
                        }
                    }
                    assert forall|q: Seq<char>| #[trigger] self.view().contains_key(q) == old(self).view().insert(k, value).contains_key(q) by {
                        if q != k && old(self).view().contains_key(q) {
                            let j = choose|j: int| 0 <= j < es.len() && es[j].0 == q;
                            assert(ns[j].0 == q);
                        }
                        if q == k {
                            assert(ns[es.len() as int].0 == q);
                        }
                        if self.view().contains_key(q) && q != k {
                            let j = choose|j: int| 0 <= j < ns.len() && ns[j].0 == q;
                            assert(es[j].0 == q);
                        }
                    }
                    assert forall|q: Seq<char>| #[trigger] self.view().contains_key(q) implies self.view()[q] == old(self).view().insert(k, value)[q] by {
                        let j = choose|j: int| 0 <= j < ns.len() && ns[j].0 == q;
                        lemma_entry_value(ns, j);
                        if j != es.len() {
                            lemma_entry_value(es, j);
                        }
                    }
                    assert(self.view() =~= old(self).view().insert(k, value));
                }
            },
        }
    }

    /// Drops `key`, if it is there.
    pub fn remove(&mut self, key: &String)
        requires
            old(self).wf(),
        ensures
            final(self).wf(),
            final(self).view() == old(self).view().remove(key@),
    {
        let _ = self.take(key);
    }

    /// Takes the value of `key` out, if it is there.
    pub fn take(&mut self, key: &String) -> (r: Option<V>)
        requires
            old(self).wf(),
        ensures
            final(self).wf(),
            final(self).view() == old(self).view().remove(key@),
            r is Some <==> old(self).view().contains_key(key@),
            r is Some ==> r->0 == old(self).view()[key@],
    {
        let ghost es = self.entries();
        let ghost k = key@;
        match self.position(key) {
            Some(i) => {
                proof {
                    self.lemma_entries(i as int);
                }
                let (_, value) = self.entries.remove(i);
                proof {
                    let ns = es.remove(i as int);
                    assert(self.entries() =~= ns);
                    assert forall|a: int, b: int| 0 <= a < b < ns.len() implies ns[a].0 != ns[b].0 by {
                        if b < i {
                            assert(es[a].0 != es[b].0);
                        } else if a < i {
                            assert(es[a].0 != es[b + 1].0);
                        } else {
                            assert(es[a + 1].0 != es[b + 1].0);
                        }
                    }
                    assert forall|q: Seq<char>| #[trigger] self.view().contains_key(q) == old(self).view().remove(k).contains_key(q) by {
                        if q != k && old(self).view().contains_key(q) {
                            let j = choose|j: int| 0 <= j < es.len() && es[j].0 == q;
                            if j < i {
                                assert(ns[j].0 == q);
                            } else {
                                assert(j != i);
                                assert(ns[j - 1].0 == q);
                            }
                        }
                        if self.view().contains_key(q) {
                            let j = choose|j: int| 0 <= j < ns.len() && ns[j].0 == q;
                            if j < i {
                                assert(es[j].0 == q);
                                assert(es[j].0 != es[i as int].0);
                            } else {
                                assert(es[j + 1].0 == q);
                                assert(es[i as int].0 != es[j + 1].0);
                            }
                        }
                    }
                    assert forall|q: Seq<char>| #[trigger] self.view().contains_key(q) implies self.view()[q] == old(self).view().remove(k)[q] by {
                        let j = choose|j: int| 0 <= j < ns.len() && ns[j].0 == q;
                        lemma_entry_value(ns, j);
                        if j < i {
                            lemma_entry_value(es, j);
                        } else {
                            lemma_entry_value(es, j + 1);
                        }
                    }
                    assert(self.view() =~= old(self).view().remove(k));
                }
                Some(value)
            },
            None => {
                assert(self.view() =~= old(self).view().remove(k));
                None
            },
        }
    }
}

impl<V: Copy> TextMap<V> {
    /// The key and value of entry `i`.
    pub fn entry(&self, i: usize) -> (r: (&String, V))
        requires
            i < self.entries().len(),
        ensures
            r.0@ == self.entries()[i as int].0,
            r.1 == self.entries()[i as int].1,
    {
        (&self.entries[i].0, self.entries[i].1)
    }

    pub fn get(&self, key: &String) -> (r: Option<V>)
        requires
            self.wf(),
        ensures
            r is Some <==> self.view().contains_key(key@),
            r is Some ==> r->0 == self.view()[key@],
    {
        match self.position(key) {
            Some(i) => {
                proof {
                    self.lemma_entries(i as int);
                }
                Some(self.entries[i].1)
            },
            None => None,
        }
    }

    pub fn contains_key(&self, key: &String) -> (r: bool)
        requires
            self.wf(),
        ensures
            r == self.view().contains_key(key@),
    {
        self.get(key).is_some()
    }

}

/// Some text of `xs` is `q`.
pub open spec fn listed(xs: Seq<String>, q: Seq<char>) -> bool {
    exists|a: int| 0 <= a < xs.len() && #[trigger] xs[a]@ == q
}

/// One of the first `n` entries has key `q` and value `u`.
pub open spec fn holds_entry(es: Seq<(Seq<char>, u128)>, n: int, q: Seq<char>, u: u128) -> bool {
    exists|j: int| 0 <= j < n && #[trigger] es[j].0 == q && es[j].1 == u
}

impl TextMap<u128> {
    /// The keys whose value is `u`.
    pub fn keys_with_value(&self, u: u128) -> (r: Vec<String>)
        requires
            self.wf(),
        ensures
            forall|q: Seq<char>| #[trigger] listed(r@, q) <==> (self.view().contains_key(q) && self.view()[q] == u),
    {
        let ghost es = self.entries();
        let mut out: Vec<String> = Vec::new();
        let mut i: usize = 0;
        while i < self.entries.len()
            invariant
                i <= es.len(),
                es == self.entries(),
                self.wf(),
                forall|q: Seq<char>| #[trigger] listed(out@, q) <==> holds_entry(es, i as int, q, u),
            decreases es.len() - i,
        {
            let ghost before = out@;
            if self.entries[i].1 == u {
                out.push(self.entries[i].0.clone());
            }
            assert forall|q: Seq<char>| #[trigger] listed(out@, q) <==> holds_entry(es, i + 1, q, u) by {
                if listed(out@, q) {
                    let a = choose|a: int| 0 <= a < out@.len() && #[trigger] out@[a]@ == q;
                    if a < before.len() {
                        assert(before[a]@ == q);
                        assert(listed(before, q));
                    } else {
                        assert(es[i as int].0 == q);
                    }
                }
                if holds_entry(es, i + 1, q, u) {
                    let j = choose|j: int| 0 <= j < i + 1 && #[trigger] es[j].0 == q && es[j].1 == u;
                    if j < i {
                        assert(holds_entry(es, i as int, q, u));
                        assert(listed(before, q));
                        let a = choose|a: int| 0 <= a < before.len() && #[trigger] before[a]@ == q;
                        assert(out@[a]@ == q);
                    } else {
                        assert(out@[before.len() as int]@ == q);
                    }
                }
            }
            i = i + 1;
        }
        proof {
            assert forall|q: Seq<char>| holds_entry(es, es.len() as int, q, u) <==> (
                #[trigger] self.view().contains_key(q) && self.view()[q] == u) by {
                if holds_entry(es, es.len() as int, q, u) {
                    let j = choose|j: int| 0 <= j < es.len() && #[trigger] es[j].0 == q && es[j].1 == u;
                    self.lemma_entries(j);
                }
                if self.view().contains_key(q) {
                    let j = choose|j: int| 0 <= j < es.len() && es[j].0 == q;
                    self.lemma_entries(j);
                }
            }
        }
        out
    }

    /// Drops every key whose value is `u`.
    pub fn remove_value(&mut self, u: u128)
        requires
            old(self).wf(),
        ensures
            final(self).wf(),
            final(self).view() == Map::new(
                |k: Seq<char>| old(self).view().contains_key(k) && old(self).view()[k] != u,
                |k: Seq<char>| old(self).view()[k],
            ),
    {
        let ghost v = self.view();
        let keys = self.keys_with_value(u);
        let mut m: usize = 0;
        while m < keys.len()
            invariant
                m <= keys.len(),
                self.wf(),
                forall|q: Seq<char>| #[trigger] listed(keys@, q) <==> (v.contains_key(q) && v[q] == u),
                self.view() == Map::new(
                    |k: Seq<char>| v.contains_key(k) && !(exists|a: int| 0 <= a < m && #[trigger] keys@[a]@ == k),
                    |k: Seq<char>| v[k],
                ),
            decreases keys.len() - m,
        {
            let ghost before = self.view();
            self.remove(&keys[m]);
            proof {
                let nk = Map::new(
                    |k: Seq<char>| v.contains_key(k) && !(exists|a: int| 0 <= a < m + 1 && #[trigger] keys@[a]@ == k),
                    |k: Seq<char>| v[k],
                );
                assert forall|k: Seq<char>| #[trigger] self.view().contains_key(k) == nk.contains_key(k) by {
                    if exists|a: int| 0 <= a < m + 1 && #[trigger] keys@[a]@ == k {
                        let a = choose|a: int| 0 <= a < m + 1 && #[trigger] keys@[a]@ == k;
                        if a < m {
                            assert(!before.contains_key(k));
                        }
                    }
                    if exists|a: int| 0 <= a < m && #[trigger] keys@[a]@ == k {
                        let a = choose|a: int| 0 <= a < m && #[trigger] keys@[a]@ == k;
                        assert(0 <= a < m + 1 && keys@[a]@ == k);
                    }
                }
                assert(self.view() =~= nk);
            }
            m = m + 1;
        }
        proof {
            let target = Map::new(
                |k: Seq<char>| v.contains_key(k) && v[k] != u,
                |k: Seq<char>| v[k],
            );
            assert forall|k: Seq<char>| #[trigger] self.view().contains_key(k) == target.contains_key(k) by {
                assert(listed(keys@, k) == (v.contains_key(k) && v[k] == u));
            }
            assert(self.view() =~= target);
        }
    }
}

} // verus!
