use std::collections::HashMap;
use vstd::prelude::*;

use crate::error::ServerError;

verus! {

broadcast use vstd::std_specs::hash::group_hash_axioms;

/// The concatenation of chunks `0..n` of `chunks`.
pub open spec fn concat_chunks(chunks: Map<usize, Vec<u8>>, n: nat) -> Seq<u8>
    decreases n,
{
    if n == 0 {
        Seq::empty()
    } else {
        concat_chunks(chunks, (n - 1) as nat) + chunks[(n - 1) as usize]@
    }
}

/// Every index `0..n` holds a chunk.
pub open spec fn has_all_chunks(chunks: Map<usize, Vec<u8>>, n: nat) -> bool {
    forall|i: usize| (i as nat) < n ==> #[trigger] chunks.contains_key(i)
}

/// The chunk map that a fresh reassembler of `total` chunks holds after
/// `add_chunk` was called with each pair of `adds`, in order.
pub open spec fn after_adds(total: nat, adds: Seq<(usize, Vec<u8>)>) -> Map<usize, Vec<u8>>
    decreases adds.len(),
{
    if adds.len() == 0 {
        Map::empty()
    } else {
        let prev = after_adds(total, adds.drop_last());
        let (i, d) = adds.last();
        if (i as nat) < total {
            prev.insert(i, d)
        } else {
            prev
        }
    }
}

/// The pairs that put chunk `i` of `ds` at index `i`, for every `i`.
pub open spec fn indexed(ds: Seq<Vec<u8>>) -> Seq<(usize, Vec<u8>)> {
    Seq::new(ds.len(), |i: int| (i as usize, ds[i]))
}

/// The bytes of `ds`, one after the other.
pub open spec fn concat_all(ds: Seq<Vec<u8>>) -> Seq<u8>
    decreases ds.len(),
{
    if ds.len() == 0 {
        Seq::empty()
    } else {
        concat_all(ds.drop_last()) + ds.last()@
    }
}

/// Some pair of `adds` carries index `i`.
pub open spec fn delivered(adds: Seq<(usize, Vec<u8>)>, i: usize) -> bool {
    exists|j: int| 0 <= j < adds.len() && #[trigger] adds[j].0 == i
}

/// An upload can be reassembled exactly when every index below the total was
/// delivered at least once, whatever else was delivered and in whatever order.
pub proof fn lemma_complete_iff_every_index_delivered(total: nat, adds: Seq<(usize, Vec<u8>)>)
    ensures
        has_all_chunks(after_adds(total, adds), total) <==> forall|i: usize|
            (i as nat) < total ==> #[trigger] delivered(adds, i),
{
    lemma_after_adds_keys(total, adds);
    let m = after_adds(total, adds);
    if has_all_chunks(m, total) {
        assert forall|i: usize| (i as nat) < total implies #[trigger] delivered(adds, i) by {
            assert(m.contains_key(i));
        }
    }
}

proof fn lemma_after_adds_keys(total: nat, adds: Seq<(usize, Vec<u8>)>)
    ensures
        forall|i: usize| #[trigger]
            after_adds(total, adds).contains_key(i) <==> (i as nat) < total && delivered(adds, i),
    decreases adds.len(),
{
    if adds.len() > 0 {
        let prev = adds.drop_last();
        let last = adds.last();
        lemma_after_adds_keys(total, prev);
        assert forall|i: usize| delivered(adds, i) <==> delivered(prev, i) || last.0 == i by {
            if delivered(prev, i) {
                let j = choose|j: int| 0 <= j < prev.len() && #[trigger] prev[j].0 == i;
                assert(adds[j].0 == i);
            }
            if last.0 == i {
                assert(adds[adds.len() - 1].0 == i);
            }
            if delivered(adds, i) {
                let j = choose|j: int| 0 <= j < adds.len() && #[trigger] adds[j].0 == i;
                if j < adds.len() - 1 {
                    assert(prev[j].0 == i);
                }
            }
        }
        let pm = after_adds(total, prev);
        if (last.0 as nat) < total {
            assert(after_adds(total, adds) == pm.insert(last.0, last.1));
        } else {
            assert(after_adds(total, adds) == pm);
        }
    } else {
        assert(after_adds(total, adds) == Map::<usize, Vec<u8>>::empty());
    }
}

/// Delivering chunk `i` at index `i` for every `i` below the total, in order,
/// reassembles to the chunks concatenated.
pub proof fn lemma_in_order_delivery_concatenates(ds: Seq<Vec<u8>>)
    requires
        ds.len() <= usize::MAX,
    ensures
        has_all_chunks(after_adds(ds.len(), indexed(ds)), ds.len()),
        concat_chunks(after_adds(ds.len(), indexed(ds)), ds.len()) == concat_all(ds),
{
    let n = ds.len();
    lemma_indexed_map(n, ds, n);
    assert(indexed(ds).subrange(0, n as int) == indexed(ds));
    lemma_concat_prefix(after_adds(n, indexed(ds)), ds, n);
    assert(ds.subrange(0, n as int) == ds);
}

proof fn lemma_indexed_map(total: nat, ds: Seq<Vec<u8>>, k: nat)
    requires
        k <= ds.len() <= total,
        total <= usize::MAX,
    ensures
        forall|i: usize| #[trigger]
            after_adds(total, indexed(ds).subrange(0, k as int)).contains_key(i) <==> (i as nat) < k,
        forall|i: usize|
            (i as nat) < k ==> #[trigger] after_adds(total, indexed(ds).subrange(0, k as int))[i]
                == ds[i as int],
    decreases k,
{
    let s = indexed(ds).subrange(0, k as int);
    if k > 0 {
        lemma_indexed_map(total, ds, (k - 1) as nat);
        assert(s.drop_last() == indexed(ds).subrange(0, k - 1));
        assert(s.last() == ((k - 1) as usize, ds[k - 1]));
        let prev = after_adds(total, s.drop_last());
        assert(after_adds(total, s) == prev.insert((k - 1) as usize, ds[k - 1]));
    } else {
        assert(after_adds(total, s) == Map::<usize, Vec<u8>>::empty());
    }
}

proof fn lemma_concat_prefix(m: Map<usize, Vec<u8>>, ds: Seq<Vec<u8>>, k: nat)
    requires
        k <= ds.len() <= usize::MAX,
        forall|i: usize| (i as nat) < ds.len() ==> #[trigger] m.contains_key(i) && m[i] == ds[i as int],
    ensures
        has_all_chunks(m, k),
        concat_chunks(m, k) == concat_all(ds.subrange(0, k as int)),
    decreases k,
{
    if k > 0 {
        lemma_concat_prefix(m, ds, (k - 1) as nat);
        let s = ds.subrange(0, k as int);
        assert(s.drop_last() == ds.subrange(0, k - 1));
        assert(m.contains_key((k - 1) as usize));
    }
}

/// Buffer of one upload: the chunks received so far, by index.
pub struct FileReassembler {
    chunks: HashMap<usize, Vec<u8>>,
    total_chunks: usize,
}

impl FileReassembler {
    pub closed spec fn total(&self) -> nat {
        self.total_chunks as nat
    }

    pub closed spec fn chunks(&self) -> Map<usize, Vec<u8>> {
        self.chunks@
    }

    /// Every stored index lies below the total.
    pub open spec fn wf(&self) -> bool {
        forall|i: usize| #[trigger] self.chunks().contains_key(i) ==> (i as nat) < self.total()
    }

    pub fn new(total_chunks: usize) -> (r: Self)
        ensures
            r.wf(),
            r.total() == total_chunks,
            r.chunks() == Map::<usize, Vec<u8>>::empty(),
    {
        FileReassembler { chunks: HashMap::new(), total_chunks }
    }

    /// Stores `data` at `index`; a chunk already there is replaced.
    pub fn add_chunk(&mut self, index: usize, data: Vec<u8>) -> (r: Result<(), ServerError>)
        requires
            old(self).wf(),
        ensures
            final(self).wf(),
            final(self).total() == old(self).total(),
            index < old(self).total() ==> r is Ok && final(self).chunks() == old(self).chunks().insert(
                index,
                data,
            ),
            index >= old(self).total() ==> r == Err::<(), ServerError>(ServerError::IndexOutOfBounds)
                && final(self).chunks() == old(self).chunks(),
    {
        if index >= self.total_chunks {
            return Err(ServerError::IndexOutOfBounds);
        }
        self.chunks.insert(index, data);
        assert forall|i: usize| #[trigger] self.chunks().contains_key(i) implies (i as nat)
            < self.total() by {
            if i != index {
                assert(old(self).chunks().contains_key(i));
            }
        }
        Ok(())
    }

    /// True exactly when every index below the total holds a chunk.
    pub fn is_complete(&self) -> (r: bool)
        requires
            self.wf(),
        ensures
            r == has_all_chunks(self.chunks(), self.total()),
    {
        let n = self.chunks.len();
        proof {
            let dom = self.chunks@.dom();
            let all = Set::<usize>::range(0, self.total_chunks);
            vstd::set_lib::range_set_properties::<usize>(0, self.total_chunks);
            assert forall|i: usize| dom.contains(i) implies all.contains(i) by {
                assert(self.chunks().contains_key(i));
            }
            vstd::set_lib::lemma_len_subset(dom, all);
            if n == self.total_chunks {
                vstd::set_lib::lemma_subset_equality(dom, all);
                assert forall|i: usize| (i as nat) < self.total() implies #[trigger] self.chunks().contains_key(i) by {
                    assert(all.contains(i));
                }
            } else {
                if has_all_chunks(self.chunks(), self.total()) {
                    assert(all.subset_of(dom));
                    vstd::set_lib::lemma_len_subset(all, dom);
                }
            }
        }
        n == self.total_chunks
    }

    /// The chunks `0..total` in order of index, or `ChunkMissing` when one is absent.
    pub fn reassemble(&self) -> (r: Result<Vec<u8>, ServerError>)
        ensures
            has_all_chunks(self.chunks(), self.total()) ==> r is Ok && r->Ok_0@ == concat_chunks(
                self.chunks(),
                self.total(),
            ),
            !has_all_chunks(self.chunks(), self.total()) ==> r == Err::<Vec<u8>, ServerError>(
                ServerError::ChunkMissing,
            ),
    {
        let mut file_data: Vec<u8> = Vec::new();
        let mut i: usize = 0;
        while i < self.total_chunks
            invariant
                i <= self.total_chunks,
                has_all_chunks(self.chunks(), i as nat),
                file_data@ == concat_chunks(self.chunks(), i as nat),
            decreases self.total_chunks - i,
        {
            match self.chunks.get(&i) {
                Some(chunk) => {
                    let mut k: usize = 0;
                    let ghost before = file_data@;
                    while k < chunk.len()
                        invariant
                            k <= chunk.len(),
                            file_data@ == before + chunk@.subrange(0, k as int),
                        decreases chunk.len() - k,
                    {
                        file_data.push(chunk[k]);
                        k = k + 1;
                        assert(chunk@.subrange(0, k as int) == chunk@.subrange(0, k - 1 as int).push(chunk@[k - 1]));
                    }
                    assert(chunk@.subrange(0, chunk@.len() as int) == chunk@);
                    i = i + 1;
                    assert(has_all_chunks(self.chunks(), i as nat)) by {
                        assert forall|j: usize| (j as nat) < i as nat implies #[trigger] self.chunks().contains_key(j) by {
                            if j < i - 1 {
                                assert(has_all_chunks(self.chunks(), (i - 1) as nat));
                            }
                        }
                    }
                },
                None => {
                    return Err(ServerError::ChunkMissing);
                },
            }
        }
        Ok(file_data)
    }

    pub fn total_chunks(&self) -> (r: usize)
        ensures
            r == self.total(),
    {
        self.total_chunks
    }
}

} // verus!
