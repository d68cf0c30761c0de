//! The backing-store interface and the in-memory reference store.
//!
//! The backing store is the durability source of truth: a mapping from
//! content hash to node.  Its capability splits into a `Reader` — whose
//! answers are authoritative, with no soft misses — and a `Writer`; a store
//! satisfies both.  `MockAccumulatorStore` is the reference in-memory
//! implementation used for testing.

use vstd::prelude::*;
use crate::cache::{coherent, AccumulatorCache};
use crate::hash_value::HashValue;
use crate::lru_model::{
    as_map, distinct_keys, has_key, lemma_as_map_empty, lemma_as_map_push, lemma_as_map_remove_at,
    lemma_find_key, lemma_find_key_unique, lookup, touch, update_lru,
};
use crate::node::AccumulatorNode;

verus! {

/// The errors of the authoritative store layer.  A cache's soft miss is not
/// an error and never surfaces here.
#[derive(Clone, Copy, Debug, PartialEq, Eq, Structural)]
pub enum StoreError {
    /// The requested content hash exists nowhere in durable storage: either
    /// corrupted or missing history, or a caller asking for a hash that was
    /// never written.
    NotFound,
}

/// The stored map after saving each node of `ns` in order, keyed by its own
/// content hash.
pub open spec fn insert_all(
    m: Map<HashValue, AccumulatorNode>,
    ns: Seq<AccumulatorNode>,
) -> Map<HashValue, AccumulatorNode>
    decreases ns.len(),
{
    if ns.len() == 0 {
        m
    } else {
        insert_all(m.insert(ns[0].spec_hash(), ns[0]), ns.skip(1))
    }
}

/// Authoritative point and batch lookup of nodes by content hash.
pub trait AccumulatorReader {
    /// The nodes held in durable storage, keyed by content hash.
    spec fn stored_nodes(&self) -> Map<HashValue, AccumulatorNode>;

    /// The implementation's own well-formedness.
    spec fn reader_wf(&self) -> bool;

    /// Authoritative point lookup: returns the stored node, or fails with
    /// `NotFound` exactly when the hash is absent — never a soft miss.
    fn get_node(&self, hash: HashValue) -> (r: Result<AccumulatorNode, StoreError>)
        requires
            self.reader_wf(),
        ensures
            match r {
                Result::Ok(node) => self.stored_nodes().contains_key(hash) && node
                    == self.stored_nodes()[hash],
                Result::Err(e) => !self.stored_nodes().contains_key(hash) && e
                    == StoreError::NotFound,
            },
    ;

    /// Authoritative batch lookup: a node for every requested hash, in
    /// request order, or failure of the whole batch — a partial result is
    /// never a success.
    fn multiple_get(&self, hashes: Vec<HashValue>) -> (r: Result<Vec<AccumulatorNode>, StoreError>)
        requires
            self.reader_wf(),
        ensures
            match r {
                Result::Ok(nodes) => nodes@.len() == hashes@.len() && forall|i: int|
                    0 <= i < hashes@.len() ==> self.stored_nodes().contains_key(
                        #[trigger] hashes@[i],
                    ) && nodes@[i] == self.stored_nodes()[hashes@[i]],
                Result::Err(e) => (exists|i: int|
                    0 <= i < hashes@.len() && !self.stored_nodes().contains_key(
                        #[trigger] hashes@[i],
                    )) && e == StoreError::NotFound,
            },
    ;
}

/// Persisting and pruning of nodes.  Success is not owed — a durable store
/// may fail — but a reported success has exactly the stated effect.
pub trait AccumulatorWriter: AccumulatorReader {
    /// Save one node keyed by its content hash; idempotent, since a node's
    /// hash determines its contents.
    fn save_node(&mut self, node: AccumulatorNode) -> (r: Result<(), StoreError>)
        requires
            old(self).reader_wf(),
        ensures
            final(self).reader_wf(),
            r is Ok ==> final(self).stored_nodes() == old(self).stored_nodes().insert(
                node.spec_hash(),
                node,
            ),
            r is Err ==> final(self).stored_nodes() == old(self).stored_nodes(),
    ;

    /// Save many nodes, each keyed by its own content hash, in order.
    fn save_nodes(&mut self, nodes: Vec<AccumulatorNode>) -> (r: Result<(), StoreError>)
        requires
            old(self).reader_wf(),
        ensures
            final(self).reader_wf(),
            r is Ok ==> final(self).stored_nodes() == insert_all(
                old(self).stored_nodes(),
                nodes@,
            ),
    ;

    /// Remove the given hashes.  Deleting a hash that was never written is
    /// not an error; every other binding is untouched.
    fn delete_nodes(&mut self, node_hashes: Vec<HashValue>) -> (r: Result<(), StoreError>)
        requires
            old(self).reader_wf(),
        ensures
            final(self).reader_wf(),
            r is Ok ==> final(self).stored_nodes() == old(self).stored_nodes().remove_keys(
                node_hashes@.to_set(),
            ),
    ;
}

/// The full store capability a backing implementation must satisfy.
pub trait AccumulatorTreeStore: AccumulatorReader + AccumulatorWriter {

}

/// The in-memory reference store: a flat list of nodes with
/// pairwise-distinct keys, each node stored under its own content hash.
pub struct MockAccumulatorStore {
    node_store: Vec<(HashValue, AccumulatorNode)>,
}

impl MockAccumulatorStore {
    pub fn new() -> (r: MockAccumulatorStore)
        ensures
            r.reader_wf(),
            r.stored_nodes() == Map::<HashValue, AccumulatorNode>::empty(),
    {
        proof {
            lemma_as_map_empty::<HashValue, AccumulatorNode>();
        }
        let r = MockAccumulatorStore { node_store: Vec::new() };
        proof {
            assert(r.node_store@ =~= Seq::<(HashValue, AccumulatorNode)>::empty());
        }
        r
    }

    /// Bind `node` under its content hash, replacing any previous binding.
    fn insert_node(&mut self, node: AccumulatorNode)
        requires
            old(self).reader_wf(),
        ensures
            final(self).reader_wf(),
            final(self).stored_nodes() == old(self).stored_nodes().insert(
                node.spec_hash(),
                node,
            ),
    {
        let h = node.hash();
        let ghost s = self.node_store@;
        let mut i: usize = 0;
        while i < self.node_store.len()
            invariant
                self.node_store@ == s,
                old(self).node_store@ == s,
                distinct_keys(s),
                coherent(s),
                i <= s.len(),
                forall|j: int| 0 <= j < i ==> (#[trigger] s[j]).0 != h,
                h == node.spec_hash(),
            decreases s.len() - i,
        {
            if self.node_store[i].0 == h {
                proof {
                    lemma_as_map_remove_at(s, i as int);
                    lemma_find_key(s.remove(i as int), h);
                    lemma_as_map_push(s.remove(i as int), h, node);
                }
                self.node_store.remove(i);
                self.node_store.push((h, node));
                proof {
                    assert(as_map(s).remove(h).insert(h, node) =~= as_map(s).insert(h, node));
                    let t = self.node_store@;
                    assert forall|j: int| 0 <= j < t.len() implies (#[trigger] t[j]).1.spec_hash()
                        == t[j].0 by {
                        if j < t.len() - 1 {
                            if j < i {
                                assert(t[j] == s[j]);
                            } else {
                                assert(t[j] == s[j + 1]);
                            }
                        }
                    }
                }
                return ;
            }
            i = i + 1;
        }
        proof {
            lemma_find_key(s, h);
            if has_key(s, h) {
                let a = choose|a: int| 0 <= a < s.len() && s[a].0 == h;
                assert(false);
            }
            lemma_as_map_push(s, h, node);
            let t = s.push((h, node));
            assert forall|j: int| 0 <= j < t.len() implies (#[trigger] t[j]).1.spec_hash()
                == t[j].0 by {
                if j < t.len() - 1 {
                    assert(t[j] == s[j]);
                }
            }
        }
        self.node_store.push((h, node));
    }

    /// Unbind `hash`, if it is bound at all.
    fn remove_node(&mut self, hash: HashValue)
        requires
            old(self).reader_wf(),
        ensures
            final(self).reader_wf(),
            final(self).stored_nodes() == old(self).stored_nodes().remove(hash),
    {
        let ghost s = self.node_store@;
        let mut i: usize = 0;
        while i < self.node_store.len()
            invariant
                self.node_store@ == s,
                old(self).node_store@ == s,
                distinct_keys(s),
                coherent(s),
                i <= s.len(),
                forall|j: int| 0 <= j < i ==> (#[trigger] s[j]).0 != hash,
            decreases s.len() - i,
        {
            if self.node_store[i].0 == hash {
                proof {
                    lemma_as_map_remove_at(s, i as int);
                }
                self.node_store.remove(i);
                proof {
                    let t = self.node_store@;
                    assert forall|j: int| 0 <= j < t.len() implies (#[trigger] t[j]).1.spec_hash()
                        == t[j].0 by {
                        if j < i {
                            assert(t[j] == s[j]);
                        } else {
                            assert(t[j] == s[j + 1]);
                        }
                    }
                }
                return ;
            }
            i = i + 1;
        }
        proof {
            lemma_find_key(s, hash);
            if has_key(s, hash) {
                let a = choose|a: int| 0 <= a < s.len() && s[a].0 == hash;
                assert(false);
            }
            assert(as_map(s) =~= as_map(s).remove(hash));
        }
    }
}

impl Default for MockAccumulatorStore {
    fn default() -> (r: MockAccumulatorStore)
        ensures
            r.reader_wf(),
            r.stored_nodes() == Map::<HashValue, AccumulatorNode>::empty(),
    {
        MockAccumulatorStore::new()
    }
}

impl AccumulatorReader for MockAccumulatorStore {
    closed spec fn stored_nodes(&self) -> Map<HashValue, AccumulatorNode> {
        as_map(self.node_store@)
    }

    closed spec fn reader_wf(&self) -> bool {
        distinct_keys(self.node_store@) && coherent(self.node_store@)
    }

    /// Beyond the trait's contract, the reference store is content
    /// addressed through and through: a returned node's hash is exactly the
    /// requested one.
    fn get_node(&self, hash: HashValue) -> (r: Result<AccumulatorNode, StoreError>)
        ensures
            r matches Ok(n) ==> n.spec_hash() == hash,
    {
        let ghost s = self.node_store@;
        let mut i: usize = 0;
        while i < self.node_store.len()
            invariant
                self.node_store@ == s,
                distinct_keys(s),
                coherent(s),
                i <= s.len(),
                forall|j: int| 0 <= j < i ==> (#[trigger] s[j]).0 != hash,
            decreases s.len() - i,
        {
            if self.node_store[i].0 == hash {
                proof {
                    lemma_find_key_unique(s, hash, i as int);
                }
                return Result::Ok(self.node_store[i].1);
            }
            i = i + 1;
        }
        proof {
            lemma_find_key(s, hash);
            if has_key(s, hash) {
                let a = choose|a: int| 0 <= a < s.len() && s[a].0 == hash;
                assert(false);
            }
        }
        Result::Err(StoreError::NotFound)
    }

    /// Beyond the trait's contract, every returned node's hash is exactly
    /// the hash it was requested under.
    fn multiple_get(&self, hashes: Vec<HashValue>) -> (r: Result<
        Vec<AccumulatorNode>,
        StoreError,
    >)
        ensures
            r matches Ok(nodes) ==> forall|i: int|
                0 <= i < hashes@.len() ==> (#[trigger] nodes@[i]).spec_hash() == hashes@[i],
    {
        let mut out: Vec<AccumulatorNode> = Vec::new();
        let mut i: usize = 0;
        while i < hashes.len()
            invariant
                self.reader_wf(),
                i <= hashes@.len(),
                out@.len() == i,
                forall|j: int| 0 <= j < i ==> self.stored_nodes().contains_key(
                    #[trigger] hashes@[j],
                ) && out@[j] == self.stored_nodes()[hashes@[j]],
                forall|j: int| 0 <= j < i ==> (#[trigger] out@[j]).spec_hash() == hashes@[j],
            decreases hashes@.len() - i,
        {
            match self.get_node(hashes[i]) {
                Result::Ok(node) => out.push(node),
                Result::Err(e) => {
                    return Result::Err(e);
                },
            }
            i = i + 1;
        }
        Result::Ok(out)
    }
}

impl AccumulatorWriter for MockAccumulatorStore {
    /// Beyond the trait's contract, the in-memory store makes no outside
    /// call and owes success.
    fn save_node(&mut self, node: AccumulatorNode) -> (r: Result<(), StoreError>)
        ensures
            r is Ok,
    {
        self.insert_node(node);
        Result::Ok(())
    }

    /// Beyond the trait's contract, the in-memory store makes no outside
    /// call and owes success.
    fn save_nodes(&mut self, nodes: Vec<AccumulatorNode>) -> (r: Result<(), StoreError>)
        ensures
            r is Ok,
    {
        let ghost m0 = self.stored_nodes();
        proof {
            assert(nodes@.skip(0) =~= nodes@);
        }
        let mut i: usize = 0;
        while i < nodes.len()
            invariant
                self.reader_wf(),
                i <= nodes@.len(),
                insert_all(self.stored_nodes(), nodes@.skip(i as int)) == insert_all(m0, nodes@),
            decreases nodes@.len() - i,
        {
            self.insert_node(nodes[i]);
            proof {
                assert(nodes@.skip(i as int)[0] == nodes@[i as int]);
                assert(nodes@.skip(i as int).skip(1) =~= nodes@.skip(i as int + 1));
            }
            i = i + 1;
        }
        proof {
            assert(nodes@.skip(nodes@.len() as int) =~= Seq::<AccumulatorNode>::empty());
        }
        Result::Ok(())
    }

    /// Beyond the trait's contract, the in-memory store makes no outside
    /// call and owes success: deleting a hash that was never written is not
    /// an error.
    fn delete_nodes(&mut self, node_hashes: Vec<HashValue>) -> (r: Result<(), StoreError>)
        ensures
            r is Ok,
    {
        let ghost m0 = self.stored_nodes();
        let ghost hs = node_hashes@;
        proof {
            assert(m0.remove_keys(hs.take(0).to_set()) =~= m0);
        }
        let mut i: usize = 0;
        while i < node_hashes.len()
            invariant
                self.reader_wf(),
                i <= hs.len(),
                node_hashes@ == hs,
                self.stored_nodes() == m0.remove_keys(hs.take(i as int).to_set()),
            decreases hs.len() - i,
        {
            self.remove_node(node_hashes[i]);
            proof {
                lemma_take_one_more_contains(hs, i as int);
                assert(m0.remove_keys(hs.take(i as int).to_set()).remove(hs[i as int])
                    =~= m0.remove_keys(hs.take(i as int + 1).to_set()));
            }
            i = i + 1;
        }
        proof {
            assert(hs.take(hs.len() as int) =~= hs);
        }
        Result::Ok(())
    }
}

impl AccumulatorTreeStore for MockAccumulatorStore {

}

/// A one-longer prefix holds exactly the old prefix's elements and the next
/// one.
proof fn lemma_take_one_more_contains(hs: Seq<HashValue>, i: int)
    requires
        0 <= i < hs.len(),
    ensures
        forall|k: HashValue|
            #![trigger hs.take(i + 1).contains(k)]
            hs.take(i + 1).contains(k) == (hs.take(i).contains(k) || k == hs[i]),
{
    let t1 = hs.take(i + 1);
    let t0 = hs.take(i);
    assert forall|k: HashValue|
        #![trigger hs.take(i + 1).contains(k)]
        hs.take(i + 1).contains(k) == (hs.take(i).contains(k) || k == hs[i]) by {
        if t1.contains(k) {
            let j = choose|j: int| 0 <= j < t1.len() && t1[j] == k;
            if j < i {
                assert(t0[j] == k);
            }
        }
        if t0.contains(k) {
            let j = choose|j: int| 0 <= j < t0.len() && t0[j] == k;
            assert(t1[j] == k);
        }
        if k == hs[i] {
            assert(t1[i] == k);
        }
    }
}

/// Read a node through the cache with authoritative fallthrough: a cache hit
/// is served directly; a miss consults the backing store and, on success,
/// repopulates the cache.  `NotFound` comes only from the store, and only
/// when the hash is truly absent there.
pub fn fetch_node<S: AccumulatorReader>(
    cache: &mut AccumulatorCache,
    store: &S,
    hash: HashValue,
) -> (r: Result<AccumulatorNode, StoreError>)
    requires
        old(cache).wf(),
        store.reader_wf(),
    ensures
        final(cache).wf(),
        final(cache).capacity() == old(cache).capacity(),
        final(cache).index_entries() == old(cache).index_entries(),
        match lookup(old(cache).node_entries(), hash) {
            Option::Some(n) => r == Result::<AccumulatorNode, StoreError>::Ok(n)
                && final(cache).node_entries() == touch(old(cache).node_entries(), hash),
            Option::None => match r {
                Result::Ok(n) => store.stored_nodes().contains_key(hash) && n
                    == store.stored_nodes()[hash] && final(cache).node_entries() == update_lru(
                    old(cache).node_entries(),
                    old(cache).capacity(),
                    n.spec_hash(),
                    n,
                ),
                Result::Err(e) => !store.stored_nodes().contains_key(hash) && e
                    == StoreError::NotFound
                    && final(cache).node_entries() == old(cache).node_entries(),
            },
        },
        r matches Ok(n) ==> lookup(final(cache).node_entries(), n.spec_hash())
            == Option::Some(n),
{
    let ghost s0 = cache.node_entries();
    match cache.get_node(hash) {
        Option::Some(node) => {
            proof {
                crate::lru_model::lemma_touch(s0, hash);
                crate::lru_model::lemma_find_key(s0, hash);
            }
            Result::Ok(node)
        },
        Option::None => match store.get_node(hash) {
            Result::Ok(node) => {
                cache.save_node(node);
                proof {
                    crate::cache::lemma_save_then_get(s0, old(cache).capacity(), node);
                }
                Result::Ok(node)
            },
            Result::Err(e) => Result::Err(e),
        },
    }
}

} // verus!
