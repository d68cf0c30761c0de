//! The two-tier accumulator cache service.
//!
//! One service value holds the two process-wide tables: the
//! content-addressed node cache (content hash to node) and the positional
//! index cache (accumulator identity and position to content hash).  Both
//! are least-recently-used tables bounded by one shared capacity.  The
//! service is a pure performance layer: a miss means "unknown", never "does
//! not exist" — callers fall through to the authoritative backing store and
//! repopulate the cache afterwards.

use vstd::prelude::*;
use crate::hash_value::HashValue;
use crate::lru_model::{
    distinct_keys, has_key, lemma_find_key, lemma_touch, lemma_update_lru, lookup, touch,
    update_lru,
};
use crate::lru_table::{
    index_cap, index_entries, index_lru_get, index_lru_new, index_lru_put, node_cap, node_entries,
    node_lru_get, node_lru_new, node_lru_put,
};
use crate::node::AccumulatorNode;
use crate::node_index::NodeIndex;

verus! {

/// The capacity shared by the two cache tables of a default-sized service.
pub const MAC_CACHE_SIZE: usize = 65535;

/// The key of the positional index cache: an accumulator identity together
/// with a position.  Two accumulator instances may hold different nodes at
/// the same position, so both fields take part in equality.
#[derive(Clone, Copy, Debug, PartialEq, Eq, Hash, Structural)]
pub struct NodeCacheKey {
    pub id: HashValue,
    pub index: NodeIndex,
}

impl NodeCacheKey {
    pub fn new(accumulator_id: HashValue, index: NodeIndex) -> (r: NodeCacheKey)
        ensures
            r == (NodeCacheKey { id: accumulator_id, index }),
    {
        NodeCacheKey { id: accumulator_id, index }
    }
}

/// Every cached node sits under exactly its own content hash.
pub open spec fn coherent(s: Seq<(HashValue, AccumulatorNode)>) -> bool {
    forall|i: int| 0 <= i < s.len() ==> (#[trigger] s[i]).1.spec_hash() == s[i].0
}

/// The nodes that lookups of `keys` in the entries `s` would return, in
/// request order, with misses left out.
pub open spec fn hits(s: Seq<(HashValue, AccumulatorNode)>, keys: Seq<HashValue>) -> Seq<
    AccumulatorNode,
>
    decreases keys.len(),
{
    if keys.len() == 0 {
        Seq::empty()
    } else {
        let rest = hits(s, keys.skip(1));
        match lookup(s, keys[0]) {
            Option::Some(n) => seq![n] + rest,
            Option::None => rest,
        }
    }
}

/// The recency order after looking up each key of `keys`, in order.
pub open spec fn touch_all(
    s: Seq<(HashValue, AccumulatorNode)>,
    keys: Seq<HashValue>,
) -> Seq<(HashValue, AccumulatorNode)>
    decreases keys.len(),
{
    if keys.len() == 0 {
        s
    } else {
        touch_all(touch(s, keys[0]), keys.skip(1))
    }
}

/// The node entries after saving each node of `ns` in order, each keyed by
/// its own content hash.
pub open spec fn store_all(
    s: Seq<(HashValue, AccumulatorNode)>,
    cap: nat,
    ns: Seq<AccumulatorNode>,
) -> Seq<(HashValue, AccumulatorNode)>
    decreases ns.len(),
{
    if ns.len() == 0 {
        s
    } else {
        store_all(update_lru(s, cap, ns[0].spec_hash(), ns[0]), cap, ns.skip(1))
    }
}

/// The index entries after recording, for each node of `ns` in order, that
/// its position under `id` holds its content hash.
pub open spec fn index_all(
    s: Seq<(NodeCacheKey, HashValue)>,
    cap: nat,
    id: HashValue,
    ns: Seq<AccumulatorNode>,
) -> Seq<(NodeCacheKey, HashValue)>
    decreases ns.len(),
{
    if ns.len() == 0 {
        s
    } else {
        index_all(
            update_lru(
                s,
                cap,
                NodeCacheKey { id, index: ns[0].spec_index() },
                ns[0].spec_hash(),
            ),
            cap,
            id,
            ns.skip(1),
        )
    }
}

/// The two-tier cache service: an explicitly owned value, constructed once
/// and shared by every accumulator instance of the process.
pub struct AccumulatorCache {
    nodes: lru::LruCache<HashValue, AccumulatorNode>,
    indexes: lru::LruCache<NodeCacheKey, HashValue>,
}

impl AccumulatorCache {
    /// The content cache's entries, most recently used first.
    pub closed spec fn node_entries(self) -> Seq<(HashValue, AccumulatorNode)> {
        node_entries(self.nodes)
    }

    /// The index cache's entries, most recently used first.
    pub closed spec fn index_entries(self) -> Seq<(NodeCacheKey, HashValue)> {
        index_entries(self.indexes)
    }

    /// The capacity shared by the two tables.
    pub closed spec fn capacity(self) -> nat {
        node_cap(self.nodes)
    }

    pub closed spec fn index_capacity(self) -> nat {
        index_cap(self.indexes)
    }

    /// Well-formedness: both tables are bounded by the one capacity, keys are
    /// unique, and every cached node sits under its own content hash.
    pub open spec fn wf(self) -> bool {
        &&& self.capacity() >= 1
        &&& self.index_capacity() == self.capacity()
        &&& distinct_keys(self.node_entries())
        &&& distinct_keys(self.index_entries())
        &&& self.node_entries().len() <= self.capacity()
        &&& self.index_entries().len() <= self.capacity()
        &&& coherent(self.node_entries())
    }

    /// A fresh, empty service whose two tables share `capacity`.
    pub fn new(capacity: usize) -> (r: AccumulatorCache)
        requires
            capacity >= 1,
        ensures
            r.wf(),
            r.capacity() == capacity,
            r.node_entries() == Seq::<(HashValue, AccumulatorNode)>::empty(),
            r.index_entries() == Seq::<(NodeCacheKey, HashValue)>::empty(),
    {
        AccumulatorCache { nodes: node_lru_new(capacity), indexes: index_lru_new(capacity) }
    }

    /// Point lookup by content hash.  `None` is a soft miss: the node may
    /// still exist in the backing store.  A hit returns a node whose content
    /// hash is exactly the requested one and refreshes its recency.
    pub fn get_node(&mut self, hash: HashValue) -> (r: Option<AccumulatorNode>)
        requires
            old(self).wf(),
        ensures
            final(self).wf(),
            r == lookup(old(self).node_entries(), hash),
            final(self).node_entries() == touch(old(self).node_entries(), hash),
            final(self).index_entries() == old(self).index_entries(),
            final(self).capacity() == old(self).capacity(),
            r matches Some(n) ==> n.spec_hash() == hash,
    {
        proof {
            lemma_touch(old(self).node_entries(), hash);
            lemma_find_key(old(self).node_entries(), hash);
        }
        node_lru_get(&mut self.nodes, &hash)
    }

    /// Batch lookup: the subset of `hashes` that are cached, in request
    /// order.  Callers reconcile the result against the request and fetch
    /// the remainder from the backing store.
    pub fn get_nodes(&mut self, hashes: Vec<HashValue>) -> (r: Vec<AccumulatorNode>)
        requires
            old(self).wf(),
        ensures
            final(self).wf(),
            r@ == hits(old(self).node_entries(), hashes@),
            final(self).node_entries() == touch_all(old(self).node_entries(), hashes@),
            forall|k: HashValue| #[trigger] lookup(final(self).node_entries(), k) == lookup(
                old(self).node_entries(),
                k,
            ),
            final(self).node_entries().len() == old(self).node_entries().len(),
            final(self).index_entries() == old(self).index_entries(),
            final(self).capacity() == old(self).capacity(),
    {
        let ghost s0 = old(self).node_entries();
        proof {
            assert(hashes@.skip(0) =~= hashes@);
        }
        let mut out: Vec<AccumulatorNode> = Vec::new();
        let mut i: usize = 0;
        while i < hashes.len()
            invariant
                self.wf(),
                i <= hashes.len(),
                out@ == hits(s0, hashes@.take(i as int)),
                touch_all(self.node_entries(), hashes@.skip(i as int)) == touch_all(s0, hashes@),
                forall|k: HashValue| #[trigger] lookup(self.node_entries(), k) == lookup(s0, k),
                self.node_entries().len() == s0.len(),
                self.index_entries() == old(self).index_entries(),
                self.capacity() == old(self).capacity(),
            decreases hashes.len() - i,
        {
            let ghost before = self.node_entries();
            let h = hashes[i];
            let got = self.get_node(h);
            match got {
                Option::Some(n) => out.push(n),
                Option::None => (),
            }
            proof {
                lemma_touch(before, h);
                lemma_hits_snoc(s0, hashes@, i as int);
                assert(hashes@.skip(i as int)[0] == hashes@[i as int]);
                assert(hashes@.skip(i as int).skip(1) =~= hashes@.skip(i as int + 1));
            }
            i = i + 1;
        }
        proof {
            assert(hashes@.take(hashes@.len() as int) =~= hashes@);
            assert(hashes@.skip(hashes@.len() as int) =~= Seq::<HashValue>::empty());
        }
        out
    }

    /// Insert a node keyed by its own content hash.  Re-inserting an already
    /// cached node replaces the equal value (a benign overwrite); a fresh
    /// hash arriving at capacity evicts the least recently used entry.
    pub fn save_node(&mut self, node: AccumulatorNode)
        requires
            old(self).wf(),
        ensures
            final(self).wf(),
            final(self).node_entries() == update_lru(
                old(self).node_entries(),
                old(self).capacity(),
                node.spec_hash(),
                node,
            ),
            final(self).index_entries() == old(self).index_entries(),
            final(self).capacity() == old(self).capacity(),
    {
        proof {
            lemma_update_lru(
                old(self).node_entries(),
                old(self).capacity(),
                node.spec_hash(),
                node,
            );
        }
        let h = node.hash();
        let _prev = node_lru_put(&mut self.nodes, h, node);
        proof {
            let s = old(self).node_entries();
            let t = final(self).node_entries();
            assert forall|j: int| 0 <= j < t.len() implies (#[trigger] t[j]).1.spec_hash()
                == t[j].0 by {
                if j >= 1 {
                    assert(s.contains(t[j]));
                    let a = choose|a: int| 0 <= a < s.len() && s[a] == t[j];
                }
            }
        }
    }

    /// Insert many nodes, each keyed by its own content hash, in order.
    pub fn save_nodes(&mut self, nodes: Vec<AccumulatorNode>)
        requires
            old(self).wf(),
        ensures
            final(self).wf(),
            final(self).node_entries() == store_all(
                old(self).node_entries(),
                old(self).capacity(),
                nodes@,
            ),
            final(self).index_entries() == old(self).index_entries(),
            final(self).capacity() == old(self).capacity(),
    {
        let ghost s0 = old(self).node_entries();
        let ghost cap = old(self).capacity();
        proof {
            assert(nodes@.skip(0) =~= nodes@);
        }
        let mut i: usize = 0;
        while i < nodes.len()
            invariant
                self.wf(),
                i <= nodes.len(),
                store_all(self.node_entries(), cap, nodes@.skip(i as int)) == store_all(
                    s0,
                    cap,
                    nodes@,
                ),
                self.index_entries() == old(self).index_entries(),
                self.capacity() == old(self).capacity(),
                self.capacity() == cap,
            decreases nodes.len() - i,
        {
            let ghost before = self.node_entries();
            let node = nodes[i];
            self.save_node(node);
            proof {
                assert(nodes@.skip(i as int)[0] == nodes@[i as int]);
                assert(nodes@.skip(i as int).skip(1) =~= nodes@.skip(i as int + 1));
            }
            i = i + 1;
        }
        proof {
            assert(nodes@.skip(nodes@.len() as int) =~= Seq::<AccumulatorNode>::empty());
        }
    }

    /// Resolve which content hash currently occupies `index` of the
    /// accumulator identified by `accumulator_id`.  `None` is a soft miss,
    /// not "the position is empty": the caller must fall through to its own
    /// recomputation or the backing store.
    pub fn get_node_hash(&mut self, accumulator_id: HashValue, index: NodeIndex) -> (r: Option<
        HashValue,
    >)
        requires
            old(self).wf(),
        ensures
            final(self).wf(),
            r == lookup(
                old(self).index_entries(),
                NodeCacheKey { id: accumulator_id, index },
            ),
            final(self).index_entries() == touch(
                old(self).index_entries(),
                NodeCacheKey { id: accumulator_id, index },
            ),
            final(self).node_entries() == old(self).node_entries(),
            final(self).capacity() == old(self).capacity(),
    {
        proof {
            lemma_touch(
                old(self).index_entries(),
                NodeCacheKey { id: accumulator_id, index },
            );
        }
        let key = NodeCacheKey::new(accumulator_id, index);
        index_lru_get(&mut self.indexes, &key)
    }

    /// Record that `index` of the accumulator identified by `accumulator_id`
    /// holds `node_hash`.  Overwriting a frozen position with a new hash is a
    /// benign cache event here; keeping positions append-only is the
    /// accumulator logic's discipline.
    pub fn save_node_index(
        &mut self,
        accumulator_id: HashValue,
        index: NodeIndex,
        node_hash: HashValue,
    )
        requires
            old(self).wf(),
        ensures
            final(self).wf(),
            final(self).index_entries() == update_lru(
                old(self).index_entries(),
                old(self).capacity(),
                NodeCacheKey { id: accumulator_id, index },
                node_hash,
            ),
            final(self).node_entries() == old(self).node_entries(),
            final(self).capacity() == old(self).capacity(),
    {
        proof {
            lemma_update_lru(
                old(self).index_entries(),
                old(self).capacity(),
                NodeCacheKey { id: accumulator_id, index },
                node_hash,
            );
        }
        let key = NodeCacheKey::new(accumulator_id, index);
        let _prev = index_lru_put(&mut self.indexes, key, node_hash);
    }

    /// Record the position-to-hash resolution of every node of `nodes` under
    /// `accumulator_id`, in order.  The placeholder has no position, so the
    /// batch must hold only leaves and internal nodes.
    pub fn save_node_indexes(&mut self, accumulator_id: HashValue, nodes: Vec<AccumulatorNode>)
        requires
            old(self).wf(),
            forall|i: int| 0 <= i < nodes@.len() ==> !(#[trigger] nodes@[i]).spec_is_empty(),
        ensures
            final(self).wf(),
            final(self).index_entries() == index_all(
                old(self).index_entries(),
                old(self).capacity(),
                accumulator_id,
                nodes@,
            ),
            final(self).node_entries() == old(self).node_entries(),
            final(self).capacity() == old(self).capacity(),
    {
        let ghost s0 = old(self).index_entries();
        let ghost cap = old(self).capacity();
        proof {
            assert(nodes@.skip(0) =~= nodes@);
        }
        let mut i: usize = 0;
        while i < nodes.len()
            invariant
                self.wf(),
                i <= nodes.len(),
                forall|j: int| 0 <= j < nodes@.len() ==> !(#[trigger] nodes@[j]).spec_is_empty(),
                index_all(self.index_entries(), cap, accumulator_id, nodes@.skip(i as int))
                    == index_all(s0, cap, accumulator_id, nodes@),
                self.node_entries() == old(self).node_entries(),
                self.capacity() == old(self).capacity(),
                self.capacity() == cap,
            decreases nodes.len() - i,
        {
            let node = nodes[i];
            let idx = node.index();
            let h = node.hash();
            self.save_node_index(accumulator_id, idx, h);
            proof {
                assert(nodes@.skip(i as int)[0] == nodes@[i as int]);
                assert(nodes@.skip(i as int).skip(1) =~= nodes@.skip(i as int + 1));
            }
            i = i + 1;
        }
        proof {
            assert(nodes@.skip(nodes@.len() as int) =~= Seq::<AccumulatorNode>::empty());
        }
    }
}

/// One lookup step extends the batch result: the hits of a one-longer prefix
/// are the hits of the prefix, followed by the hit on the next key, if any.
pub proof fn lemma_hits_snoc(s: Seq<(HashValue, AccumulatorNode)>, keys: Seq<HashValue>, i: int)
    requires
        0 <= i < keys.len(),
    ensures
        hits(s, keys.take(i + 1)) == match lookup(s, keys[i]) {
            Option::Some(n) => hits(s, keys.take(i)) + seq![n],
            Option::None => hits(s, keys.take(i)),
        },
{
    lemma_hits_append(s, keys.take(i), seq![keys[i]]);
    assert(keys.take(i) + seq![keys[i]] =~= keys.take(i + 1));
    let single = seq![keys[i]];
    assert(single[0] == keys[i]);
    assert(single.len() == 1);
    assert(single.skip(1) =~= Seq::<HashValue>::empty());
    assert(hits(s, single.skip(1)) == hits(s, Seq::<HashValue>::empty()));
    assert(hits(s, Seq::<HashValue>::empty()) == Seq::<AccumulatorNode>::empty());
    match lookup(s, keys[i]) {
        Option::Some(n) => {
            assert(hits(s, single) == seq![n] + Seq::<AccumulatorNode>::empty());
            assert(seq![n] + Seq::<AccumulatorNode>::empty() =~= seq![n]);
            assert(hits(s, keys.take(i)) + seq![n] =~= hits(s, keys.take(i + 1)));
        },
        Option::None => {
            assert(hits(s, single) == Seq::<AccumulatorNode>::empty());
            assert(hits(s, keys.take(i)) + hits(s, single) =~= hits(s, keys.take(i)));
        },
    }
}

/// Batch lookups decompose over concatenation of the requested keys.
pub proof fn lemma_hits_append(
    s: Seq<(HashValue, AccumulatorNode)>,
    a: Seq<HashValue>,
    b: Seq<HashValue>,
)
    ensures
        hits(s, a + b) == hits(s, a) + hits(s, b),
    decreases a.len(),
{
    if a.len() == 0 {
        assert(a + b =~= b);
        assert(hits(s, a) + hits(s, b) =~= hits(s, b));
    } else {
        assert((a + b)[0] == a[0]);
        assert((a + b).skip(1) =~= a.skip(1) + b);
        lemma_hits_append(s, a.skip(1), b);
        match lookup(s, a[0]) {
            Option::Some(n) => {
                assert(hits(s, a + b) =~= hits(s, a) + hits(s, b));
            },
            Option::None => {
                assert(hits(s, a + b) =~= hits(s, a) + hits(s, b));
            },
        }
    }
}

/// Cache coherence: whatever state the content cache is in, a lookup by a
/// hash either misses or returns a node whose content hash is exactly the
/// requested hash — never a node for the wrong hash.
pub proof fn lemma_cache_coherence(s: Seq<(HashValue, AccumulatorNode)>, h: HashValue)
    requires
        distinct_keys(s),
        coherent(s),
    ensures
        lookup(s, h) matches Some(n) ==> n.spec_hash() == h,
{
    lemma_find_key(s, h);
}

/// A node just written is immediately readable: inserting a node keyed by
/// its content hash makes a lookup of that hash return exactly that node.
pub proof fn lemma_save_then_get(
    s: Seq<(HashValue, AccumulatorNode)>,
    cap: nat,
    node: AccumulatorNode,
)
    requires
        distinct_keys(s),
        cap >= 1,
        s.len() <= cap,
    ensures
        lookup(update_lru(s, cap, node.spec_hash(), node), node.spec_hash()) == Option::Some(node),
{
    lemma_update_lru(s, cap, node.spec_hash(), node);
}

/// Index disambiguation: recording position `index` under two distinct
/// accumulator identities keeps both resolutions retrievable independently,
/// whenever the shared table can hold at least two entries.
pub proof fn lemma_index_disambiguation(
    s: Seq<(NodeCacheKey, HashValue)>,
    cap: nat,
    a1: HashValue,
    a2: HashValue,
    index: NodeIndex,
    h1: HashValue,
    h2: HashValue,
)
    requires
        distinct_keys(s),
        s.len() <= cap,
        cap >= 2,
        a1 != a2,
    ensures
        ({
            let k1 = NodeCacheKey { id: a1, index };
            let k2 = NodeCacheKey { id: a2, index };
            let s2 = update_lru(update_lru(s, cap, k1, h1), cap, k2, h2);
            lookup(s2, k1) == Option::Some(h1) && lookup(s2, k2) == Option::Some(h2)
        }),
{
    let k1 = NodeCacheKey { id: a1, index };
    let k2 = NodeCacheKey { id: a2, index };
    let s1 = update_lru(s, cap, k1, h1);
    lemma_update_lru(s, cap, k1, h1);
    lemma_update_lru(s1, cap, k2, h2);
    let s2 = update_lru(s1, cap, k2, h2);
    assert(k1 != k2);
    if !has_key(s1, k2) && s1.len() == cap && s1.last().0 == k1 {
        assert(s1[0].0 == k1);
        assert(s1.len() >= 2);
        assert(false);
    }
    assert(lookup(s2, k1) == lookup(s1, k1));
}

} // verus!
