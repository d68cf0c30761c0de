use accumulator_store::cache::{AccumulatorCache, MAC_CACHE_SIZE};
use accumulator_store::hash_value::HashValue;
use accumulator_store::node::AccumulatorNode;
use accumulator_store::node_index::NodeIndex;

fn leaf(word: u64, pos: u64) -> AccumulatorNode {
    AccumulatorNode::new_leaf(
        NodeIndex::from_level_and_pos(0, pos),
        HashValue::from_words(word, 0, 0, 0),
    )
}

#[test]
fn fresh_cache_misses() {
    let mut cache = AccumulatorCache::new(8);
    assert_eq!(cache.get_node(HashValue::from_words(1, 2, 3, 4)), None);
    assert_eq!(
        cache.get_node_hash(HashValue::from_words(1, 1, 1, 1), NodeIndex::new(0)),
        None
    );
    assert!(MAC_CACHE_SIZE >= 1);
}

#[test]
fn put_then_get_returns_the_node() {
    let mut cache = AccumulatorCache::new(8);
    let node = leaf(1, 0);
    cache.save_node(node);
    assert_eq!(cache.get_node(node.hash()), Some(node));
    // A repeated save of the identical node is a benign overwrite.
    cache.save_node(node);
    assert_eq!(cache.get_node(node.hash()), Some(node));
}

#[test]
fn get_nodes_returns_the_cached_subset_in_order() {
    let mut cache = AccumulatorCache::new(8);
    let a = leaf(1, 0);
    let b = leaf(2, 1);
    cache.save_node(a);
    cache.save_node(b);
    let missing = HashValue::from_words(0xdead, 0, 0, 0);
    let got = cache.get_nodes(vec![a.hash(), missing, b.hash()]);
    assert_eq!(got, vec![a, b]);
}

#[test]
fn save_nodes_populates_all() {
    let mut cache = AccumulatorCache::new(8);
    let nodes = vec![leaf(1, 0), leaf(2, 1), leaf(3, 2)];
    cache.save_nodes(nodes.clone());
    for n in nodes {
        assert_eq!(cache.get_node(n.hash()), Some(n));
    }
}

#[test]
fn index_cache_disambiguates_accumulators() {
    // Two accumulator identities share the index cache; the same position
    // resolves independently under each.
    let mut cache = AccumulatorCache::new(8);
    let chain_a = HashValue::from_words(0xa, 0, 0, 0);
    let chain_b = HashValue::from_words(0xb, 0, 0, 0);
    let h1 = HashValue::from_words(1, 1, 1, 1);
    let h2 = HashValue::from_words(2, 2, 2, 2);
    let index = NodeIndex::new(3);
    cache.save_node_index(chain_a, index, h1);
    cache.save_node_index(chain_b, index, h2);
    assert_eq!(cache.get_node_hash(chain_a, index), Some(h1));
    assert_eq!(cache.get_node_hash(chain_b, index), Some(h2));
}

#[test]
fn save_node_indexes_records_each_position() {
    let mut cache = AccumulatorCache::new(8);
    let id = HashValue::from_words(0xc, 0, 0, 0);
    let nodes = vec![leaf(1, 0), leaf(2, 1)];
    cache.save_node_indexes(id, nodes.clone());
    for n in &nodes {
        assert_eq!(cache.get_node_hash(id, n.index()), Some(n.hash()));
    }
}

#[test]
fn filling_past_capacity_evicts_the_least_recently_used() {
    // Capacity 4: inserting a fifth distinct node evicts exactly the first
    // inserted one; the rest remain hits.
    let cap: u64 = 4;
    let mut cache = AccumulatorCache::new(cap as usize);
    let nodes: Vec<AccumulatorNode> = (0..cap + 1).map(|i| leaf(i + 1, i)).collect();
    for n in &nodes {
        cache.save_node(*n);
    }
    assert_eq!(cache.get_node(nodes[0].hash()), None);
    for n in nodes.iter().skip(1) {
        assert_eq!(cache.get_node(n.hash()), Some(*n));
    }
}

#[test]
fn a_lookup_refreshes_recency() {
    let mut cache = AccumulatorCache::new(2);
    let a = leaf(1, 0);
    let b = leaf(2, 1);
    let c = leaf(3, 2);
    cache.save_node(a);
    cache.save_node(b);
    // Touch `a`, making `b` the least recently used entry.
    assert_eq!(cache.get_node(a.hash()), Some(a));
    cache.save_node(c);
    assert_eq!(cache.get_node(b.hash()), None);
    assert_eq!(cache.get_node(a.hash()), Some(a));
    assert_eq!(cache.get_node(c.hash()), Some(c));
}

#[test]
fn index_cache_eviction_is_independent() {
    let mut cache = AccumulatorCache::new(2);
    let id = HashValue::from_words(0xe, 0, 0, 0);
    // Fill the content cache; the index cache keeps its entries.
    cache.save_node_index(id, NodeIndex::new(0), HashValue::from_words(1, 0, 0, 0));
    cache.save_node(leaf(1, 0));
    cache.save_node(leaf(2, 1));
    cache.save_node(leaf(3, 2));
    assert_eq!(
        cache.get_node_hash(id, NodeIndex::new(0)),
        Some(HashValue::from_words(1, 0, 0, 0))
    );
}

#[test]
fn capacity_one_keeps_only_the_newest() {
    let mut cache = AccumulatorCache::new(1);
    let a = leaf(1, 0);
    let b = leaf(2, 1);
    cache.save_node(a);
    cache.save_node(b);
    assert_eq!(cache.get_node(a.hash()), None);
    assert_eq!(cache.get_node(b.hash()), Some(b));
}

#[test]
fn empty_batches_change_nothing() {
    let mut cache = AccumulatorCache::new(4);
    let a = leaf(1, 0);
    cache.save_node(a);
    cache.save_nodes(vec![]);
    cache.save_node_indexes(HashValue::zero(), vec![]);
    assert_eq!(cache.get_nodes(vec![]), vec![]);
    assert_eq!(cache.get_node(a.hash()), Some(a));
}
