use accumulator_store::cache::AccumulatorCache;
use accumulator_store::hash_value::HashValue;
use accumulator_store::node::AccumulatorNode;
use accumulator_store::node_index::NodeIndex;
use accumulator_store::store::{
    fetch_node, AccumulatorReader, AccumulatorWriter, MockAccumulatorStore, StoreError,
};

fn leaf(word: u64, pos: u64) -> AccumulatorNode {
    AccumulatorNode::new_leaf(
        NodeIndex::from_level_and_pos(0, pos),
        HashValue::from_words(word, 0, 0, 0),
    )
}

#[test]
fn get_node_of_absent_hash_is_not_found() {
    let store = MockAccumulatorStore::new();
    let r = store.get_node(HashValue::from_words(1, 2, 3, 4));
    assert!(matches!(r, Err(StoreError::NotFound)));
}

#[test]
fn save_then_get_round_trips() {
    let mut store = MockAccumulatorStore::new();
    let node = leaf(1, 0);
    assert!(store.save_node(node).is_ok());
    assert_eq!(store.get_node(node.hash()), Ok(node));
    // Re-saving an identical node is a no-op in effect.
    assert!(store.save_node(node).is_ok());
    assert_eq!(store.get_node(node.hash()), Ok(node));
}

#[test]
fn multiple_get_returns_all_or_fails() {
    let mut store = MockAccumulatorStore::new();
    let a = leaf(1, 0);
    let b = leaf(2, 1);
    store.save_nodes(vec![a, b]).unwrap();
    assert_eq!(store.multiple_get(vec![b.hash(), a.hash()]), Ok(vec![b, a]));
    // One absent hash fails the whole batch: a partial result is unsafe.
    let missing = HashValue::from_words(0xdead, 0, 0, 0);
    let r = store.multiple_get(vec![a.hash(), missing, b.hash()]);
    assert!(matches!(r, Err(StoreError::NotFound)));
}

#[test]
fn deleting_an_unwritten_hash_succeeds_and_changes_nothing() {
    let mut store = MockAccumulatorStore::new();
    let node = leaf(1, 0);
    store.save_node(node).unwrap();
    let never_written = HashValue::from_words(0xfeed, 0, 0, 0);
    assert!(store.delete_nodes(vec![never_written]).is_ok());
    assert_eq!(store.get_node(node.hash()), Ok(node));
}

#[test]
fn deleted_nodes_become_not_found() {
    let mut store = MockAccumulatorStore::new();
    let a = leaf(1, 0);
    let b = leaf(2, 1);
    store.save_nodes(vec![a, b]).unwrap();
    store.delete_nodes(vec![a.hash()]).unwrap();
    assert!(matches!(store.get_node(a.hash()), Err(StoreError::NotFound)));
    assert_eq!(store.get_node(b.hash()), Ok(b));
}

#[test]
fn default_store_is_empty() {
    let store = MockAccumulatorStore::default();
    let r = store.get_node(HashValue::zero());
    assert!(matches!(r, Err(StoreError::NotFound)));
}

#[test]
fn cached_read_does_not_touch_the_store() {
    // Save a leaf, read it back authoritatively, populate the cache, then
    // delete it from the store: the cache still serves it, which shows the
    // hit never consulted the backing store.
    let mut store = MockAccumulatorStore::new();
    let mut cache = AccumulatorCache::new(8);
    let node = leaf(0xab, 0);
    store.save_node(node).unwrap();
    assert_eq!(store.get_node(node.hash()), Ok(node));
    cache.save_node(node);
    store.delete_nodes(vec![node.hash()]).unwrap();
    assert_eq!(cache.get_node(node.hash()), Some(node));
}

#[test]
fn fetch_node_falls_through_and_repopulates() {
    let mut store = MockAccumulatorStore::new();
    let mut cache = AccumulatorCache::new(8);
    let node = leaf(0xcd, 1);
    store.save_node(node).unwrap();
    // Miss: served by the store and cached.
    assert_eq!(fetch_node(&mut cache, &store, node.hash()), Ok(node));
    // Remove it from the store; the cache now serves it alone.
    store.delete_nodes(vec![node.hash()]).unwrap();
    assert_eq!(fetch_node(&mut cache, &store, node.hash()), Ok(node));
    // A hash nowhere at all is an authoritative NotFound.
    let absent = HashValue::from_words(0xf00, 0, 0, 0);
    assert!(matches!(
        fetch_node(&mut cache, &store, absent),
        Err(StoreError::NotFound)
    ));
}

#[test]
fn empty_batches_on_the_store() {
    let mut store = MockAccumulatorStore::new();
    let node = leaf(3, 2);
    store.save_node(node).unwrap();
    assert_eq!(store.multiple_get(vec![]), Ok(vec![]));
    assert!(store.save_nodes(vec![]).is_ok());
    assert!(store.delete_nodes(vec![]).is_ok());
    assert_eq!(store.get_node(node.hash()), Ok(node));
}
