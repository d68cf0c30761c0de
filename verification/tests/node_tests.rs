use accumulator_store::hash_value::HashValue;
use accumulator_store::node::AccumulatorNode;
use accumulator_store::node_index::NodeIndex;

#[test]
fn hash_is_deterministic() {
    let leaf = AccumulatorNode::new_leaf(NodeIndex::new(0), HashValue::from_words(1, 2, 3, 4));
    assert_eq!(leaf.hash(), leaf.hash());
    let again = AccumulatorNode::new_leaf(NodeIndex::new(0), HashValue::from_words(1, 2, 3, 4));
    assert_eq!(leaf.hash(), again.hash());
}

#[test]
fn hash_separates_variants() {
    let payload = HashValue::from_words(7, 7, 7, 7);
    let empty = AccumulatorNode::new_empty();
    let leaf = AccumulatorNode::new_leaf(NodeIndex::new(0), payload);
    let internal = AccumulatorNode::new_internal(NodeIndex::new(1), payload, payload);
    assert_ne!(empty.hash(), leaf.hash());
    assert_ne!(empty.hash(), internal.hash());
    assert_ne!(leaf.hash(), internal.hash());
}

#[test]
fn hash_depends_on_contents() {
    let a = AccumulatorNode::new_leaf(NodeIndex::new(0), HashValue::from_words(1, 0, 0, 0));
    let b = AccumulatorNode::new_leaf(NodeIndex::new(0), HashValue::from_words(2, 0, 0, 0));
    assert_ne!(a.hash(), b.hash());
    let c = AccumulatorNode::new_internal(
        NodeIndex::new(1),
        HashValue::from_words(1, 0, 0, 0),
        HashValue::from_words(2, 0, 0, 0),
    );
    let d = AccumulatorNode::new_internal(
        NodeIndex::new(1),
        HashValue::from_words(2, 0, 0, 0),
        HashValue::from_words(1, 0, 0, 0),
    );
    assert_ne!(c.hash(), d.hash());
}

#[test]
fn hash_is_content_only() {
    // A node's position is not part of its content, so the same contents at
    // two positions share a content address.
    let payload = HashValue::from_words(9, 9, 9, 9);
    let a = AccumulatorNode::new_leaf(NodeIndex::new(0), payload);
    let b = AccumulatorNode::new_leaf(NodeIndex::new(2), payload);
    assert_eq!(a.hash(), b.hash());
}

#[test]
fn node_accessors() {
    let payload = HashValue::from_words(5, 6, 7, 8);
    let leaf = AccumulatorNode::new_leaf(NodeIndex::new(4), payload);
    assert!(!leaf.is_empty());
    assert_eq!(leaf.index(), NodeIndex::new(4));
    assert!(AccumulatorNode::new_empty().is_empty());
}

#[test]
fn hash_value_round_trips_through_bytes() {
    let h = HashValue::from_words(0x0123456789abcdef, 1, u64::MAX, 42);
    let bytes = h.to_le_bytes();
    assert_eq!(bytes.len(), 32);
    let back = HashValue::from_le_bytes(bytes.as_slice());
    assert_eq!(h, back);
    assert_eq!(HashValue::zero(), HashValue::from_words(0, 0, 0, 0));
}

#[test]
fn index_coordinates_round_trip() {
    // In-order ordinals: leaves sit at even ordinals, each row above at the
    // odd ordinals between its children.
    assert_eq!(NodeIndex::from_level_and_pos(0, 0).to_inorder_index(), 0);
    assert_eq!(NodeIndex::from_level_and_pos(1, 0).to_inorder_index(), 1);
    assert_eq!(NodeIndex::from_level_and_pos(0, 1).to_inorder_index(), 2);
    assert_eq!(NodeIndex::from_level_and_pos(2, 0).to_inorder_index(), 3);
    assert_eq!(NodeIndex::from_level_and_pos(1, 1).to_inorder_index(), 5);
    assert_eq!(NodeIndex::from_level_and_pos(2, 1).to_inorder_index(), 11);
    let n = NodeIndex::new(11);
    assert_eq!(n.level(), 2);
    assert_eq!(n.pos_in_level(), 1);
    let (l, p) = NodeIndex::new(6).coords();
    assert_eq!((l, p), (0, 3));
}

#[test]
fn index_family_relations() {
    let root_of_four = NodeIndex::new(3); // level 2, pos 0
    assert_eq!(root_of_four.left_child(), NodeIndex::new(1));
    assert_eq!(root_of_four.right_child(), NodeIndex::new(5));
    assert_eq!(NodeIndex::new(1).parent(), root_of_four);
    assert_eq!(NodeIndex::new(5).parent(), root_of_four);
    assert_eq!(NodeIndex::new(1).sibling(), NodeIndex::new(5));
    assert_eq!(NodeIndex::new(5).sibling(), NodeIndex::new(1));
    assert!(NodeIndex::new(1).is_left_child());
    assert!(!NodeIndex::new(5).is_left_child());
    assert_eq!(NodeIndex::new(0).parent(), NodeIndex::new(1));
    assert_eq!(NodeIndex::new(2).parent(), NodeIndex::new(1));
    assert_eq!(NodeIndex::new(0).sibling(), NodeIndex::new(2));
}
