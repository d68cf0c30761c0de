//! The tagged accumulator node representation and its content hash.
//!
//! A node is `Empty` (the canonical placeholder), a frozen `Leaf`, or a
//! frozen `Internal` node.  A node's identity for storage and caching is its
//! content hash: the sha3-256 digest of a tagged encoding of its contents.
//! The leading tag byte separates the domains of the three variants, so no
//! two variants hash over the same preimage.

use vstd::prelude::*;
use crate::hash_value::{digest_of, sha3_256_of, HashValue};
use crate::node_index::NodeIndex;

verus! {

/// Tag bytes that keep the three variants' hash preimages disjoint.
pub const EMPTY_TAG: u8 = 0;

pub const LEAF_TAG: u8 = 1;

pub const INTERNAL_TAG: u8 = 2;

/// One node of an accumulator: the placeholder, a frozen leaf carrying the
/// hash of its payload, or a frozen internal node carrying the hashes of its
/// two children.  Nodes are immutable values; they refer to other nodes only
/// by hash.
#[derive(Clone, Copy, Debug, PartialEq, Eq, Structural)]
pub enum AccumulatorNode {
    Empty,
    Leaf { index: NodeIndex, leaf_hash: HashValue },
    Internal { index: NodeIndex, left_hash: HashValue, right_hash: HashValue },
}

impl AccumulatorNode {
    /// The tag byte of this node's variant.
    pub open spec fn spec_tag(self) -> u8 {
        match self {
            AccumulatorNode::Empty => EMPTY_TAG,
            AccumulatorNode::Leaf { .. } => LEAF_TAG,
            AccumulatorNode::Internal { .. } => INTERNAL_TAG,
        }
    }

    pub open spec fn spec_is_empty(self) -> bool {
        self matches AccumulatorNode::Empty
    }

    /// The position of this node; meaningful only for `Leaf` and `Internal`.
    pub open spec fn spec_index(self) -> NodeIndex {
        match self {
            AccumulatorNode::Empty => NodeIndex { index: 0 },
            AccumulatorNode::Leaf { index, .. } => index,
            AccumulatorNode::Internal { index, .. } => index,
        }
    }

    /// The hash preimage of this node: its tag byte followed by the bytes of
    /// the hashed contents.  The position of a node is not part of its
    /// content, so the same contents stored at two positions share a hash.
    pub open spec fn spec_encode(self) -> Seq<u8> {
        match self {
            AccumulatorNode::Empty => seq![EMPTY_TAG],
            AccumulatorNode::Leaf { index: _, leaf_hash } => seq![LEAF_TAG]
                + leaf_hash.spec_to_le_bytes(),
            AccumulatorNode::Internal { index: _, left_hash, right_hash } => seq![INTERNAL_TAG]
                + left_hash.spec_to_le_bytes() + right_hash.spec_to_le_bytes(),
        }
    }

    /// The content hash of this node: the digest of its tagged encoding.
    pub open spec fn spec_hash(self) -> HashValue {
        HashValue::spec_from_le_bytes(digest_of(self.spec_encode()))
    }

    pub fn new_empty() -> (r: AccumulatorNode)
        ensures
            r == AccumulatorNode::Empty,
    {
        AccumulatorNode::Empty
    }

    pub fn new_leaf(index: NodeIndex, leaf_hash: HashValue) -> (r: AccumulatorNode)
        ensures
            r == (AccumulatorNode::Leaf { index, leaf_hash }),
    {
        AccumulatorNode::Leaf { index, leaf_hash }
    }

    pub fn new_internal(index: NodeIndex, left_hash: HashValue, right_hash: HashValue) -> (r:
        AccumulatorNode)
        ensures
            r == (AccumulatorNode::Internal { index, left_hash, right_hash }),
    {
        AccumulatorNode::Internal { index, left_hash, right_hash }
    }

    pub fn is_empty(&self) -> (r: bool)
        ensures
            r == self.spec_is_empty(),
    {
        match self {
            AccumulatorNode::Empty => true,
            _ => false,
        }
    }

    /// The position of this node.  Callers must not ask the placeholder for
    /// a position: it has none.
    pub fn index(&self) -> (r: NodeIndex)
        requires
            !self.spec_is_empty(),
        ensures
            r == self.spec_index(),
    {
        match self {
            AccumulatorNode::Empty => {
                proof {
                    assert(false);
                }
                NodeIndex { index: 0 }
            },
            AccumulatorNode::Leaf { index, .. } => *index,
            AccumulatorNode::Internal { index, .. } => *index,
        }
    }

    /// The tagged hash preimage of this node.
    pub fn encode(&self) -> (r: Vec<u8>)
        ensures
            r@ == self.spec_encode(),
    {
        let mut v: Vec<u8> = Vec::new();
        match self {
            AccumulatorNode::Empty => {
                v.push(EMPTY_TAG);
                proof {
                    assert(v@ =~= self.spec_encode());
                }
            },
            AccumulatorNode::Leaf { index: _, leaf_hash } => {
                v.push(LEAF_TAG);
                let mut b = leaf_hash.to_le_bytes();
                v.append(&mut b);
                proof {
                    assert(v@ =~= self.spec_encode());
                }
            },
            AccumulatorNode::Internal { index: _, left_hash, right_hash } => {
                v.push(INTERNAL_TAG);
                let mut b = left_hash.to_le_bytes();
                v.append(&mut b);
                let mut c = right_hash.to_le_bytes();
                v.append(&mut c);
                proof {
                    assert(v@ =~= self.spec_encode());
                }
            },
        }
        v
    }

    /// The content hash of this node: deterministic, a pure function of the
    /// variant and the hashed contents, and stable across restarts.
    pub fn hash(&self) -> (r: HashValue)
        ensures
            r == self.spec_hash(),
    {
        let bytes = self.encode();
        let d = sha3_256_of(&bytes);
        HashValue::from_le_bytes(d.as_slice())
    }
}

/// Domain separation: nodes of different variants hash over different
/// preimages, because the leading tag byte of the encoding already differs.
pub proof fn lemma_domain_separation(a: AccumulatorNode, b: AccumulatorNode)
    requires
        a.spec_tag() != b.spec_tag(),
    ensures
        a.spec_encode() != b.spec_encode(),
{
    assert(a.spec_encode()[0] == a.spec_tag());
    assert(b.spec_encode()[0] == b.spec_tag());
}

} // verus!
