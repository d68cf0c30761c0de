//! Positional addressing of accumulator nodes.
//!
//! A node's position in the conceptual complete binary tree is a single
//! ordinal: the in-order traversal rank of the position.  A node at `level`
//! (height above the leaf row) and `pos` (offset within its row, counted from
//! the left) has ordinal `pos * 2^(level+1) + 2^level - 1`.  The mapping
//! between ordinals and `(level, pos)` pairs is bijective; parents, siblings
//! and children are pure arithmetic on the coordinates.

use vstd::prelude::*;
use vstd::arithmetic::power2::{
    lemma2_to64, lemma2_to64_rest, lemma_pow2_pos, lemma_pow2_strictly_increases,
    lemma_pow2_unfold, pow2,
};

verus! {

/// The ordinal of the position at `level` and `pos`.
pub open spec fn spec_index_of(level: nat, pos: nat) -> nat {
    (pos * pow2(level + 1) + pow2(level) - 1) as nat
}

/// The level (row, height above the leaves) of the position with this ordinal.
pub open spec fn spec_level_of(index: nat) -> nat
    decreases index,
{
    if index % 2 == 0 {
        0
    } else {
        1 + spec_level_of(((index - 1) / 2) as nat)
    }
}

/// The offset within its row (column) of the position with this ordinal.
pub open spec fn spec_pos_of(index: nat) -> nat
    decreases index,
{
    if index % 2 == 0 {
        index / 2
    } else {
        spec_pos_of(((index - 1) / 2) as nat)
    }
}

/// Every ordinal names exactly one `(level, pos)` coordinate pair: mapping an
/// ordinal to its coordinates and back yields the same ordinal.
pub proof fn lemma_coords_of_index(index: nat)
    ensures
        spec_index_of(spec_level_of(index), spec_pos_of(index)) == index,
    decreases index,
{
    lemma2_to64();
    if index % 2 == 0 {
        assert(spec_index_of(0, index / 2) == (index / 2) * 2 + 1 - 1);
    } else {
        let m = ((index - 1) / 2) as nat;
        lemma_coords_of_index(m);
        let l = spec_level_of(m);
        let p = spec_pos_of(m);
        lemma_pow2_pos(l);
        lemma_pow2_unfold(l + 1);
        lemma_pow2_unfold(l + 2);
        assert(p * pow2(l + 1) + pow2(l) - 1 == m);
        assert(p * pow2(l + 2) == 2 * (p * pow2(l + 1))) by (nonlinear_arith)
            requires
                pow2(l + 2) == 2 * pow2(l + 1);
        assert(spec_index_of(l + 1, p) == 2 * m + 1);
        assert(index == 2 * m + 1);
    }
}

/// Distinct coordinate pairs name distinct ordinals: mapping coordinates to
/// an ordinal and back yields the same coordinates.
pub proof fn lemma_index_of_coords(level: nat, pos: nat)
    ensures
        spec_level_of(spec_index_of(level, pos)) == level,
        spec_pos_of(spec_index_of(level, pos)) == pos,
    decreases level,
{
    lemma2_to64();
    lemma_pow2_pos(level);
    let n = spec_index_of(level, pos);
    if level == 0 {
        assert(n == pos * 2);
        assert(n % 2 == 0) by (nonlinear_arith)
            requires
                n == pos * 2;
        assert(n / 2 == pos) by (nonlinear_arith)
            requires
                n == pos * 2;
    } else {
        lemma_pow2_unfold(level);
        lemma_pow2_unfold(level + 1);
        let pl = pow2((level - 1) as nat);
        assert(pow2(level) == 2 * pl);
        assert(pos * pow2(level + 1) == 2 * (pos * pow2(level))) by (nonlinear_arith)
            requires
                pow2(level + 1) == 2 * pow2(level);
        let m = spec_index_of((level - 1) as nat, pos);
        assert(pos * pow2(level) == 2 * (pos * pl)) by (nonlinear_arith)
            requires
                pow2(level) == 2 * pl;
        lemma_pow2_pos((level - 1) as nat);
        assert(m == pos * pow2(level) + pl - 1);
        assert(n == 2 * (pos * pow2(level)) + 2 * pl - 1);
        assert(n == 2 * m + 1);
        assert(n % 2 == 1);
        assert(((n - 1) / 2) as nat == m);
        lemma_index_of_coords((level - 1) as nat, pos);
    }
}

/// One position in the conceptual complete binary tree, named by its in-order
/// ordinal.
#[derive(Clone, Copy, Debug, PartialEq, Eq, Hash, Structural)]
pub struct NodeIndex {
    pub index: u64,
}

impl NodeIndex {
    /// The level (row) of this position.
    pub open spec fn level_spec(self) -> nat {
        spec_level_of(self.index as nat)
    }

    /// The offset within its row (column) of this position.
    pub open spec fn pos_spec(self) -> nat {
        spec_pos_of(self.index as nat)
    }

    pub fn new(index: u64) -> (r: NodeIndex)
        ensures
            r.index == index,
    {
        NodeIndex { index }
    }

    pub fn to_inorder_index(&self) -> (r: u64)
        ensures
            r == self.index,
    {
        self.index
    }

    /// The level and row offset of this position, computed by stripping the
    /// trailing one bits of the ordinal.
    pub fn coords(&self) -> (r: (u64, u64))
        ensures
            r.0 as nat == self.level_spec(),
            r.1 as nat == self.pos_spec(),
            r.0 <= 64,
    {
        proof {
            lemma2_to64();
            lemma2_to64_rest();
        }
        let mut m: u64 = self.index;
        let mut l: u64 = 0;
        while m % 2 == 1
            invariant
                l <= 64,
                pow2(l as nat) <= u64::MAX as nat + 1,
                self.index as nat == (m as nat) * pow2(l as nat) + pow2(l as nat) - 1,
            decreases m,
        {
            proof {
                lemma_pow2_pos(l as nat);
                lemma_pow2_unfold(l as nat + 1);
                let q = ((m - 1) / 2) as nat;
                assert((m as nat) == 2 * q + 1);
                assert((2 * q + 1) * pow2(l as nat) == q * (2 * pow2(l as nat)) + pow2(l as nat))
                    by (nonlinear_arith);
                assert(self.index as nat == q * pow2(l as nat + 1) + pow2(l as nat + 1) - 1);
                // The next level's power of two still fits: the ordinal itself
                // bounds it from above.
                assert(q * pow2(l as nat + 1) >= 0) by (nonlinear_arith);
                assert(pow2(l as nat + 1) <= self.index as nat + 1);
                if l + 1 > 64 {
                    lemma2_to64_rest();
                    lemma_pow2_strictly_increases(64, l as nat + 1);
                    assert(false);
                }
            }
            m = (m - 1) / 2;
            l = l + 1;
        }
        proof {
            let q = (m / 2) as nat;
            assert((m as nat) == 2 * q);
            lemma_pow2_unfold(l as nat + 1);
            assert((2 * q) * pow2(l as nat) == q * (2 * pow2(l as nat))) by (nonlinear_arith);
            assert(self.index as nat == q * pow2(l as nat + 1) + pow2(l as nat) - 1);
            assert(self.index as nat == spec_index_of(l as nat, q));
            lemma_index_of_coords(l as nat, q);
        }
        (l, m / 2)
    }

    /// The level (row, height above the leaf row) of this position.
    pub fn level(&self) -> (r: u64)
        ensures
            r as nat == self.level_spec(),
    {
        self.coords().0
    }

    /// The offset of this position within its row, counted from the left.
    pub fn pos_in_level(&self) -> (r: u64)
        ensures
            r as nat == self.pos_spec(),
    {
        self.coords().1
    }

    /// The position at `level` and `pos`; the inverse of `coords`.
    pub fn from_level_and_pos(level: u64, pos: u64) -> (r: NodeIndex)
        requires
            level <= 63,
            spec_index_of(level as nat, pos as nat) <= u64::MAX as nat,
        ensures
            r.index as nat == spec_index_of(level as nat, pos as nat),
            r.level_spec() == level as nat,
            r.pos_spec() == pos as nat,
    {
        proof {
            lemma2_to64();
            lemma_pow2_pos(level as nat);
            lemma_pow2_unfold(level as nat + 1);
            assert((pos as nat) * pow2(level as nat + 1) == 2 * ((pos as nat) * pow2(level as nat)))
                by (nonlinear_arith)
                requires
                    pow2(level as nat + 1) == 2 * pow2(level as nat);
            lemma2_to64_rest();
            if (level as nat) < 63 {
                lemma_pow2_strictly_increases(level as nat, 63);
            }
            lemma_index_of_coords(level as nat, pos as nat);
        }
        let p = pow2_u64(level);
        let x = pos * p;
        let idx = x + x + (p - 1);
        NodeIndex { index: idx }
    }

    /// The parent position: one level up, at half the row offset.
    pub fn parent(&self) -> (r: NodeIndex)
        requires
            self.level_spec() <= 62,
            spec_index_of(self.level_spec() + 1, self.pos_spec() / 2) <= u64::MAX as nat,
        ensures
            r.level_spec() == self.level_spec() + 1,
            r.pos_spec() == self.pos_spec() / 2,
    {
        let (l, p) = self.coords();
        NodeIndex::from_level_and_pos(l + 1, p / 2)
    }

    /// Whether this position is the left child of its parent.
    pub fn is_left_child(&self) -> (r: bool)
        ensures
            r == (self.pos_spec() % 2 == 0),
    {
        let (_, p) = self.coords();
        p % 2 == 0
    }

    /// The other child of this position's parent: same level, row offset with
    /// the lowest bit flipped.
    pub fn sibling(&self) -> (r: NodeIndex)
        requires
            self.level_spec() <= 63,
            spec_index_of(
                self.level_spec(),
                if self.pos_spec() % 2 == 0 {
                    self.pos_spec() + 1
                } else {
                    (self.pos_spec() - 1) as nat
                },
            ) <= u64::MAX as nat,
        ensures
            r.level_spec() == self.level_spec(),
            r.pos_spec() == if self.pos_spec() % 2 == 0 {
                self.pos_spec() + 1
            } else {
                (self.pos_spec() - 1) as nat
            },
    {
        let (l, p) = self.coords();
        if p % 2 == 0 {
            proof {
                lemma_pow2_pos(l as nat);
                lemma_pow2_pos(l as nat + 1);
                assert((p as nat + 1) * pow2(l as nat + 1) >= p as nat + 1) by (nonlinear_arith)
                    requires
                        pow2(l as nat + 1) >= 1;
            }
            NodeIndex::from_level_and_pos(l, p + 1)
        } else {
            NodeIndex::from_level_and_pos(l, p - 1)
        }
    }

    /// The left child of this position: one level down, at twice the row
    /// offset.  Undefined for positions on the leaf row.
    pub fn left_child(&self) -> (r: NodeIndex)
        requires
            self.level_spec() >= 1,
            spec_index_of((self.level_spec() - 1) as nat, self.pos_spec() * 2) <= u64::MAX as nat,
        ensures
            r.level_spec() == self.level_spec() - 1,
            r.pos_spec() == self.pos_spec() * 2,
    {
        let (l, p) = self.coords();
        proof {
            lemma_pow2_pos((l - 1) as nat);
            lemma_pow2_pos((l - 1) as nat + 1);
            assert((p as nat * 2) * pow2((l - 1) as nat + 1) >= p as nat * 2) by (nonlinear_arith)
                requires
                    pow2((l - 1) as nat + 1) >= 1;
        }
        NodeIndex::from_level_and_pos(l - 1, p * 2)
    }

    /// The right child of this position: one level down, at twice the row
    /// offset plus one.  Undefined for positions on the leaf row.
    pub fn right_child(&self) -> (r: NodeIndex)
        requires
            self.level_spec() >= 1,
            spec_index_of((self.level_spec() - 1) as nat, self.pos_spec() * 2 + 1)
                <= u64::MAX as nat,
        ensures
            r.level_spec() == self.level_spec() - 1,
            r.pos_spec() == self.pos_spec() * 2 + 1,
    {
        let (l, p) = self.coords();
        proof {
            lemma_pow2_pos((l - 1) as nat);
            lemma_pow2_pos((l - 1) as nat + 1);
            assert((p as nat * 2 + 1) * pow2((l - 1) as nat + 1) >= p as nat * 2 + 1)
                by (nonlinear_arith)
                requires
                    pow2((l - 1) as nat + 1) >= 1;
        }
        NodeIndex::from_level_and_pos(l - 1, p * 2 + 1)
    }
}

/// `2^e` as a machine word.
fn pow2_u64(e: u64) -> (r: u64)
    requires
        pow2(e as nat) <= u64::MAX as nat,
    ensures
        r as nat == pow2(e as nat),
{
    proof {
        lemma2_to64();
    }
    let mut r: u64 = 1;
    let mut i: u64 = 0;
    while i < e
        invariant
            i <= e,
            r as nat == pow2(i as nat),
            pow2(e as nat) <= u64::MAX as nat,
        decreases e - i,
    {
        proof {
            lemma_pow2_unfold(i as nat + 1);
            if pow2(i as nat + 1) > u64::MAX as nat {
                if i + 1 <= e {
                    if i as nat + 1 < e as nat {
                        lemma_pow2_strictly_increases(i as nat + 1, e as nat);
                    }
                    assert(false);
                }
            }
        }
        r = r * 2;
        i = i + 1;
    }
    r
}

} // verus!
