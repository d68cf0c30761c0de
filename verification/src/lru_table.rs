//! The trusted boundary around `lru::LruCache`.
//!
//! The two cache tables of this library are instances of `lru::LruCache`.
//! Verus sees the type as opaque; what each operation does is stated over two
//! named views per table — its recency-ordered entries and its capacity — in
//! terms of the model in `lru_model`.

use vstd::prelude::*;
use crate::cache::NodeCacheKey;
use crate::hash_value::HashValue;
use crate::lru_model::{lookup, touch, update_lru};
use crate::node::AccumulatorNode;

verus! {

/// `lru::LruCache`, declared so that values of it can stand in fields and
/// signatures; Verus treats such a value as opaque.
#[verifier::external_type_specification]
#[verifier::external_body]
#[verifier::reject_recursive_types(K)]
#[verifier::reject_recursive_types(V)]
#[verifier::reject_recursive_types(S)]
pub struct ExLruCache<K, V, S>(lru::LruCache<K, V, S>);

/// The hasher state that `lru::LruCache` defaults to; opaque to Verus.
#[verifier::external_type_specification]
#[verifier::external_body]
pub struct ExDefaultHasher(lru::DefaultHasher);

/// The entries of a content-addressed node table, most recently used first.
pub uninterp spec fn node_entries(c: lru::LruCache<HashValue, AccumulatorNode>) -> Seq<
    (HashValue, AccumulatorNode),
>;

/// The capacity a content-addressed node table was created with.
pub uninterp spec fn node_cap(c: lru::LruCache<HashValue, AccumulatorNode>) -> nat;

/// The entries of a positional index table, most recently used first.
pub uninterp spec fn index_entries(c: lru::LruCache<NodeCacheKey, HashValue>) -> Seq<
    (NodeCacheKey, HashValue),
>;

/// The capacity a positional index table was created with.
pub uninterp spec fn index_cap(c: lru::LruCache<NodeCacheKey, HashValue>) -> nat;

/// Relies on `lru::LruCache::new`: a fresh table is empty and holds at most
/// `cap` entries from then on.
#[verifier::external_body]
pub(crate) fn node_lru_new(cap: usize) -> (r: lru::LruCache<HashValue, AccumulatorNode>)
    requires
        cap >= 1,
    ensures
        node_entries(r) == Seq::<(HashValue, AccumulatorNode)>::empty(),
        node_cap(r) == cap as nat,
{
    lru::LruCache::new(core::num::NonZeroUsize::new(cap).unwrap())
}

/// Relies on `lru::LruCache::get`: a hit returns the cached value and marks
/// its entry most recently used; a miss changes nothing.
#[verifier::external_body]
pub(crate) fn node_lru_get(
    c: &mut lru::LruCache<HashValue, AccumulatorNode>,
    k: &HashValue,
) -> (r: Option<AccumulatorNode>)
    ensures
        node_cap(*final(c)) == node_cap(*old(c)),
        r == lookup(node_entries(*old(c)), *k),
        node_entries(*final(c)) == touch(node_entries(*old(c)), *k),
{
    c.get(k).copied()
}

/// Relies on `lru::LruCache::put`: binds `k` to `v` as most recently used and
/// returns the value previously under `k`; an existing entry is replaced in
/// place, and a fresh key arriving at capacity evicts the least recently used
/// entry.
#[verifier::external_body]
pub(crate) fn node_lru_put(
    c: &mut lru::LruCache<HashValue, AccumulatorNode>,
    k: HashValue,
    v: AccumulatorNode,
) -> (r: Option<AccumulatorNode>)
    ensures
        node_cap(*final(c)) == node_cap(*old(c)),
        r == lookup(node_entries(*old(c)), k),
        node_entries(*final(c)) == update_lru(node_entries(*old(c)), node_cap(*old(c)), k, v),
{
    c.put(k, v)
}

/// Relies on `lru::LruCache::new`: a fresh table is empty and holds at most
/// `cap` entries from then on.
#[verifier::external_body]
pub(crate) fn index_lru_new(cap: usize) -> (r: lru::LruCache<NodeCacheKey, HashValue>)
    requires
        cap >= 1,
    ensures
        index_entries(r) == Seq::<(NodeCacheKey, HashValue)>::empty(),
        index_cap(r) == cap as nat,
{
    lru::LruCache::new(core::num::NonZeroUsize::new(cap).unwrap())
}

/// Relies on `lru::LruCache::get`: a hit returns the cached value and marks
/// its entry most recently used; a miss changes nothing.
#[verifier::external_body]
pub(crate) fn index_lru_get(
    c: &mut lru::LruCache<NodeCacheKey, HashValue>,
    k: &NodeCacheKey,
) -> (r: Option<HashValue>)
    ensures
        index_cap(*final(c)) == index_cap(*old(c)),
        r == lookup(index_entries(*old(c)), *k),
        index_entries(*final(c)) == touch(index_entries(*old(c)), *k),
{
    c.get(k).copied()
}

/// Relies on `lru::LruCache::put`: binds `k` to `v` as most recently used and
/// returns the value previously under `k`; an existing entry is replaced in
/// place, and a fresh key arriving at capacity evicts the least recently used
/// entry.
#[verifier::external_body]
pub(crate) fn index_lru_put(
    c: &mut lru::LruCache<NodeCacheKey, HashValue>,
    k: NodeCacheKey,
    v: HashValue,
) -> (r: Option<HashValue>)
    ensures
        index_cap(*final(c)) == index_cap(*old(c)),
        r == lookup(index_entries(*old(c)), k),
        index_entries(*final(c)) == update_lru(index_entries(*old(c)), index_cap(*old(c)), k, v),
{
    c.put(k, v)
}

} // verus!
