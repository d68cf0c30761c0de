//! The mathematical model of a bounded least-recently-used map.
//!
//! A cache's state is a sequence of key-value pairs ordered by recency, most
//! recently used first, with pairwise-distinct keys and length bounded by the
//! capacity.  A lookup that hits promotes its entry to the front; an insert
//! puts its pair at the front, and when a fresh key arrives at capacity the
//! last (least recently used) entry is evicted.

use vstd::prelude::*;

verus! {

/// No two entries carry the same key.
pub open spec fn distinct_keys<K, V>(s: Seq<(K, V)>) -> bool {
    forall|i: int, j: int| 0 <= i < j < s.len() ==> s[i].0 != s[j].0
}

/// The index of the entry carrying `k`, or -1 if no entry does.
pub open spec fn find_key<K, V>(s: Seq<(K, V)>, k: K) -> int
    decreases s.len(),
{
    if s.len() == 0 {
        -1
    } else if s[0].0 == k {
        0
    } else {
        let r = find_key(s.skip(1), k);
        if r < 0 {
            -1
        } else {
            r + 1
        }
    }
}

/// Whether some entry carries `k`.
pub open spec fn has_key<K, V>(s: Seq<(K, V)>, k: K) -> bool {
    find_key(s, k) >= 0
}

/// The value cached under `k`, if any.
pub open spec fn lookup<K, V>(s: Seq<(K, V)>, k: K) -> Option<V> {
    if has_key(s, k) {
        Option::Some(s[find_key(s, k)].1)
    } else {
        Option::None
    }
}

/// The recency order after a lookup of `k`: a hit moves its entry to the
/// front, a miss changes nothing.
pub open spec fn touch<K, V>(s: Seq<(K, V)>, k: K) -> Seq<(K, V)> {
    if has_key(s, k) {
        seq![s[find_key(s, k)]] + s.remove(find_key(s, k))
    } else {
        s
    }
}

/// The recency order after `k` is bound to `v` in a cache of capacity `cap`:
/// an existing entry for `k` is replaced and promoted; otherwise the new pair
/// goes to the front, evicting the last entry if the cache is full.
pub open spec fn update_lru<K, V>(s: Seq<(K, V)>, cap: nat, k: K, v: V) -> Seq<(K, V)> {
    if has_key(s, k) {
        seq![(k, v)] + s.remove(find_key(s, k))
    } else if s.len() >= cap {
        seq![(k, v)] + s.drop_last()
    } else {
        seq![(k, v)] + s
    }
}

/// The entries as a key-value map, forgetting recency.
pub open spec fn as_map<K, V>(s: Seq<(K, V)>) -> Map<K, V> {
    Map::new(|k: K| has_key(s, k), |k: K| s[find_key(s, k)].1)
}

/// `find_key` finds `k` exactly when some entry carries it, and then points
/// at an entry carrying it.
pub proof fn lemma_find_key<K, V>(s: Seq<(K, V)>, k: K)
    ensures
        has_key(s, k) ==> 0 <= find_key(s, k) < s.len() && s[find_key(s, k)].0 == k,
        has_key(s, k) == exists|i: int| 0 <= i < s.len() && s[i].0 == k,
    decreases s.len(),
{
    if s.len() > 0 && s[0].0 != k {
        let t = s.skip(1);
        lemma_find_key(t, k);
        assert(forall|i: int| 0 <= i < t.len() ==> t[i] == s[i + 1]);
        if exists|i: int| 0 <= i < s.len() && s[i].0 == k {
            let i = choose|i: int| 0 <= i < s.len() && s[i].0 == k;
            assert(t[i - 1] == s[i]);
        }
    }
}

/// Under distinct keys, `find_key` agrees with any witness index.
pub proof fn lemma_find_key_unique<K, V>(s: Seq<(K, V)>, k: K, i: int)
    requires
        distinct_keys(s),
        0 <= i < s.len(),
        s[i].0 == k,
    ensures
        find_key(s, k) == i,
        lookup(s, k) == Option::Some(s[i].1),
{
    lemma_find_key(s, k);
    assert(has_key(s, k));
}

/// Under distinct keys a lookup is determined by the entries alone: it hits
/// exactly when an entry carries the key, and returns that entry's value.
pub proof fn lemma_lookup_char<K, V>(s: Seq<(K, V)>, k: K)
    requires
        distinct_keys(s),
    ensures
        (lookup(s, k) is Some) == exists|i: int| 0 <= i < s.len() && s[i].0 == k,
        forall|i: int| 0 <= i < s.len() && s[i].0 == k ==> lookup(s, k) == Option::Some(s[i].1),
    decreases s.len(),
{
    lemma_find_key(s, k);
    assert forall|i: int| 0 <= i < s.len() && s[i].0 == k implies lookup(s, k) == Option::Some(
        s[i].1,
    ) by {
        lemma_find_key_unique(s, k, i);
    }
}

/// An empty entry sequence reads back as the empty map.
pub proof fn lemma_as_map_empty<K, V>()
    ensures
        as_map(Seq::<(K, V)>::empty()) == Map::<K, V>::empty(),
{
    assert(as_map(Seq::<(K, V)>::empty()) =~= Map::<K, V>::empty());
}

/// Appending an entry with a fresh key binds that key and nothing else.
pub proof fn lemma_as_map_push<K, V>(s: Seq<(K, V)>, k: K, v: V)
    requires
        distinct_keys(s),
        !has_key(s, k),
    ensures
        distinct_keys(s.push((k, v))),
        as_map(s.push((k, v))) == as_map(s).insert(k, v),
{
    let t = s.push((k, v));
    lemma_find_key(s, k);
    assert(forall|i: int| 0 <= i < s.len() ==> t[i] == s[i]);
    assert(t[s.len() as int] == (k, v));
    assert(distinct_keys(t));
    assert forall|k2: K| #[trigger] as_map(t).contains_key(k2) == as_map(s).insert(
        k,
        v,
    ).contains_key(k2) && (as_map(t).contains_key(k2) ==> as_map(t)[k2] == as_map(s).insert(
        k,
        v,
    )[k2]) by {
        lemma_find_key(s, k2);
        lemma_find_key(t, k2);
        if k2 == k {
            lemma_find_key_unique(t, k2, s.len() as int);
        } else {
            if has_key(s, k2) {
                let a = choose|a: int| 0 <= a < s.len() && s[a].0 == k2;
                lemma_find_key_unique(s, k2, a);
                lemma_find_key_unique(t, k2, a);
            } else {
                if has_key(t, k2) {
                    let b = choose|b: int| 0 <= b < t.len() && t[b].0 == k2;
                    assert(b < s.len());
                    assert(false);
                }
            }
        }
    }
    assert(as_map(t) =~= as_map(s).insert(k, v));
}

/// Removing the entry at `i` unbinds exactly its key.
pub proof fn lemma_as_map_remove_at<K, V>(s: Seq<(K, V)>, i: int)
    requires
        distinct_keys(s),
        0 <= i < s.len(),
    ensures
        distinct_keys(s.remove(i)),
        !has_key(s.remove(i), s[i].0),
        as_map(s.remove(i)) == as_map(s).remove(s[i].0),
{
    let t = s.remove(i);
    assert(forall|j: int| 0 <= j < i ==> t[j] == s[j]);
    assert(forall|j: int| i <= j < t.len() ==> t[j] == s[j + 1]);
    assert(distinct_keys(t));
    lemma_find_key(t, s[i].0);
    if has_key(t, s[i].0) {
        let b = choose|b: int| 0 <= b < t.len() && t[b].0 == s[i].0;
        if b < i {
            assert(t[b] == s[b]);
        } else {
            assert(t[b] == s[b + 1]);
        }
        assert(false);
    }
    assert forall|k2: K| #[trigger] as_map(t).contains_key(k2) == as_map(s).remove(
        s[i].0,
    ).contains_key(k2) && (as_map(t).contains_key(k2) ==> as_map(t)[k2] == as_map(s).remove(
        s[i].0,
    )[k2]) by {
        lemma_find_key(s, k2);
        lemma_find_key(t, k2);
        if k2 != s[i].0 {
            if has_key(s, k2) {
                let a = choose|a: int| 0 <= a < s.len() && s[a].0 == k2;
                assert(a != i);
                lemma_find_key_unique(s, k2, a);
                if a < i {
                    lemma_find_key_unique(t, k2, a);
                } else {
                    assert(t[a - 1] == s[a]);
                    lemma_find_key_unique(t, k2, a - 1);
                }
            } else {
                if has_key(t, k2) {
                    let b = choose|b: int| 0 <= b < t.len() && t[b].0 == k2;
                    if b < i {
                        assert(s[b].0 == k2);
                    } else {
                        assert(s[b + 1].0 == k2);
                    }
                    assert(false);
                }
            }
        }
    }
    assert(as_map(t) =~= as_map(s).remove(s[i].0));
}

/// A hit's promotion permutes the entries: nothing is added, dropped, or
/// re-valued, so every lookup is unchanged.
pub proof fn lemma_touch<K, V>(s: Seq<(K, V)>, k: K)
    requires
        distinct_keys(s),
    ensures
        distinct_keys(touch(s, k)),
        touch(s, k).len() == s.len(),
        forall|j: int| 0 <= j < s.len() ==> s.contains(#[trigger] touch(s, k)[j]),
        forall|k2: K| #[trigger] lookup(touch(s, k), k2) == lookup(s, k2),
        has_key(s, k) ==> touch(s, k)[0] == (k, lookup(s, k)->Some_0),
{
    lemma_find_key(s, k);
    if has_key(s, k) {
        let i = find_key(s, k);
        let t = touch(s, k);
        assert(t[0] == s[i]);
        assert(forall|j: int| 1 <= j <= i ==> t[j] == s[j - 1]);
        assert(forall|j: int| i < j < s.len() ==> t[j] == s[j]);
        assert forall|j: int| 0 <= j < s.len() implies s.contains(#[trigger] t[j]) by {
            if j == 0 {
                assert(t[0] == s[i]);
            } else if j <= i {
                assert(t[j] == s[j - 1]);
            } else {
                assert(t[j] == s[j]);
            }
        }
        assert forall|k2: K| #[trigger] lookup(t, k2) == lookup(s, k2) by {
            lemma_lookup_char(s, k2);
            lemma_lookup_char(t, k2);
            if exists|a: int| 0 <= a < s.len() && s[a].0 == k2 {
                let a = choose|a: int| 0 <= a < s.len() && s[a].0 == k2;
                if a == i {
                    assert(t[0] == s[a]);
                } else if a < i {
                    assert(t[a + 1] == s[a]);
                } else {
                    assert(t[a] == s[a]);
                }
                assert(exists|b: int| 0 <= b < t.len() && t[b] == s[a]);
                let b = choose|b: int| 0 <= b < t.len() && t[b] == s[a];
                assert(lookup(s, k2) == Option::Some(s[a].1));
                assert(lookup(t, k2) == Option::Some(t[b].1));
            } else {
                if exists|b: int| 0 <= b < t.len() && t[b].0 == k2 {
                    let b = choose|b: int| 0 <= b < t.len() && t[b].0 == k2;
                    assert(s.contains(t[b]));
                    let a = choose|a: int| 0 <= a < s.len() && s[a] == t[b];
                    assert(false);
                }
            }
        }
        lemma_lookup_char(s, k);
    }
}

/// What an insert does to the entries: the new pair leads; every other entry
/// comes from the old state; the key's lookup now yields `v`; any other
/// key's lookup is unchanged unless that key sat in the evicted last entry.
pub proof fn lemma_update_lru<K, V>(s: Seq<(K, V)>, cap: nat, k: K, v: V)
    requires
        distinct_keys(s),
        cap >= 1,
        s.len() <= cap,
    ensures
        distinct_keys(update_lru(s, cap, k, v)),
        update_lru(s, cap, k, v).len() <= cap,
        update_lru(s, cap, k, v).len() >= 1,
        update_lru(s, cap, k, v)[0] == (k, v),
        has_key(s, k) ==> update_lru(s, cap, k, v).len() == s.len(),
        !has_key(s, k) && s.len() < cap ==> update_lru(s, cap, k, v).len() == s.len() + 1,
        !has_key(s, k) && s.len() == cap ==> update_lru(s, cap, k, v).len() == s.len(),
        forall|j: int| 1 <= j < update_lru(s, cap, k, v).len() ==> s.contains(
            #[trigger] update_lru(s, cap, k, v)[j],
        ),
        lookup(update_lru(s, cap, k, v), k) == Option::Some(v),
        forall|k2: K| k2 != k && !(!has_key(s, k) && s.len() == cap && s.last().0 == k2)
            ==> #[trigger] lookup(update_lru(s, cap, k, v), k2) == lookup(s, k2),
        forall|k2: K| k2 != k && !has_key(s, k) && s.len() == cap && s.last().0 == k2
            ==> #[trigger] lookup(update_lru(s, cap, k, v), k2) is None,
{
    lemma_find_key(s, k);
    let t = update_lru(s, cap, k, v);
    if has_key(s, k) {
        let i = find_key(s, k);
        assert(forall|j: int| 1 <= j <= i ==> t[j] == s[j - 1]);
        assert(forall|j: int| i < j < s.len() ==> t[j] == s[j]);
        assert forall|j: int| 1 <= j < t.len() implies s.contains(#[trigger] t[j]) by {
            if j <= i {
                assert(t[j] == s[j - 1]);
            } else {
                assert(t[j] == s[j]);
            }
        }
        assert(distinct_keys(t));
    } else if s.len() >= cap {
        assert(forall|j: int| 1 <= j < t.len() ==> t[j] == s[j - 1]);
        assert forall|j: int| 1 <= j < t.len() implies s.contains(#[trigger] t[j]) by {
            assert(t[j] == s[j - 1]);
        }
        assert(distinct_keys(t));
    } else {
        assert(forall|j: int| 1 <= j < t.len() ==> t[j] == s[j - 1]);
        assert forall|j: int| 1 <= j < t.len() implies s.contains(#[trigger] t[j]) by {
            assert(t[j] == s[j - 1]);
        }
        assert(distinct_keys(t));
    }
    assert(t[0] == (k, v));
    lemma_find_key_unique(t, k, 0);
    assert forall|k2: K|
        k2 != k && !(!has_key(s, k) && s.len() == cap && s.last().0 == k2)
            implies #[trigger] lookup(t, k2) == lookup(s, k2) by {
        lemma_lookup_char(s, k2);
        lemma_lookup_char(t, k2);
        lemma_find_key(s, k2);
        if exists|a: int| 0 <= a < s.len() && s[a].0 == k2 {
            let a = choose|a: int| 0 <= a < s.len() && s[a].0 == k2;
            if has_key(s, k) {
                let i = find_key(s, k);
                assert(a != i);
                if a < i {
                    assert(t[a + 1] == s[a]);
                } else {
                    assert(t[a] == s[a]);
                }
            } else if s.len() >= cap {
                assert(a < s.len() - 1);
                assert(t[a + 1] == s[a]);
            } else {
                assert(t[a + 1] == s[a]);
            }
            let b = choose|b: int| 0 <= b < t.len() && t[b] == s[a];
            assert(lookup(t, k2) == Option::Some(t[b].1));
        } else {
            if exists|b: int| 0 <= b < t.len() && t[b].0 == k2 {
                let b = choose|b: int| 0 <= b < t.len() && t[b].0 == k2;
                assert(b != 0);
                assert(s.contains(t[b]));
                let a = choose|a: int| 0 <= a < s.len() && s[a] == t[b];
                assert(false);
            }
        }
    }
    assert forall|k2: K|
        k2 != k && !has_key(s, k) && s.len() == cap && s.last().0 == k2
            implies #[trigger] lookup(t, k2) is None by {
        lemma_lookup_char(t, k2);
        if exists|b: int| 0 <= b < t.len() && t[b].0 == k2 {
            let b = choose|b: int| 0 <= b < t.len() && t[b].0 == k2;
            assert(b != 0);
            assert(t[b] == s[b - 1]);
            assert(s[b - 1].0 == s[s.len() - 1].0);
            assert(b - 1 == s.len() - 1);
            assert(b == t.len());
            assert(false);
        }
    }
}

/// The entries after inserting every pair of `ps`, in order.
pub open spec fn fill<K, V>(s: Seq<(K, V)>, cap: nat, ps: Seq<(K, V)>) -> Seq<(K, V)>
    decreases ps.len(),
{
    if ps.len() == 0 {
        s
    } else {
        fill(update_lru(s, cap, ps[0].0, ps[0].1), cap, ps.skip(1))
    }
}

/// Filling with fresh, pairwise-distinct keys lays the new pairs out newest
/// first in front of the old entries, truncated to the capacity.
pub proof fn lemma_fill_fresh<K, V>(s: Seq<(K, V)>, cap: nat, ps: Seq<(K, V)>)
    requires
        cap >= 1,
        distinct_keys(s),
        distinct_keys(ps),
        s.len() <= cap,
        forall|i: int| 0 <= i < ps.len() ==> !(#[trigger] has_key(s, ps[i].0)),
    ensures
        fill(s, cap, ps) == (ps.reverse() + s).take(
            vstd::math::min(cap as int, (ps.len() + s.len()) as int),
        ),
    decreases ps.len(),
{
    let target = (ps.reverse() + s).take(vstd::math::min(cap as int, (ps.len() + s.len()) as int));
    if ps.len() == 0 {
        assert(ps.reverse() + s =~= s);
        assert(target =~= s);
    } else {
        let p0 = ps[0];
        assert(!has_key(s, p0.0));
        let s1 = update_lru(s, cap, p0.0, p0.1);
        lemma_update_lru(s, cap, p0.0, p0.1);
        let ps1 = ps.skip(1);
        assert(forall|i: int| 0 <= i < ps1.len() ==> ps1[i] == ps[i + 1]);
        assert forall|i: int| 0 <= i < ps1.len() implies !(#[trigger] has_key(s1, ps1[i].0)) by {
            lemma_find_key(s1, ps1[i].0);
            if has_key(s1, ps1[i].0) {
                let b = choose|b: int| 0 <= b < s1.len() && s1[b].0 == ps1[i].0;
                if b == 0 {
                    assert(s1[0] == (p0.0, p0.1));
                    assert(ps[i + 1].0 == ps[0].0);
                    assert(false);
                } else {
                    assert(s.contains(s1[b]));
                    let a = choose|a: int| 0 <= a < s.len() && s[a] == s1[b];
                    lemma_find_key(s, ps1[i].0);
                    assert(has_key(s, ps[i + 1].0));
                    assert(false);
                }
            }
        }
        lemma_fill_fresh(s1, cap, ps1);
        assert(ps.reverse() =~= ps1.reverse() + seq![p0]);
        if s.len() < cap {
            assert(s1 =~= seq![p0] + s);
            assert(ps1.reverse() + s1 =~= ps.reverse() + s);
            assert(fill(s, cap, ps) == fill(s1, cap, ps1));
            assert(vstd::math::min(cap as int, (ps1.len() + s1.len()) as int) == vstd::math::min(
                cap as int,
                (ps.len() + s.len()) as int,
            ));
        } else {
            assert(s.len() == cap);
            assert(s1 =~= seq![p0] + s.drop_last());
            assert(ps1.reverse() + s1 =~= ps.reverse() + s.drop_last());
            assert(fill(s, cap, ps) == fill(s1, cap, ps1));
            assert(vstd::math::min(cap as int, (ps1.len() + s1.len()) as int) == cap as int);
            assert(vstd::math::min(cap as int, (ps.len() + s.len()) as int) == cap as int);
            let a = ps.reverse() + s.drop_last();
            let b = ps.reverse() + s;
            assert forall|i: int| 0 <= i < cap implies a[i] == b[i] by {
                if i < ps.len() {
                } else {
                    assert(a[i] == s.drop_last()[i - ps.len()]);
                    assert(b[i] == s[i - ps.len()]);
                    assert(i - ps.len() < s.len() - 1);
                }
            }
            assert(a.take(cap as int) =~= b.take(cap as int));
        }
    }
}

/// Least-recently-used eviction: filling an empty cache of capacity `cap`
/// with `cap + 1` pairwise-distinct fresh keys evicts exactly the first —
/// least recently used — key, whose lookup then misses; every later key is
/// still readable with the value it was inserted with.
pub proof fn lemma_lru_eviction<K, V>(cap: nat, ps: Seq<(K, V)>)
    requires
        cap >= 1,
        ps.len() == cap + 1,
        distinct_keys(ps),
    ensures
        lookup(fill(Seq::<(K, V)>::empty(), cap, ps), ps[0].0) is None,
        forall|j: int| 1 <= j < ps.len() ==> #[trigger] lookup(
            fill(Seq::<(K, V)>::empty(), cap, ps),
            ps[j].0,
        ) == Option::Some(ps[j].1),
{
    let e = Seq::<(K, V)>::empty();
    assert(forall|i: int| 0 <= i < ps.len() ==> !(#[trigger] has_key(e, ps[i].0)));
    lemma_fill_fresh(e, cap, ps);
    let t = fill(e, cap, ps);
    assert(ps.reverse() + e =~= ps.reverse());
    assert(t == ps.reverse().take(cap as int));
    assert(forall|i: int| 0 <= i < t.len() ==> t[i] == ps[ps.len() - 1 - i]);
    assert(distinct_keys(t));
    lemma_lookup_char(t, ps[0].0);
    if exists|b: int| 0 <= b < t.len() && t[b].0 == ps[0].0 {
        let b = choose|b: int| 0 <= b < t.len() && t[b].0 == ps[0].0;
        assert(t[b] == ps[ps.len() - 1 - b]);
        assert(ps.len() - 1 - b >= 1);
        assert(false);
    }
    assert forall|j: int| 1 <= j < ps.len() implies #[trigger] lookup(t, ps[j].0)
        == Option::Some(ps[j].1) by {
        lemma_lookup_char(t, ps[j].0);
        let b = ps.len() - 1 - j;
        assert(0 <= b < t.len());
        assert(t[b] == ps[j]);
    }
}

} // verus!
