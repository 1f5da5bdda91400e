//! Ordered lists of key and value in which a key occurs once: the shape of
//! query parameters and path parameters.

use vstd::prelude::*;

use crate::text::{find, lemma_find, lemma_find_is};

verus! {

/// The keys of a list, in order.
pub open spec fn keys<K, V>(m: Seq<(K, V)>) -> Seq<K> {
    m.map_values(|p: (K, V)| p.0)
}

/// No key occurs twice.
pub open spec fn unique_keys<K, V>(m: Seq<(K, V)>) -> bool {
    forall|i: int, j: int| 0 <= i < j < m.len() ==> (#[trigger] m[i]).0 != (#[trigger] m[j]).0
}

/// The value of the first pair with key `k`.
pub open spec fn lookup<K, V>(m: Seq<(K, V)>, k: K) -> Option<V> {
    let i = find(keys(m), k) as int;
    if i < m.len() {
        Some(m[i].1)
    } else {
        None
    }
}

/// The value of the last pair with key `k`.
pub open spec fn last_value<K, V>(raw: Seq<(K, V)>, k: K) -> Option<V>
    decreases raw.len(),
{
    if raw.len() == 0 {
        None
    } else if raw.last().0 == k {
        Some(raw.last().1)
    } else {
        last_value(raw.drop_last(), k)
    }
}

/// Binds `k` to `v`: in place where `k` is bound already, at the end where
/// it is not.
pub open spec fn upsert<K, V>(m: Seq<(K, V)>, k: K, v: V) -> Seq<(K, V)> {
    let i = find(keys(m), k) as int;
    if i < m.len() {
        m.update(i, (k, v))
    } else {
        m.push((k, v))
    }
}

/// Binds every pair of `raw` in turn, so that a later pair with the same key
/// wins. Keys keep the order in which they first came.
pub open spec fn collapse<K, V>(raw: Seq<(K, V)>) -> Seq<(K, V)>
    decreases raw.len(),
{
    if raw.len() == 0 {
        Seq::empty()
    } else {
        upsert(collapse(raw.drop_last()), raw.last().0, raw.last().1)
    }
}

/// After `upsert` the key is bound to the new value, every other key is
/// bound as before, and keys stay unique.
pub proof fn lemma_upsert<K, V>(m: Seq<(K, V)>, k: K, v: V)
    ensures
        lookup(upsert(m, k, v), k) == Some(v),
        forall|other: K| other != k ==> lookup(upsert(m, k, v), other) == lookup(m, other),
        unique_keys(m) ==> unique_keys(upsert(m, k, v)),
{
    let ks = keys(m);
    let i = find(ks, k) as int;
    let after = upsert(m, k, v);
    let ks_after = keys(after);
    lemma_find(ks, k);
    if i < m.len() {
        assert(ks_after =~= ks);
    } else {
        assert(ks_after =~= ks.push(k));
        assert forall|j: int| 0 <= j < ks.len() implies ks_after[j] != k by {
            assert(ks_after[j] == ks[j]);
        }
    }
    lemma_find_is(ks_after, k, i);
    assert forall|other: K| other != k implies lookup(after, other) == lookup(m, other) by {
        let a = find(ks, other) as int;
        lemma_find(ks, other);
        if i < m.len() {
        } else if a < ks.len() {
            assert forall|j: int| 0 <= j < a implies ks_after[j] != other by {
                assert(ks_after[j] == ks[j]);
            }
            assert(ks_after[a] == ks[a]);
            lemma_find_is(ks_after, other, a);
        } else {
            assert forall|j: int| 0 <= j < ks_after.len() implies ks_after[j] != other by {
                if j < ks.len() {
                    assert(ks_after[j] == ks[j]);
                }
            }
            lemma_find_is(ks_after, other, ks_after.len() as int);
        }
    }
    if unique_keys(m) {
        assert forall|a: int, b: int| 0 <= a < b < after.len() implies (#[trigger] after[a]).0 != (
        #[trigger] after[b]).0 by {
            if i < m.len() {
                assert(after[a].0 == m[a].0);
                assert(after[b].0 == m[b].0);
            } else if b < m.len() {
                assert(after[a] == m[a]);
                assert(after[b] == m[b]);
            } else {
                assert(ks[a] == m[a].0);
            }
        }
    }
}

/// In what `collapse` gives no key occurs twice, and each key is bound to
/// the value that came with it last.
pub proof fn lemma_collapse<K, V>(raw: Seq<(K, V)>)
    ensures
        unique_keys(collapse(raw)),
        forall|k: K| lookup(collapse(raw), k) == last_value(raw, k),
    decreases raw.len(),
{
    if raw.len() == 0 {
        assert forall|k: K| lookup(collapse(raw), k) == last_value(raw, k) by {
            assert(keys(collapse(raw)) =~= Seq::<K>::empty());
        }
    } else {
        let before = collapse(raw.drop_last());
        lemma_collapse(raw.drop_last());
        lemma_upsert(before, raw.last().0, raw.last().1);
        assert forall|k: K| lookup(collapse(raw), k) == last_value(raw, k) by {
            if k != raw.last().0 {
                assert(lookup(before, k) == last_value(raw.drop_last(), k));
            }
        }
    }
}

/// The views of a list of string pairs.
pub open spec fn pairs_view(v: Seq<(String, String)>) -> Seq<(Seq<char>, Seq<char>)> {
    v.map_values(|p: (String, String)| (p.0@, p.1@))
}

/// Binds `key` to `value` in `list`, as `upsert` says.
pub fn upsert_pair(list: &mut Vec<(String, String)>, key: String, value: String)
    ensures
        pairs_view(final(list)@) == upsert(pairs_view(old(list)@), key@, value@),
{
    let ghost before = pairs_view(list@);
    let ghost ks = keys(before);
    let mut i: usize = 0;
    while i < list.len()
        invariant
            i <= list.len(),
            list@ == old(list)@,
            before == pairs_view(list@),
            ks == keys(before),
            forall|j: int| 0 <= j < i ==> ks[j] != key@,
        decreases list.len() - i,
    {
        if list[i].0 == key {
            proof {
                assert(ks[i as int] == key@);
                lemma_find_is(ks, key@, i as int);
            }
            list.set(i, (key, value));
            proof {
                assert(pairs_view(list@) =~= before.update(i as int, (key@, value@)));
            }
            return ;
        }
        i += 1;
    }
    proof {
        lemma_find_is(ks, key@, ks.len() as int);
    }
    list.push((key, value));
    proof {
        assert(pairs_view(list@) =~= before.push((key@, value@)));
    }
}

} // verus!
