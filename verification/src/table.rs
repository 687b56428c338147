//! Lists of keyed entries read as maps. The broker keeps its session table
//! and its subscription index as such lists, with pairwise different keys.

use vstd::prelude::*;

verus! {

/// No two entries have the same key.
pub open spec fn keys_unique<K, V>(entries: Seq<(K, V)>) -> bool {
    forall|i: int, j: int|
        0 <= i < j < entries.len() ==> (#[trigger] entries[i]).0 != (#[trigger] entries[j]).0
}

/// Some entry has the key `k`.
pub open spec fn has_key<K, V>(entries: Seq<(K, V)>, k: K) -> bool {
    exists|i: int| 0 <= i < entries.len() && (#[trigger] entries[i]).0 == k
}

/// A position at which the key `k` stands.
pub open spec fn index_of_key<K, V>(entries: Seq<(K, V)>, k: K) -> int {
    choose|i: int| 0 <= i < entries.len() && (#[trigger] entries[i]).0 == k
}

/// The map from each key of the list to the value that stands beside it.
pub open spec fn as_map<K, V>(entries: Seq<(K, V)>) -> Map<K, V> {
    Map::new(|k: K| has_key(entries, k), |k: K| entries[index_of_key(entries, k)].1)
}

/// The entry at position `i` is what the map holds under its key.
pub proof fn lemma_as_map_at<K, V>(entries: Seq<(K, V)>, i: int)
    requires
        keys_unique(entries),
        0 <= i < entries.len(),
    ensures
        as_map(entries).contains_key(entries[i].0),
        as_map(entries)[entries[i].0] == entries[i].1,
        index_of_key(entries, entries[i].0) == i,
{
    let k = entries[i].0;
    assert(has_key(entries, k));
    let j = index_of_key(entries, k);
    assert(0 <= j < entries.len() && entries[j].0 == k);
    if j < i {
        assert(entries[j].0 != entries[i].0);
    } else if i < j {
        assert(entries[i].0 != entries[j].0);
    }
}

/// A key that stands at no position is not in the map.
pub proof fn lemma_as_map_absent<K, V>(entries: Seq<(K, V)>, k: K)
    requires
        forall|i: int| 0 <= i < entries.len() ==> (#[trigger] entries[i]).0 != k,
    ensures
        !as_map(entries).contains_key(k),
{
}

/// Replacing the value at position `i` is an insertion under the same key.
pub proof fn lemma_as_map_update<K, V>(entries: Seq<(K, V)>, i: int, v: V)
    requires
        keys_unique(entries),
        0 <= i < entries.len(),
    ensures
        keys_unique(entries.update(i, (entries[i].0, v))),
        as_map(entries.update(i, (entries[i].0, v))) == as_map(entries).insert(entries[i].0, v),
{
    let k = entries[i].0;
    let updated = entries.update(i, (k, v));
    assert(keys_unique(updated)) by {
        assert forall|a: int, b: int| 0 <= a < b < updated.len() implies (#[trigger] updated[a]).0
            != (#[trigger] updated[b]).0 by {
            assert(updated[a].0 == entries[a].0);
            assert(updated[b].0 == entries[b].0);
        }
    }
    let m1 = as_map(updated);
    let m2 = as_map(entries).insert(k, v);
    assert forall|x: K| m1.contains_key(x) <==> m2.contains_key(x) by {
        if m1.contains_key(x) {
            let j = index_of_key(updated, x);
            assert(entries[j].0 == x);
        }
        if m2.contains_key(x) {
            if x == k {
                assert(updated[i].0 == x);
            } else {
                let j = index_of_key(entries, x);
                assert(updated[j].0 == x);
            }
        }
    }
    assert forall|x: K| m1.contains_key(x) implies m1[x] == m2[x] by {
        let j = index_of_key(updated, x);
        lemma_as_map_at(updated, j);
        assert(entries[j].0 == x);
        lemma_as_map_at(entries, j);
    }
    assert(m1 =~= m2);
}

/// Appending an entry under a key that the list does not have is an
/// insertion.
pub proof fn lemma_as_map_push<K, V>(entries: Seq<(K, V)>, k: K, v: V)
    requires
        keys_unique(entries),
        !has_key(entries, k),
    ensures
        keys_unique(entries.push((k, v))),
        as_map(entries.push((k, v))) == as_map(entries).insert(k, v),
{
    let pushed = entries.push((k, v));
    assert(keys_unique(pushed)) by {
        assert forall|a: int, b: int| 0 <= a < b < pushed.len() implies (#[trigger] pushed[a]).0
            != (#[trigger] pushed[b]).0 by {
            assert(pushed[a] == entries[a]);
            if b < entries.len() {
                assert(pushed[b] == entries[b]);
            }
        }
    }
    let m1 = as_map(pushed);
    let m2 = as_map(entries).insert(k, v);
    assert forall|x: K| m1.contains_key(x) <==> m2.contains_key(x) by {
        if m1.contains_key(x) {
            let j = index_of_key(pushed, x);
            if j < entries.len() {
                assert(entries[j].0 == x);
            }
        }
        if m2.contains_key(x) {
            if x == k {
                assert(pushed[entries.len() as int].0 == x);
            } else {
                let j = index_of_key(entries, x);
                assert(pushed[j].0 == x);
            }
        }
    }
    assert forall|x: K| m1.contains_key(x) implies m1[x] == m2[x] by {
        let j = index_of_key(pushed, x);
        lemma_as_map_at(pushed, j);
        if j < entries.len() {
            assert(entries[j].0 == x);
            lemma_as_map_at(entries, j);
        }
    }
    assert(m1 =~= m2);
}

/// Taking the entry at position `i` out of the list removes its key.
pub proof fn lemma_as_map_remove<K, V>(entries: Seq<(K, V)>, i: int)
    requires
        keys_unique(entries),
        0 <= i < entries.len(),
    ensures
        keys_unique(entries.remove(i)),
        as_map(entries.remove(i)) == as_map(entries).remove(entries[i].0),
{
    let k = entries[i].0;
    let removed = entries.remove(i);
    assert forall|a: int| 0 <= a < removed.len() implies #[trigger] removed[a] == entries[if a
        < i {
        a
    } else {
        a + 1
    }] by {}
    assert(keys_unique(removed)) by {
        assert forall|a: int, b: int| 0 <= a < b < removed.len() implies (#[trigger] removed[a]).0
            != (#[trigger] removed[b]).0 by {
            let a2 = if a < i { a } else { a + 1 };
            let b2 = if b < i { b } else { b + 1 };
            assert(removed[a] == entries[a2]);
            assert(removed[b] == entries[b2]);
            assert(entries[a2].0 != entries[b2].0);
        }
    }
    let m1 = as_map(removed);
    let m2 = as_map(entries).remove(k);
    assert forall|x: K| m1.contains_key(x) <==> m2.contains_key(x) by {
        if m1.contains_key(x) {
            let j = index_of_key(removed, x);
            let j2 = if j < i { j } else { j + 1 };
            assert(removed[j] == entries[j2]);
            assert(entries[j2].0 == x);
            if j2 < i {
                assert(entries[j2].0 != entries[i].0);
            } else {
                assert(entries[i].0 != entries[j2].0);
            }
        }
        if m2.contains_key(x) {
            let j = index_of_key(entries, x);
            assert(j != i);
            let j1 = if j < i { j } else { j - 1 };
            assert(removed[j1] == entries[j]);
            assert(removed[j1].0 == x);
        }
    }
    assert forall|x: K| m1.contains_key(x) implies m1[x] == m2[x] by {
        let j = index_of_key(removed, x);
        lemma_as_map_at(removed, j);
        let j2 = if j < i { j } else { j + 1 };
        assert(removed[j] == entries[j2]);
        lemma_as_map_at(entries, j2);
    }
    assert(m1 =~= m2);
}

/// Two lists with the same keys at the same positions, whose values are
/// related by `f`, stand for maps related by `f`.
pub proof fn lemma_as_map_values<K, V>(old_entries: Seq<(K, V)>, new_entries: Seq<(K, V)>, f: spec_fn(V) -> V)
    requires
        keys_unique(old_entries),
        new_entries.len() == old_entries.len(),
        forall|i: int|
            0 <= i < old_entries.len() ==> (#[trigger] new_entries[i]) == (
                old_entries[i].0,
                f(old_entries[i].1),
            ),
    ensures
        keys_unique(new_entries),
        as_map(new_entries) == as_map(old_entries).map_values(f),
{
    assert(keys_unique(new_entries)) by {
        assert forall|a: int, b: int| 0 <= a < b < new_entries.len() implies (
        #[trigger] new_entries[a]).0 != (#[trigger] new_entries[b]).0 by {
            assert(old_entries[a].0 != old_entries[b].0);
        }
    }
    let m1 = as_map(new_entries);
    let m2 = as_map(old_entries).map_values(f);
    assert forall|x: K| m1.contains_key(x) <==> m2.contains_key(x) by {
        if m1.contains_key(x) {
            let j = index_of_key(new_entries, x);
            assert(old_entries[j].0 == x);
        }
        if m2.contains_key(x) {
            let j = index_of_key(old_entries, x);
            assert(new_entries[j].0 == x);
        }
    }
    assert forall|x: K| m1.contains_key(x) implies m1[x] == m2[x] by {
        let j = index_of_key(new_entries, x);
        lemma_as_map_at(new_entries, j);
        assert(old_entries[j].0 == x);
        lemma_as_map_at(old_entries, j);
    }
    assert(m1 =~= m2);
}

} // verus!
