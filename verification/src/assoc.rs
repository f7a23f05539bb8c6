use vstd::prelude::*;

verus! {

/// No two entries of the list carry the same key.
pub open spec fn keys_distinct<K, V>(entries: Seq<(K, V)>) -> bool {
    forall|i: int, j: int| 0 <= i < j < entries.len() ==> entries[i].0 != entries[j].0
}

/// Whether some entry of the list carries `key`.
pub open spec fn has_key<K, V>(entries: Seq<(K, V)>, key: K) -> bool {
    exists|i: int| 0 <= i < entries.len() && (#[trigger] entries[i]).0 == key
}

/// The map that a list of entries stands for.  Where a key occurs twice, the
/// later entry counts.
pub open spec fn to_map<K, V>(entries: Seq<(K, V)>) -> Map<K, V>
    decreases entries.len(),
{
    if entries.len() == 0 {
        Map::empty()
    } else {
        to_map(entries.drop_last()).insert(entries.last().0, entries.last().1)
    }
}

/// The map holds exactly the keys of the list.
pub proof fn lemma_to_map_keys<K, V>(entries: Seq<(K, V)>)
    ensures
        forall|key: K| #[trigger] to_map(entries).contains_key(key) <==> has_key(entries, key),
        to_map(entries).dom().finite(),
    decreases entries.len(),
{
    if entries.len() > 0 {
        let rest = entries.drop_last();
        lemma_to_map_keys(rest);
        assert forall|key: K| #[trigger]
            to_map(entries).contains_key(key) <==> has_key(entries, key) by {
            if has_key(rest, key) {
                let i = choose|i: int| 0 <= i < rest.len() && (#[trigger] rest[i]).0 == key;
                assert(entries[i].0 == key);
            }
            if has_key(entries, key) {
                let i = choose|i: int| 0 <= i < entries.len() && (#[trigger] entries[i]).0 == key;
                if i < rest.len() {
                    assert(rest[i].0 == key);
                }
            }
        }
    }
}

/// With distinct keys, the map gives each key the value of its entry.
pub proof fn lemma_to_map_value<K, V>(entries: Seq<(K, V)>, at: int)
    requires
        keys_distinct(entries),
        0 <= at < entries.len(),
    ensures
        to_map(entries).contains_key(entries[at].0),
        to_map(entries)[entries[at].0] == entries[at].1,
    decreases entries.len(),
{
    let rest = entries.drop_last();
    if at < rest.len() {
        assert(keys_distinct(rest)) by {
            assert forall|i: int, j: int| 0 <= i < j < rest.len() implies rest[i].0 != rest[j].0 by {
                assert(entries[i].0 != entries[j].0);
            }
        }
        lemma_to_map_value(rest, at);
        assert(rest[at] == entries[at]);
        assert(entries[at].0 != entries.last().0);
    }
}

/// Adding an entry at the end inserts it into the map.
pub proof fn lemma_to_map_push<K, V>(entries: Seq<(K, V)>, entry: (K, V))
    ensures
        to_map(entries.push(entry)) == to_map(entries).insert(entry.0, entry.1),
{
    assert(entries.push(entry).drop_last() =~= entries);
}

/// With distinct keys, taking an entry out removes its key from the map.
pub proof fn lemma_to_map_remove<K, V>(entries: Seq<(K, V)>, at: int)
    requires
        keys_distinct(entries),
        0 <= at < entries.len(),
    ensures
        keys_distinct(entries.remove(at)),
        to_map(entries.remove(at)) == to_map(entries).remove(entries[at].0),
{
    let shorter = entries.remove(at);
    let key = entries[at].0;
    assert(keys_distinct(shorter)) by {
        assert forall|i: int, j: int| 0 <= i < j < shorter.len() implies shorter[i].0
            != shorter[j].0 by {
            let a = if i < at { i } else { i + 1 };
            let b = if j < at { j } else { j + 1 };
            assert(shorter[i] == entries[a]);
            assert(shorter[j] == entries[b]);
        }
    }
    lemma_to_map_keys(entries);
    lemma_to_map_keys(shorter);
    let left = to_map(shorter);
    let right = to_map(entries).remove(key);
    assert forall|k: K| left.contains_key(k) <==> right.contains_key(k) by {
        if left.contains_key(k) {
            let i = choose|i: int| 0 <= i < shorter.len() && (#[trigger] shorter[i]).0 == k;
            let a = if i < at { i } else { i + 1 };
            assert(shorter[i] == entries[a]);
            assert(entries[a].0 == k);
            assert(has_key(entries, k));
            assert(k != key);
        }
        if right.contains_key(k) {
            let a = choose|a: int| 0 <= a < entries.len() && (#[trigger] entries[a]).0 == k;
            assert(a != at);
            let i = if a < at { a } else { a - 1 };
            assert(shorter[i] == entries[a]);
            assert(has_key(shorter, k));
        }
    }
    assert forall|k: K| left.contains_key(k) implies left[k] == right[k] by {
        let i = choose|i: int| 0 <= i < shorter.len() && (#[trigger] shorter[i]).0 == k;
        let a = if i < at { i } else { i + 1 };
        assert(shorter[i] == entries[a]);
        lemma_to_map_value(shorter, i);
        lemma_to_map_value(entries, a);
    }
    assert(left =~= right);
}

/// With distinct keys, replacing the value of an entry replaces it in the map.
pub proof fn lemma_to_map_update<K, V>(entries: Seq<(K, V)>, at: int, value: V)
    requires
        keys_distinct(entries),
        0 <= at < entries.len(),
    ensures
        keys_distinct(entries.update(at, (entries[at].0, value))),
        to_map(entries.update(at, (entries[at].0, value))) == to_map(entries).insert(
            entries[at].0,
            value,
        ),
{
    let key = entries[at].0;
    let changed = entries.update(at, (key, value));
    assert(keys_distinct(changed)) by {
        assert forall|i: int, j: int| 0 <= i < j < changed.len() implies changed[i].0
            != changed[j].0 by {
            assert(changed[i].0 == entries[i].0);
            assert(changed[j].0 == entries[j].0);
        }
    }
    lemma_to_map_keys(entries);
    lemma_to_map_keys(changed);
    let left = to_map(changed);
    let right = to_map(entries).insert(key, value);
    assert forall|k: K| left.contains_key(k) <==> right.contains_key(k) by {
        if left.contains_key(k) {
            let i = choose|i: int| 0 <= i < changed.len() && (#[trigger] changed[i]).0 == k;
            assert(entries[i].0 == k);
            assert(has_key(entries, k));
        }
        if right.contains_key(k) {
            if k == key {
                assert(changed[at].0 == k);
            } else {
                let i = choose|i: int| 0 <= i < entries.len() && (#[trigger] entries[i]).0 == k;
                assert(changed[i].0 == k);
            }
            assert(has_key(changed, k));
        }
    }
    assert forall|k: K| left.contains_key(k) implies left[k] == right[k] by {
        let i = choose|i: int| 0 <= i < changed.len() && (#[trigger] changed[i]).0 == k;
        lemma_to_map_value(changed, i);
        lemma_to_map_value(entries, i);
        if i != at {
            assert(changed[i] == entries[i]);
            assert(entries[i].0 != entries[at].0);
        }
    }
    assert(left =~= right);
}

} // verus!
