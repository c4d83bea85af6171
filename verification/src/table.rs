//! Tables kept as a list of entries and read as a map.
//!
//! The bookkeeping structures hold their records in vectors and describe them
//! as maps from a key to a record. This module is the bridge: the map that a
//! list of entries stands for, and what pushing, removing and replacing an
//! entry does to that map when no key occurs twice.

use vstd::prelude::*;

verus! {

/// No key occurs twice in `entries`.
pub open spec fn keys_distinct<K, V>(entries: Seq<(K, V)>) -> bool {
    forall|i: int, j: int| 0 <= i < j < entries.len() ==> entries[i].0 != entries[j].0
}

/// The map that takes each key of `entries` to its record.
pub open spec fn to_map<K, V>(entries: Seq<(K, V)>) -> Map<K, V>
    decreases entries.len(),
{
    if entries.len() == 0 {
        Map::empty()
    } else {
        to_map(entries.drop_last()).insert(entries.last().0, entries.last().1)
    }
}

/// A key is in the map exactly when an entry carries it.
pub proof fn lemma_to_map_contains<K, V>(entries: Seq<(K, V)>, key: K)
    ensures
        to_map(entries).contains_key(key) <==> exists|i: int|
            0 <= i < entries.len() && (#[trigger] entries[i]).0 == key,
    decreases entries.len(),
{
    if entries.len() > 0 {
        let front = entries.drop_last();
        lemma_to_map_contains(front, key);
        if to_map(entries).contains_key(key) {
            if entries.last().0 == key {
                assert(entries[entries.len() - 1].0 == key);
            } else {
                let i = choose|i: int| 0 <= i < front.len() && (#[trigger] front[i]).0 == key;
                assert(entries[i].0 == key);
            }
        }
        if exists|i: int| 0 <= i < entries.len() && (#[trigger] entries[i]).0 == key {
            let i = choose|i: int| 0 <= i < entries.len() && (#[trigger] entries[i]).0 == key;
            if i < entries.len() - 1 {
                assert(front[i].0 == key);
            }
        }
    }
}

/// The map takes the key of each entry to that entry's record.
pub proof fn lemma_to_map_value<K, V>(entries: Seq<(K, V)>, i: int)
    requires
        keys_distinct(entries),
        0 <= i < entries.len(),
    ensures
        to_map(entries).contains_key(entries[i].0),
        to_map(entries)[entries[i].0] == entries[i].1,
    decreases entries.len(),
{
    let front = entries.drop_last();
    if i < entries.len() - 1 {
        assert(front[i] == entries[i]);
        lemma_to_map_value(front, i);
    }
}

/// The map has finitely many keys: as many as there are entries.
pub proof fn lemma_to_map_len<K, V>(entries: Seq<(K, V)>)
    requires
        keys_distinct(entries),
    ensures
        to_map(entries).dom().finite(),
        to_map(entries).len() == entries.len(),
    decreases entries.len(),
{
    if entries.len() > 0 {
        let front = entries.drop_last();
        lemma_to_map_len(front);
        lemma_to_map_contains(front, entries.last().0);
        assert(!to_map(front).contains_key(entries.last().0)) by {
            if to_map(front).contains_key(entries.last().0) {
                let i = choose|i: int|
                    0 <= i < front.len() && (#[trigger] front[i]).0 == entries.last().0;
                assert(entries[i].0 == entries[entries.len() - 1].0);
            }
        }
    }
}

/// A further entry at the end adds its key and record to the map.
pub proof fn lemma_to_map_push<K, V>(entries: Seq<(K, V)>, key: K, record: V)
    ensures
        to_map(entries.push((key, record))) == to_map(entries).insert(key, record),
{
    assert(entries.push((key, record)).drop_last() =~= entries);
}

/// A list with distinct keys stands for the map that holds each of its
/// records under its key, and no other key.
proof fn lemma_to_map_equal<K, V>(entries: Seq<(K, V)>, expected: Map<K, V>)
    requires
        keys_distinct(entries),
        forall|i: int|
            0 <= i < entries.len() ==> expected.contains_key((#[trigger] entries[i]).0)
                && expected[entries[i].0] == entries[i].1,
        forall|key: K| #[trigger]
            expected.contains_key(key) ==> exists|i: int|
                0 <= i < entries.len() && (#[trigger] entries[i]).0 == key,
    ensures
        to_map(entries) == expected,
{
    assert forall|key: K| #[trigger]
        to_map(entries).contains_key(key) == expected.contains_key(key) by {
        lemma_to_map_contains(entries, key);
    }
    assert forall|key: K| #[trigger] to_map(entries).contains_key(key) implies to_map(
        entries,
    )[key] == expected[key] by {
        lemma_to_map_contains(entries, key);
        let i = choose|i: int| 0 <= i < entries.len() && (#[trigger] entries[i]).0 == key;
        lemma_to_map_value(entries, i);
    }
    assert(to_map(entries) =~= expected);
}

/// Taking an entry out takes its key out of the map, and nothing else.
pub proof fn lemma_to_map_remove<K, V>(entries: Seq<(K, V)>, i: int)
    requires
        keys_distinct(entries),
        0 <= i < entries.len(),
    ensures
        keys_distinct(entries.remove(i)),
        to_map(entries.remove(i)) == to_map(entries).remove(entries[i].0),
{
    let rest = entries.remove(i);
    let expected = to_map(entries).remove(entries[i].0);
    assert forall|a: int, b: int| 0 <= a < b < rest.len() implies rest[a].0 != rest[b].0 by {
        let a0 = if a < i { a } else { a + 1 };
        let b0 = if b < i { b } else { b + 1 };
        assert(rest[a] == entries[a0] && rest[b] == entries[b0]);
    }
    assert forall|k: int| 0 <= k < rest.len() implies expected.contains_key(
        (#[trigger] rest[k]).0,
    ) && expected[rest[k].0] == rest[k].1 by {
        let k0 = if k < i { k } else { k + 1 };
        assert(rest[k] == entries[k0]);
        lemma_to_map_value(entries, k0);
    }
    assert forall|key: K| #[trigger] expected.contains_key(key) implies exists|k: int|
        0 <= k < rest.len() && (#[trigger] rest[k]).0 == key by {
        lemma_to_map_contains(entries, key);
        let k0 = choose|k: int| 0 <= k < entries.len() && (#[trigger] entries[k]).0 == key;
        let k = if k0 < i { k0 } else { k0 - 1 };
        assert(rest[k] == entries[k0]);
    }
    lemma_to_map_equal(rest, expected);
}

/// Replacing the record of an entry replaces it in the map, and nothing else.
pub proof fn lemma_to_map_update<K, V>(entries: Seq<(K, V)>, i: int, record: V)
    requires
        keys_distinct(entries),
        0 <= i < entries.len(),
    ensures
        keys_distinct(entries.update(i, (entries[i].0, record))),
        to_map(entries.update(i, (entries[i].0, record))) == to_map(entries).insert(
            entries[i].0,
            record,
        ),
{
    let updated = entries.update(i, (entries[i].0, record));
    let expected = to_map(entries).insert(entries[i].0, record);
    assert forall|a: int, b: int| 0 <= a < b < updated.len() implies updated[a].0
        != updated[b].0 by {
        assert(updated[a].0 == entries[a].0 && updated[b].0 == entries[b].0);
    }
    assert forall|k: int| 0 <= k < updated.len() implies expected.contains_key(
        (#[trigger] updated[k]).0,
    ) && expected[updated[k].0] == updated[k].1 by {
        lemma_to_map_value(entries, k);
    }
    assert forall|key: K| #[trigger] expected.contains_key(key) implies exists|k: int|
        0 <= k < updated.len() && (#[trigger] updated[k]).0 == key by {
        if key == entries[i].0 {
            assert(updated[i].0 == key);
        } else {
            lemma_to_map_contains(entries, key);
            let k = choose|k: int| 0 <= k < entries.len() && (#[trigger] entries[k]).0 == key;
            assert(updated[k].0 == key);
        }
    }
    lemma_to_map_equal(updated, expected);
}

} // verus!
