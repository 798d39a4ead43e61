//! Association lists keyed by `u64`, the executable shape of the pool's
//! ledgers, together with the finite maps they denote and the lemmas that
//! relate pushes, in-place updates and removals to map operations.

use vstd::prelude::*;

verus! {

/// The map an association list denotes; later entries override earlier ones,
/// though the pool keeps its lists free of repeated keys.
pub open spec fn map_of<V>(entries: Seq<(u64, V)>) -> Map<u64, V>
    decreases entries.len(),
{
    if entries.len() == 0 {
        Map::empty()
    } else {
        map_of(entries.drop_last()).insert(entries.last().0, entries.last().1)
    }
}

/// No key occurs in two entries.
pub open spec fn unique_keys<V>(entries: Seq<(u64, V)>) -> bool {
    forall|i: int, j: int|
        0 <= i < j < entries.len() ==> (#[trigger] entries[i]).0 != (#[trigger] entries[j]).0
}

/// A key is in the denoted map exactly when some entry carries it.
pub proof fn lemma_map_of_contains<V>(entries: Seq<(u64, V)>, key: u64)
    ensures
        map_of(entries).dom().contains(key) <==> exists|i: int|
            0 <= i < entries.len() && (#[trigger] entries[i]).0 == key,
    decreases entries.len(),
{
    if entries.len() > 0 {
        lemma_map_of_contains(entries.drop_last(), key);
        let last = entries.len() - 1;
        if entries[last].0 == key {
            assert(map_of(entries).dom().contains(key));
        } else if map_of(entries).dom().contains(key) {
            let i = choose|i: int|
                0 <= i < entries.drop_last().len() && (#[trigger] entries.drop_last()[i]).0 == key;
            assert(entries[i].0 == key);
        } else if exists|i: int| 0 <= i < entries.len() && (#[trigger] entries[i]).0 == key {
            let i = choose|i: int| 0 <= i < entries.len() && (#[trigger] entries[i]).0 == key;
            assert(entries.drop_last()[i].0 == key);
        }
    }
}

/// With unique keys, the denoted map sends each entry's key to its value.
pub proof fn lemma_map_of_index<V>(entries: Seq<(u64, V)>, i: int)
    requires
        unique_keys(entries),
        0 <= i < entries.len(),
    ensures
        map_of(entries).dom().contains(entries[i].0),
        map_of(entries)[entries[i].0] == entries[i].1,
    decreases entries.len(),
{
    let last = entries.len() - 1;
    if i < last {
        assert(entries.drop_last()[i] == entries[i]);
        lemma_map_of_index(entries.drop_last(), i);
        assert(entries[i].0 != entries[last].0);
    }
}

/// Pushing an entry inserts its binding into the denoted map.
pub proof fn lemma_map_of_push<V>(entries: Seq<(u64, V)>, key: u64, value: V)
    ensures
        map_of(entries.push((key, value))) == map_of(entries).insert(key, value),
{
    assert(entries.push((key, value)).drop_last() =~= entries);
    assert(entries.push((key, value)).last() == (key, value));
}

/// Pushing a fresh key keeps the keys unique.
pub proof fn lemma_unique_keys_push<V>(entries: Seq<(u64, V)>, key: u64, value: V)
    requires
        unique_keys(entries),
        forall|i: int| 0 <= i < entries.len() ==> (#[trigger] entries[i]).0 != key,
    ensures
        unique_keys(entries.push((key, value))),
{
}

/// Overwriting the value at one index re-inserts that entry's key, and keeps
/// the keys unique.
pub proof fn lemma_map_of_update<V>(entries: Seq<(u64, V)>, i: int, value: V)
    requires
        unique_keys(entries),
        0 <= i < entries.len(),
    ensures
        map_of(entries.update(i, (entries[i].0, value))) == map_of(entries).insert(
            entries[i].0,
            value,
        ),
        unique_keys(entries.update(i, (entries[i].0, value))),
    decreases entries.len(),
{
    let key = entries[i].0;
    let updated = entries.update(i, (key, value));
    let last = entries.len() - 1;
    if i == last {
        assert(updated.drop_last() =~= entries.drop_last());
        assert(updated.last() == (key, value));
        assert(map_of(updated) =~= map_of(entries).insert(key, value));
    } else {
        assert(updated.drop_last() =~= entries.drop_last().update(i, (key, value)));
        assert(entries.drop_last()[i] == entries[i]);
        lemma_map_of_update(entries.drop_last(), i, value);
        assert(updated.last() == entries.last());
        assert(key != entries[last].0);
        assert(map_of(updated) =~= map_of(entries).insert(key, value));
    }
}

/// Removing one index deletes that entry's key from the denoted map, and
/// keeps the keys unique.
pub proof fn lemma_map_of_remove<V>(entries: Seq<(u64, V)>, i: int)
    requires
        unique_keys(entries),
        0 <= i < entries.len(),
    ensures
        map_of(entries.remove(i)) == map_of(entries).remove(entries[i].0),
        unique_keys(entries.remove(i)),
    decreases entries.len(),
{
    let key = entries[i].0;
    let last = entries.len() - 1;
    if i == last {
        assert(entries.remove(i) =~= entries.drop_last());
        lemma_map_of_contains(entries.drop_last(), key);
        assert(forall|j: int|
            0 <= j < entries.drop_last().len() ==> (#[trigger] entries.drop_last()[j]).0
                != key) by {
            assert(forall|j: int|
                0 <= j < entries.drop_last().len() ==> entries.drop_last()[j] == entries[j]);
        }
        assert(map_of(entries.drop_last()) =~= map_of(entries).remove(key));
    } else {
        assert(entries.remove(i).drop_last() =~= entries.drop_last().remove(i));
        assert(entries.drop_last()[i] == entries[i]);
        lemma_map_of_remove(entries.drop_last(), i);
        assert(entries.remove(i).last() == entries.last());
        assert(key != entries[last].0);
        assert(map_of(entries.remove(i)) =~= map_of(entries).remove(key));
        assert(forall|p: int, q: int|
            0 <= p < q < entries.remove(i).len() ==> (#[trigger] entries.remove(i)[p]).0
                != (#[trigger] entries.remove(i)[q]).0) by {
            assert(forall|p: int|
                0 <= p < entries.remove(i).len() ==> #[trigger] entries.remove(i)[p] == (
                if p < i {
                    entries[p]
                } else {
                    entries[p + 1]
                }));
        }
    }
}

/// Linear search for a key; `None` means no entry carries it.
pub fn find<V>(entries: &Vec<(u64, V)>, key: u64) -> (r: Option<usize>)
    ensures
        match r {
            Some(i) => i < entries.len() && entries@[i as int].0 == key,
            None => forall|i: int| 0 <= i < entries@.len() ==> (#[trigger] entries@[i]).0 != key,
        },
{
    let mut i: usize = 0;
    while i < entries.len()
        invariant
            i <= entries.len(),
            forall|j: int| 0 <= j < i ==> (#[trigger] entries@[j]).0 != key,
        decreases entries.len() - i,
    {
        if entries[i].0 == key {
            return Some(i);
        }
        i = i + 1;
    }
    None
}

} // verus!
