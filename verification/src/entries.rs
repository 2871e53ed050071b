//! Maps that are filled from a list of entries.

use vstd::prelude::*;

verus! {

/// The map that results from inserting the entries one after the other: an entry replaces an
/// earlier one with the same key.
pub open spec fn collected<K, V>(entries: Seq<(K, V)>) -> Map<K, V>
    decreases entries.len(),
{
    if entries.len() == 0 {
        Map::empty()
    } else {
        collected(entries.drop_last()).insert(entries.last().0, entries.last().1)
    }
}

/// Entry `i` is the last one with its key.
pub open spec fn is_last_of_key<K, V>(entries: Seq<(K, V)>, i: int) -> bool {
    &&& 0 <= i < entries.len()
    &&& forall|j: int| i < j < entries.len() ==> (#[trigger] entries[j]).0 != entries[i].0
}

/// The position of the last entry with key `k`, or -1 where there is none.
spec fn find_last<K, V>(entries: Seq<(K, V)>, k: K) -> int
    decreases entries.len(),
{
    if entries.len() == 0 {
        -1
    } else if entries.last().0 == k {
        entries.len() - 1
    } else {
        find_last(entries.drop_last(), k)
    }
}

proof fn lemma_find_last<K, V>(entries: Seq<(K, V)>, k: K)
    ensures
        ({
            let i = find_last(entries, k);
            if collected(entries).contains_key(k) {
                &&& is_last_of_key(entries, i)
                &&& entries[i].0 == k
                &&& collected(entries)[k] == entries[i].1
            } else {
                forall|j: int| 0 <= j < entries.len() ==> (#[trigger] entries[j]).0 != k
            }
        }),
    decreases entries.len(),
{
    if entries.len() > 0 {
        let before = entries.drop_last();
        lemma_find_last(before, k);
        assert forall|j: int| 0 <= j < before.len() implies before[j] == #[trigger] entries[j] by {}
    }
}

/// The map holds exactly the keys of the entries, each with the value of its last entry.
pub proof fn law_last_entry_wins<K, V>(entries: Seq<(K, V)>)
    ensures
        forall|i: int|
            0 <= i < entries.len() ==> collected(entries).contains_key((#[trigger] entries[i]).0),
        forall|i: int| #[trigger]
            is_last_of_key(entries, i) ==> collected(entries)[entries[i].0] == entries[i].1,
        forall|k: K| #[trigger]
            collected(entries).contains_key(k) ==> exists|i: int|
                #[trigger] is_last_of_key(entries, i) && entries[i].0 == k,
{
    assert forall|i: int| 0 <= i < entries.len() implies collected(entries).contains_key(
        (#[trigger] entries[i]).0,
    ) by {
        lemma_find_last(entries, entries[i].0);
    }
    assert forall|i: int| #[trigger] is_last_of_key(entries, i) implies collected(
        entries,
    )[entries[i].0] == entries[i].1 by {
        lemma_find_last(entries, entries[i].0);
        let j = find_last(entries, entries[i].0);
        if i < j {
            assert(entries[j].0 != entries[i].0);
        } else if j < i {
            assert(entries[i].0 != entries[j].0);
        }
    }
    assert forall|k: K| #[trigger] collected(entries).contains_key(k) implies exists|i: int|
        #[trigger] is_last_of_key(entries, i) && entries[i].0 == k by {
        lemma_find_last(entries, k);
        assert(is_last_of_key(entries, find_last(entries, k)));
    }
}

/// An entry whose key comes up in no later entry is in the map, with its value, and the map has
/// no key that comes up in no entry.
pub proof fn law_map_of_entries<K, V>(entries: Seq<(K, V)>)
    ensures
        forall|i: int|
            0 <= i < entries.len() && (forall|j: int|
                i < j < entries.len() ==> (#[trigger] entries[j]).0 != entries[i].0) ==> {
                &&& collected(entries).contains_key((#[trigger] entries[i]).0)
                &&& collected(entries)[entries[i].0] == entries[i].1
            },
        forall|k: K| #[trigger]
            collected(entries).contains_key(k) <==> exists|i: int|
                0 <= i < entries.len() && (#[trigger] entries[i]).0 == k,
{
    law_last_entry_wins(entries);
    assert forall|i: int|
        0 <= i < entries.len() && (forall|j: int|
            i < j < entries.len() ==> (#[trigger] entries[j]).0 != entries[i].0) implies {
        &&& collected(entries).contains_key((#[trigger] entries[i]).0)
        &&& collected(entries)[entries[i].0] == entries[i].1
    } by {
        assert(is_last_of_key(entries, i));
    }
    assert forall|k: K| #[trigger] collected(entries).contains_key(k) implies exists|i: int|
        0 <= i < entries.len() && (#[trigger] entries[i]).0 == k by {
        let i = choose|i: int| #[trigger] is_last_of_key(entries, i) && entries[i].0 == k;
        assert(entries[i].0 == k);
    }
}

/// Inserting one more entry sets its key, and leaves every other key as it is.
pub proof fn law_one_more_entry<K, V>(entries: Seq<(K, V)>, key: K, value: V)
    ensures
        collected(entries.push((key, value))) == collected(entries).insert(key, value),
{
    assert(entries.push((key, value)).drop_last() == entries);
}

} // verus!
