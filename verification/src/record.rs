//! Recording entries in a map: what a map holds after a run of insertions.

use crate::json::{Entry, Json};
use vstd::prelude::*;

verus! {

/// The map that results from `base` when `entries` are inserted one after the
/// other: a later entry replaces an earlier one under the same key.
pub open spec fn record(base: Map<Seq<char>, Json>, entries: Seq<Entry>) -> Map<Seq<char>, Json>
    decreases entries.len(),
{
    if entries.len() == 0 {
        base
    } else {
        record(base, entries.drop_last()).insert(entries.last().0, entries.last().1)
    }
}

/// The key-to-value association that a sequence of members stands for.
pub open spec fn table(members: Seq<Entry>) -> Map<Seq<char>, Json> {
    record(Map::empty(), members)
}

/// `key` is the key of one of the entries.
pub open spec fn has_key(entries: Seq<Entry>, key: Seq<char>) -> bool {
    exists|i: int| 0 <= i < entries.len() && (#[trigger] entries[i]).0 == key
}

/// No two entries share a key.
pub open spec fn distinct_keys(entries: Seq<Entry>) -> bool {
    forall|i: int, j: int|
        0 <= i < j < entries.len() ==> (#[trigger] entries[i]).0 != (#[trigger] entries[j]).0
}

/// Recording a single entry is one insertion.
pub proof fn lemma_record_one(base: Map<Seq<char>, Json>, key: Seq<char>, value: Json)
    ensures
        record(base, seq![(key, value)]) == base.insert(key, value),
{
    let one = seq![(key, value)];
    assert(one.drop_last() =~= Seq::empty());
    assert(record(base, one.drop_last()) == base);
}

/// Recording `first` and then `second` is recording their concatenation.
pub proof fn lemma_record_concat(base: Map<Seq<char>, Json>, first: Seq<Entry>, second: Seq<Entry>)
    ensures
        record(record(base, first), second) == record(base, first + second),
    decreases second.len(),
{
    if second.len() == 0 {
        assert(first + second =~= first);
    } else {
        lemma_record_concat(base, first, second.drop_last());
        assert((first + second).drop_last() =~= first + second.drop_last());
        assert((first + second).last() == second.last());
    }
}

/// A key is among the entries of a concatenation exactly if it is among
/// those of one of the parts.
pub proof fn lemma_has_key_concat(first: Seq<Entry>, second: Seq<Entry>, key: Seq<char>)
    ensures
        has_key(first + second, key) <==> has_key(first, key) || has_key(second, key),
{
    let both = first + second;
    if has_key(first, key) {
        let i = choose|i: int| 0 <= i < first.len() && (#[trigger] first[i]).0 == key;
        assert(both[i].0 == key);
    }
    if has_key(second, key) {
        let i = choose|i: int| 0 <= i < second.len() && (#[trigger] second[i]).0 == key;
        assert(both[first.len() + i].0 == key);
    }
    if has_key(both, key) {
        let i = choose|i: int| 0 <= i < both.len() && (#[trigger] both[i]).0 == key;
        if i < first.len() {
            assert(first[i].0 == key);
        } else {
            assert(second[i - first.len()].0 == key);
        }
    }
}

/// After recording, a key is present exactly if it was present before or is
/// the key of an entry.
pub proof fn lemma_record_keys(base: Map<Seq<char>, Json>, entries: Seq<Entry>, key: Seq<char>)
    ensures
        record(base, entries).contains_key(key) <==> base.contains_key(key) || has_key(
            entries,
            key,
        ),
    decreases entries.len(),
{
    if entries.len() > 0 {
        let front = entries.drop_last();
        lemma_record_keys(base, front, key);
        assert(entries =~= front + seq![entries.last()]);
        lemma_has_key_concat(front, seq![entries.last()], key);
        if has_key(seq![entries.last()], key) {
            let one = seq![entries.last()];
            let i = choose|i: int| 0 <= i < one.len() && (#[trigger] one[i]).0 == key;
            assert(one[i] == entries.last());
        }
        if entries.last().0 == key {
            assert(seq![entries.last()][0].0 == key);
        }
    }
}

/// A key that no entry writes keeps what it had.
pub proof fn lemma_record_keeps(base: Map<Seq<char>, Json>, entries: Seq<Entry>, key: Seq<char>)
    requires
        !has_key(entries, key),
    ensures
        record(base, entries).contains_key(key) == base.contains_key(key),
        record(base, entries)[key] == base[key],
    decreases entries.len(),
{
    if entries.len() > 0 {
        let front = entries.drop_last();
        assert(entries[entries.len() - 1].0 != key);
        assert forall|i: int| 0 <= i < front.len() implies (#[trigger] front[i]).0 != key by {
            assert(entries[i].0 != key);
        }
        lemma_record_keeps(base, front, key);
    }
}

/// Of the entries that share a key the last one stays: the value recorded
/// under the key of an entry that no later entry overwrites is the value of
/// that entry.
pub proof fn lemma_record_last_wins(base: Map<Seq<char>, Json>, entries: Seq<Entry>, i: int)
    requires
        0 <= i < entries.len(),
        forall|j: int| i < j < entries.len() ==> (#[trigger] entries[j]).0 != entries[i].0,
    ensures
        record(base, entries).contains_key(entries[i].0),
        record(base, entries)[entries[i].0] == entries[i].1,
    decreases entries.len(),
{
    let front = entries.drop_last();
    if i < entries.len() - 1 {
        assert(entries[entries.len() - 1].0 != entries[i].0);
        assert(front[i] == entries[i]);
        assert forall|j: int| i < j < front.len() implies (#[trigger] front[j]).0
            != front[i].0 by {
            assert(entries[j].0 != entries[i].0);
        }
        lemma_record_last_wins(base, front, i);
    }
}

/// Entries with keys that differ from one another and from the keys already
/// present enlarge a finite map by one key each.
pub proof fn lemma_record_distinct(base: Map<Seq<char>, Json>, entries: Seq<Entry>)
    requires
        base.dom().finite(),
        distinct_keys(entries),
        forall|i: int| 0 <= i < entries.len() ==> !base.contains_key((#[trigger] entries[i]).0),
    ensures
        record(base, entries).dom().finite(),
        record(base, entries).dom().len() == base.dom().len() + entries.len(),
    decreases entries.len(),
{
    if entries.len() > 0 {
        let front = entries.drop_last();
        let last = entries.last();
        assert forall|i: int, j: int| 0 <= i < j < front.len() implies (#[trigger] front[i]).0 != (
        #[trigger] front[j]).0 by {
            assert(entries[i].0 != entries[j].0);
        }
        assert forall|i: int| 0 <= i < front.len() implies !base.contains_key(
            (#[trigger] front[i]).0,
        ) by {
            assert(!base.contains_key(entries[i].0));
        }
        lemma_record_distinct(base, front);
        lemma_record_keys(base, front, last.0);
        assert(!base.contains_key(entries[entries.len() - 1].0));
        if has_key(front, last.0) {
            let i = choose|i: int| 0 <= i < front.len() && (#[trigger] front[i]).0 == last.0;
            assert(entries[i].0 != entries[entries.len() - 1].0);
        }
        assert(record(base, entries).dom() =~= record(base, front).dom().insert(last.0));
    }
}

} // verus!
