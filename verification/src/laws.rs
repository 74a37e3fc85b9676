//! Laws of flattening, stated over the entries that a document writes and
//! the map they are recorded in.

use crate::entries::{
    element_entries, element_run, element_terminals, entries, member_entries, member_run,
    member_terminals, terminals, Separators,
};
use crate::json::{Entry, Json};
use crate::path::{decimal, element_path, empty_path, lemma_decimal_not_empty, member_path};
use crate::record::{
    distinct_keys, has_key, lemma_has_key_concat, lemma_record_distinct, lemma_record_one, record,
};
use vstd::prelude::*;

verus! {

proof fn lemma_prefix_chain(a: Seq<char>, b: Seq<char>, c: Seq<char>)
    requires
        a.is_prefix_of(b),
        b.is_prefix_of(c),
    ensures
        a.is_prefix_of(c),
{
    assert(a =~= c.subrange(0, a.len() as int)) by {
        assert(b =~= c.subrange(0, b.len() as int));
        assert(a =~= b.subrange(0, a.len() as int));
    }
}

proof fn lemma_prefix_of_member_path(prefix: Seq<char>, separator: Seq<char>, key: Seq<char>)
    ensures
        prefix.is_prefix_of(member_path(prefix, separator, key)),
{
    let path = member_path(prefix, separator, key);
    assert(prefix =~= path.subrange(0, prefix.len() as int));
}

proof fn lemma_prefix_of_element_path(prefix: Seq<char>, separator: Seq<char>, index: nat)
    ensures
        prefix.is_prefix_of(element_path(prefix, separator, index)),
        element_path(prefix, separator, index).len() > empty_path(prefix, separator).len(),
{
    let path = element_path(prefix, separator, index);
    lemma_decimal_not_empty(index);
    assert(prefix =~= path.subrange(0, prefix.len() as int));
}

/// Every key written for a document begins with the path at which the
/// document stands.
pub proof fn lemma_keys_extend_prefix(doc: Json, prefix: Seq<char>, seps: Separators)
    ensures
        forall|k: int|
            0 <= k < entries(doc, prefix, seps).len() ==> prefix.is_prefix_of(
                (#[trigger] entries(doc, prefix, seps)[k]).0,
            ),
    decreases doc, 0nat,
{
    let written = entries(doc, prefix, seps);
    match doc {
        Json::Object(members) => {
            if members.len() == 0 {
                let key = empty_path(prefix, seps.object);
                assert(prefix =~= key.subrange(0, prefix.len() as int));
                assert(written[0].0 == key);
            } else {
                lemma_member_keys_extend_prefix(members, members.len(), prefix, seps);
                assert(written == member_entries(members, members.len(), prefix, seps));
            }
        },
        Json::Array(items) => {
            if items.len() == 0 {
                let key = empty_path(prefix, seps.array);
                assert(prefix =~= key.subrange(0, prefix.len() as int));
                assert(written[0].0 == key);
            } else {
                lemma_element_keys_extend_prefix(items, items.len(), prefix, seps);
                assert(written == element_entries(items, items.len(), prefix, seps));
            }
        },
        _ => {
            assert(prefix =~= prefix.subrange(0, prefix.len() as int));
            assert(written[0].0 == prefix);
        },
    }
}

proof fn lemma_member_keys_extend_prefix(
    members: Seq<Entry>,
    count: nat,
    prefix: Seq<char>,
    seps: Separators,
)
    requires
        count <= members.len(),
    ensures
        forall|k: int|
            0 <= k < member_entries(members, count, prefix, seps).len() ==> prefix.is_prefix_of(
                (#[trigger] member_entries(members, count, prefix, seps)[k]).0,
            ),
    decreases members, count,
{
    if count > 0 {
        let before = member_entries(members, (count - 1) as nat, prefix, seps);
        let path = member_path(prefix, seps.object, members[count - 1].0);
        let own = entries(members[count - 1].1, path, seps);
        let all = member_entries(members, count, prefix, seps);
        lemma_member_keys_extend_prefix(members, (count - 1) as nat, prefix, seps);
        lemma_keys_extend_prefix(members[count - 1].1, path, seps);
        lemma_prefix_of_member_path(prefix, seps.object, members[count - 1].0);
        assert forall|k: int| 0 <= k < all.len() implies prefix.is_prefix_of(
            (#[trigger] all[k]).0,
        ) by {
            if k < before.len() {
                assert(all[k] == before[k]);
            } else {
                assert(all[k] == own[k - before.len()]);
                lemma_prefix_chain(prefix, path, own[k - before.len()].0);
            }
        }
    }
}

proof fn lemma_element_keys_extend_prefix(
    items: Seq<Json>,
    count: nat,
    prefix: Seq<char>,
    seps: Separators,
)
    requires
        count <= items.len(),
    ensures
        forall|k: int|
            0 <= k < element_entries(items, count, prefix, seps).len() ==> prefix.is_prefix_of(
                (#[trigger] element_entries(items, count, prefix, seps)[k]).0,
            ),
    decreases items, count,
{
    if count > 0 {
        let before = element_entries(items, (count - 1) as nat, prefix, seps);
        let path = element_path(prefix, seps.array, (count - 1) as nat);
        let own = entries(items[count - 1], path, seps);
        let all = element_entries(items, count, prefix, seps);
        lemma_element_keys_extend_prefix(items, (count - 1) as nat, prefix, seps);
        lemma_keys_extend_prefix(items[count - 1], path, seps);
        lemma_prefix_of_element_path(prefix, seps.array, (count - 1) as nat);
        assert forall|k: int| 0 <= k < all.len() implies prefix.is_prefix_of(
            (#[trigger] all[k]).0,
        ) by {
            if k < before.len() {
                assert(all[k] == before[k]);
            } else {
                assert(all[k] == own[k - before.len()]);
                lemma_prefix_chain(prefix, path, own[k - before.len()].0);
            }
        }
    }
}

/// Every value written is a scalar: null, a boolean, a number or a string.
pub proof fn lemma_values_are_scalars(doc: Json, prefix: Seq<char>, seps: Separators)
    ensures
        forall|k: int|
            0 <= k < entries(doc, prefix, seps).len() ==> (#[trigger] entries(
                doc,
                prefix,
                seps,
            )[k]).1.is_scalar(),
    decreases doc, 0nat,
{
    let written = entries(doc, prefix, seps);
    match doc {
        Json::Object(members) => {
            if members.len() == 0 {
                assert(written[0].1 == Json::Null);
            } else {
                lemma_member_values_are_scalars(members, members.len(), prefix, seps);
                assert(written == member_entries(members, members.len(), prefix, seps));
            }
        },
        Json::Array(items) => {
            if items.len() == 0 {
                assert(written[0].1 == Json::Null);
            } else {
                lemma_element_values_are_scalars(items, items.len(), prefix, seps);
                assert(written == element_entries(items, items.len(), prefix, seps));
            }
        },
        _ => {
            assert(written[0].1 == doc);
        },
    }
}

proof fn lemma_member_values_are_scalars(
    members: Seq<Entry>,
    count: nat,
    prefix: Seq<char>,
    seps: Separators,
)
    requires
        count <= members.len(),
    ensures
        forall|k: int|
            0 <= k < member_entries(members, count, prefix, seps).len() ==> (
            #[trigger] member_entries(members, count, prefix, seps)[k]).1.is_scalar(),
    decreases members, count,
{
    if count > 0 {
        let before = member_entries(members, (count - 1) as nat, prefix, seps);
        let path = member_path(prefix, seps.object, members[count - 1].0);
        let own = entries(members[count - 1].1, path, seps);
        let all = member_entries(members, count, prefix, seps);
        lemma_member_values_are_scalars(members, (count - 1) as nat, prefix, seps);
        lemma_values_are_scalars(members[count - 1].1, path, seps);
        assert forall|k: int| 0 <= k < all.len() implies (#[trigger] all[k]).1.is_scalar() by {
            if k < before.len() {
                assert(all[k] == before[k]);
            } else {
                assert(all[k] == own[k - before.len()]);
            }
        }
    }
}

proof fn lemma_element_values_are_scalars(
    items: Seq<Json>,
    count: nat,
    prefix: Seq<char>,
    seps: Separators,
)
    requires
        count <= items.len(),
    ensures
        forall|k: int|
            0 <= k < element_entries(items, count, prefix, seps).len() ==> (
            #[trigger] element_entries(items, count, prefix, seps)[k]).1.is_scalar(),
    decreases items, count,
{
    if count > 0 {
        let before = element_entries(items, (count - 1) as nat, prefix, seps);
        let path = element_path(prefix, seps.array, (count - 1) as nat);
        let own = entries(items[count - 1], path, seps);
        let all = element_entries(items, count, prefix, seps);
        lemma_element_values_are_scalars(items, (count - 1) as nat, prefix, seps);
        lemma_values_are_scalars(items[count - 1], path, seps);
        assert forall|k: int| 0 <= k < all.len() implies (#[trigger] all[k]).1.is_scalar() by {
            if k < before.len() {
                assert(all[k] == before[k]);
            } else {
                assert(all[k] == own[k - before.len()]);
            }
        }
    }
}

/// A document writes exactly one entry per terminal position, whatever the
/// prefix and the separators, and at least one.
pub proof fn lemma_entry_count(doc: Json, prefix: Seq<char>, seps: Separators)
    ensures
        entries(doc, prefix, seps).len() == terminals(doc),
        terminals(doc) >= 1,
    decreases doc, 0nat,
{
    match doc {
        Json::Object(members) => {
            if members.len() > 0 {
                lemma_member_entry_count(members, members.len(), prefix, seps);
            }
        },
        Json::Array(items) => {
            if items.len() > 0 {
                lemma_element_entry_count(items, items.len(), prefix, seps);
            }
        },
        _ => {},
    }
}

proof fn lemma_member_entry_count(
    members: Seq<Entry>,
    count: nat,
    prefix: Seq<char>,
    seps: Separators,
)
    requires
        count <= members.len(),
    ensures
        member_entries(members, count, prefix, seps).len() == member_terminals(members, count),
        count >= 1 ==> member_terminals(members, count) >= 1,
    decreases members, count,
{
    if count > 0 {
        let path = member_path(prefix, seps.object, members[count - 1].0);
        lemma_member_entry_count(members, (count - 1) as nat, prefix, seps);
        lemma_entry_count(members[count - 1].1, path, seps);
    }
}

proof fn lemma_element_entry_count(
    items: Seq<Json>,
    count: nat,
    prefix: Seq<char>,
    seps: Separators,
)
    requires
        count <= items.len(),
    ensures
        element_entries(items, count, prefix, seps).len() == element_terminals(items, count),
        count >= 1 ==> element_terminals(items, count) >= 1,
    decreases items, count,
{
    if count > 0 {
        let path = element_path(prefix, seps.array, (count - 1) as nat);
        lemma_element_entry_count(items, (count - 1) as nat, prefix, seps);
        lemma_entry_count(items[count - 1], path, seps);
    }
}

/// Flattened into a finite map, a document whose paths differ from one
/// another and from the keys already present adds exactly one key per
/// terminal position, whatever the separators.
pub proof fn lemma_flattened_count(
    base: Map<Seq<char>, Json>,
    doc: Json,
    prefix: Seq<char>,
    seps: Separators,
)
    requires
        base.dom().finite(),
        distinct_keys(entries(doc, prefix, seps)),
        forall|i: int|
            0 <= i < entries(doc, prefix, seps).len() ==> !base.contains_key(
                (#[trigger] entries(doc, prefix, seps)[i]).0,
            ),
    ensures
        record(base, entries(doc, prefix, seps)).dom().finite(),
        record(base, entries(doc, prefix, seps)).dom().len() == base.dom().len() + terminals(
            doc,
        ),
{
    lemma_entry_count(doc, prefix, seps);
    lemma_record_distinct(base, entries(doc, prefix, seps));
}

/// An empty object at `prefix` writes exactly one entry: null, under
/// `prefix` followed by the object separator, which at the root is the bare
/// separator.
pub proof fn lemma_empty_object(base: Map<Seq<char>, Json>, prefix: Seq<char>, seps: Separators)
    ensures
        entries(Json::Object(Seq::empty()), prefix, seps) == seq![
            (prefix + seps.object, Json::Null),
        ],
        entries(Json::Object(Seq::empty()), Seq::empty(), seps) == seq![
            (seps.object, Json::Null),
        ],
        record(base, entries(Json::Object(Seq::empty()), prefix, seps)) == base.insert(
            prefix + seps.object,
            Json::Null,
        ),
{
    assert(Seq::<char>::empty() + seps.object =~= seps.object);
    lemma_record_one(base, prefix + seps.object, Json::Null);
}

/// An empty array at `prefix` writes exactly one entry: null, under `prefix`
/// followed by the array separator, whether or not `prefix` is empty.
pub proof fn lemma_empty_array(base: Map<Seq<char>, Json>, prefix: Seq<char>, seps: Separators)
    ensures
        entries(Json::Array(Seq::empty()), prefix, seps) == seq![
            (prefix + seps.array, Json::Null),
        ],
        entries(Json::Array(Seq::empty()), Seq::empty(), seps) == seq![
            (seps.array, Json::Null),
        ],
        record(base, entries(Json::Array(Seq::empty()), prefix, seps)) == base.insert(
            prefix + seps.array,
            Json::Null,
        ),
{
    assert(Seq::<char>::empty() + seps.array =~= seps.array);
    lemma_record_one(base, prefix + seps.array, Json::Null);
}

/// A scalar at `prefix` writes exactly one entry: itself, under `prefix`. At
/// the root that key is the empty string.
pub proof fn lemma_scalar(
    base: Map<Seq<char>, Json>,
    doc: Json,
    prefix: Seq<char>,
    seps: Separators,
)
    requires
        doc.is_scalar(),
    ensures
        entries(doc, prefix, seps) == seq![(prefix, doc)],
        entries(doc, Seq::empty(), seps) == seq![(Seq::<char>::empty(), doc)],
        record(base, entries(doc, prefix, seps)) == base.insert(prefix, doc),
{
    lemma_record_one(base, prefix, doc);
}

proof fn lemma_member_entries_grow(
    members: Seq<Entry>,
    low: nat,
    high: nat,
    prefix: Seq<char>,
    seps: Separators,
)
    requires
        low <= high <= members.len(),
    ensures
        member_entries(members, low, prefix, seps).is_prefix_of(
            member_entries(members, high, prefix, seps),
        ),
    decreases high - low,
{
    let short = member_entries(members, low, prefix, seps);
    let long = member_entries(members, high, prefix, seps);
    if low == high {
        assert(short =~= long.subrange(0, short.len() as int));
    } else {
        let shorter = member_entries(members, (high - 1) as nat, prefix, seps);
        lemma_member_entries_grow(members, low, (high - 1) as nat, prefix, seps);
        assert(short =~= shorter.subrange(0, short.len() as int));
        assert(short =~= long.subrange(0, short.len() as int));
    }
}

proof fn lemma_element_entries_grow(
    items: Seq<Json>,
    low: nat,
    high: nat,
    prefix: Seq<char>,
    seps: Separators,
)
    requires
        low <= high <= items.len(),
    ensures
        element_entries(items, low, prefix, seps).is_prefix_of(
            element_entries(items, high, prefix, seps),
        ),
    decreases high - low,
{
    let short = element_entries(items, low, prefix, seps);
    let long = element_entries(items, high, prefix, seps);
    if low == high {
        assert(short =~= long.subrange(0, short.len() as int));
    } else {
        let shorter = element_entries(items, (high - 1) as nat, prefix, seps);
        lemma_element_entries_grow(items, low, (high - 1) as nat, prefix, seps);
        assert(short =~= shorter.subrange(0, short.len() as int));
        assert(short =~= long.subrange(0, short.len() as int));
    }
}

/// A non-empty object at `prefix` writes what its members write, member by
/// member in the object's order: the member with key `key` is flattened at
/// `prefix`, the object separator and `key`, or at `key` alone where `prefix`
/// is empty. Its entries, at least one, stand in one run after those of the
/// members before it, and each of their keys begins with that path.
pub proof fn lemma_object_members(members: Seq<Entry>, i: int, prefix: Seq<char>, seps: Separators)
    requires
        0 <= i < members.len(),
    ensures
        ({
            let whole = entries(Json::Object(members), prefix, seps);
            let before = member_entries(members, i as nat, prefix, seps);
            let path = if prefix.len() == 0 {
                members[i].0
            } else {
                prefix + seps.object + members[i].0
            };
            let own = entries(members[i].1, path, seps);
            &&& own == member_run(members, i, prefix, seps)
            &&& own.len() >= 1
            &&& before.len() + own.len() <= whole.len()
            &&& whole.subrange(before.len() as int, (before.len() + own.len()) as int) == own
            &&& forall|k: int| 0 <= k < own.len() ==> path.is_prefix_of((#[trigger] own[k]).0)
        }),
{
    let whole = entries(Json::Object(members), prefix, seps);
    let before = member_entries(members, i as nat, prefix, seps);
    let upto = member_entries(members, (i + 1) as nat, prefix, seps);
    let path = member_path(prefix, seps.object, members[i].0);
    let own = entries(members[i].1, path, seps);
    assert(whole == member_entries(members, members.len(), prefix, seps));
    assert(upto == before + own);
    lemma_member_entries_grow(members, (i + 1) as nat, members.len(), prefix, seps);
    assert(upto =~= whole.subrange(0, upto.len() as int));
    let run = whole.subrange(before.len() as int, (before.len() + own.len()) as int);
    assert forall|k: int| 0 <= k < own.len() implies run[k] == own[k] by {
        assert(whole.subrange(0, upto.len() as int)[before.len() + k] == upto[before.len() + k]);
    }
    assert(run =~= own);
    lemma_entry_count(members[i].1, path, seps);
    lemma_keys_extend_prefix(members[i].1, path, seps);
}

/// A non-empty array at `prefix` writes what its elements write, element by
/// element in index order: the element at `i` is flattened at `prefix`, the
/// array separator and the decimal numeral of `i`, also where `prefix` is
/// empty. Its entries, at least one, stand in one run after those of the
/// elements before it, and each of their keys begins with that path.
pub proof fn lemma_array_elements(items: Seq<Json>, i: int, prefix: Seq<char>, seps: Separators)
    requires
        0 <= i < items.len(),
    ensures
        ({
            let whole = entries(Json::Array(items), prefix, seps);
            let before = element_entries(items, i as nat, prefix, seps);
            let path = prefix + seps.array + decimal(i as nat);
            let own = entries(items[i], path, seps);
            &&& own == element_run(items, i, prefix, seps)
            &&& own.len() >= 1
            &&& before.len() + own.len() <= whole.len()
            &&& whole.subrange(before.len() as int, (before.len() + own.len()) as int) == own
            &&& forall|k: int| 0 <= k < own.len() ==> path.is_prefix_of((#[trigger] own[k]).0)
        }),
{
    let whole = entries(Json::Array(items), prefix, seps);
    let before = element_entries(items, i as nat, prefix, seps);
    let upto = element_entries(items, (i + 1) as nat, prefix, seps);
    let path = element_path(prefix, seps.array, i as nat);
    let own = entries(items[i], path, seps);
    assert(whole == element_entries(items, items.len(), prefix, seps));
    assert(upto == before + own);
    lemma_element_entries_grow(items, (i + 1) as nat, items.len(), prefix, seps);
    assert(upto =~= whole.subrange(0, upto.len() as int));
    let run = whole.subrange(before.len() as int, (before.len() + own.len()) as int);
    assert forall|k: int| 0 <= k < own.len() implies run[k] == own[k] by {
        assert(whole.subrange(0, upto.len() as int)[before.len() + k] == upto[before.len() + k]);
    }
    assert(run =~= own);
    lemma_entry_count(items[i], path, seps);
    lemma_keys_extend_prefix(items[i], path, seps);
}

proof fn lemma_member_entries_keys(
    members: Seq<Entry>,
    count: nat,
    prefix: Seq<char>,
    seps: Separators,
    key: Seq<char>,
)
    requires
        count <= members.len(),
    ensures
        has_key(member_entries(members, count, prefix, seps), key) <==> exists|i: int|
            0 <= i < count && has_key(#[trigger] member_run(members, i, prefix, seps), key),
    decreases count,
{
    if count > 0 {
        let before = member_entries(members, (count - 1) as nat, prefix, seps);
        let own = member_run(members, count - 1, prefix, seps);
        lemma_member_entries_keys(members, (count - 1) as nat, prefix, seps, key);
        lemma_has_key_concat(before, own, key);
        assert(member_entries(members, count, prefix, seps) == before + own);
        if has_key(before, key) {
            let i = choose|i: int|
                0 <= i < count - 1 && has_key(#[trigger] member_run(members, i, prefix, seps), key);
            assert(0 <= i < count && has_key(member_run(members, i, prefix, seps), key));
        }
    } else {
        assert(member_entries(members, count, prefix, seps) =~= Seq::empty());
    }
}

proof fn lemma_element_entries_keys(
    items: Seq<Json>,
    count: nat,
    prefix: Seq<char>,
    seps: Separators,
    key: Seq<char>,
)
    requires
        count <= items.len(),
    ensures
        has_key(element_entries(items, count, prefix, seps), key) <==> exists|i: int|
            0 <= i < count && has_key(#[trigger] element_run(items, i, prefix, seps), key),
    decreases count,
{
    if count > 0 {
        let before = element_entries(items, (count - 1) as nat, prefix, seps);
        let own = element_run(items, count - 1, prefix, seps);
        lemma_element_entries_keys(items, (count - 1) as nat, prefix, seps, key);
        lemma_has_key_concat(before, own, key);
        assert(element_entries(items, count, prefix, seps) == before + own);
        if has_key(before, key) {
            let i = choose|i: int|
                0 <= i < count - 1 && has_key(#[trigger] element_run(items, i, prefix, seps), key);
            assert(0 <= i < count && has_key(element_run(items, i, prefix, seps), key));
        }
    } else {
        assert(element_entries(items, count, prefix, seps) =~= Seq::empty());
    }
}

/// A non-empty object writes nothing of its own: a key is among its entries
/// exactly if one of its members writes it. So the key of an empty object at
/// the same place, `prefix` followed by the object separator, is written
/// only where a member's own entries hold it.
pub proof fn lemma_object_keys(
    members: Seq<Entry>,
    prefix: Seq<char>,
    seps: Separators,
    key: Seq<char>,
)
    requires
        members.len() > 0,
    ensures
        has_key(entries(Json::Object(members), prefix, seps), key) <==> exists|i: int|
            0 <= i < members.len() && has_key(#[trigger] member_run(members, i, prefix, seps), key),
{
    lemma_member_entries_keys(members, members.len(), prefix, seps, key);
    assert(entries(Json::Object(members), prefix, seps) == member_entries(
        members,
        members.len(),
        prefix,
        seps,
    ));
}

/// A non-empty object at `prefix` writes no key equal to `prefix` followed by
/// the object separator alone, provided that no member's path is itself a
/// leading part of that key. Under a non-empty `prefix` this asks that no
/// member key be empty; at the root, that no member key be a leading part of
/// the separator.
pub proof fn lemma_object_no_sentinel(members: Seq<Entry>, prefix: Seq<char>, seps: Separators)
    requires
        members.len() > 0,
        forall|i: int|
            0 <= i < members.len() ==> !member_path(
                prefix,
                seps.object,
                (#[trigger] members[i]).0,
            ).is_prefix_of(prefix + seps.object),
    ensures
        !has_key(entries(Json::Object(members), prefix, seps), prefix + seps.object),
{
    let key = prefix + seps.object;
    lemma_object_keys(members, prefix, seps, key);
    assert forall|i: int| 0 <= i < members.len() implies !has_key(
        #[trigger] member_run(members, i, prefix, seps),
        key,
    ) by {
        let path = member_path(prefix, seps.object, members[i].0);
        let own = member_run(members, i, prefix, seps);
        lemma_keys_extend_prefix(members[i].1, path, seps);
        assert(!path.is_prefix_of(key));
        assert forall|k: int| 0 <= k < own.len() implies (#[trigger] own[k]).0 != key by {
            assert(path.is_prefix_of(own[k].0));
        }
    }
}

/// A non-empty array writes nothing of its own: a key is among its entries
/// exactly if one of its elements writes it.
pub proof fn lemma_array_keys(items: Seq<Json>, prefix: Seq<char>, seps: Separators, key: Seq<char>)
    requires
        items.len() > 0,
    ensures
        has_key(entries(Json::Array(items), prefix, seps), key) <==> exists|i: int|
            0 <= i < items.len() && has_key(#[trigger] element_run(items, i, prefix, seps), key),
{
    lemma_element_entries_keys(items, items.len(), prefix, seps, key);
    assert(entries(Json::Array(items), prefix, seps) == element_entries(
        items,
        items.len(),
        prefix,
        seps,
    ));
}

/// A non-empty array at `prefix` writes no key equal to `prefix` followed by
/// the array separator alone: every key it writes is longer.
pub proof fn lemma_array_no_sentinel(items: Seq<Json>, prefix: Seq<char>, seps: Separators)
    requires
        items.len() > 0,
    ensures
        !has_key(entries(Json::Array(items), prefix, seps), prefix + seps.array),
        forall|k: int|
            0 <= k < entries(Json::Array(items), prefix, seps).len() ==> (#[trigger] entries(
                Json::Array(items),
                prefix,
                seps,
            )[k]).0.len() > (prefix + seps.array).len(),
{
    let key = prefix + seps.array;
    let whole = entries(Json::Array(items), prefix, seps);
    assert forall|k: int| 0 <= k < whole.len() implies (#[trigger] whole[k]).0.len()
        > key.len() by {
        assert(has_key(whole, whole[k].0));
        lemma_array_keys(items, prefix, seps, whole[k].0);
        let i = choose|i: int|
            0 <= i < items.len() && has_key(
                #[trigger] element_run(items, i, prefix, seps),
                whole[k].0,
            );
        let path = element_path(prefix, seps.array, i as nat);
        let own = element_run(items, i, prefix, seps);
        let j = choose|j: int| 0 <= j < own.len() && (#[trigger] own[j]).0 == whole[k].0;
        lemma_keys_extend_prefix(items[i], path, seps);
        assert(path.is_prefix_of(own[j].0));
        lemma_prefix_of_element_path(prefix, seps.array, i as nat);
    }
}

} // verus!
