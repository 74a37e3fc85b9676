//! What flattening writes: the entries of a document, in the order written.

use crate::json::{Entry, Json};
use crate::path::{element_path, empty_path, member_path};
use vstd::prelude::*;

verus! {

/// The two strings that join a path to what follows it.
pub struct Separators {
    /// Stands between a parent path and an object key.
    pub object: Seq<char>,
    /// Stands between a parent path and an array index.
    pub array: Seq<char>,
}

/// The entries written for `doc` when it stands at `prefix`, first to last.
///
/// A scalar gives one entry under `prefix` itself. An empty container gives
/// one null entry under `prefix` followed by its separator. Any other
/// container gives the entries of its children, child by child, each at the
/// path of that child.
pub open spec fn entries(doc: Json, prefix: Seq<char>, seps: Separators) -> Seq<Entry>
    decreases doc, 0nat,
{
    match doc {
        Json::Object(members) => if members.len() == 0 {
            seq![(empty_path(prefix, seps.object), Json::Null)]
        } else {
            member_entries(members, members.len(), prefix, seps)
        },
        Json::Array(items) => if items.len() == 0 {
            seq![(empty_path(prefix, seps.array), Json::Null)]
        } else {
            element_entries(items, items.len(), prefix, seps)
        },
        _ => seq![(prefix, doc)],
    }
}

/// The entries written for the first `count` members of an object at
/// `prefix`.
pub open spec fn member_entries(
    members: Seq<Entry>,
    count: nat,
    prefix: Seq<char>,
    seps: Separators,
) -> Seq<Entry>
    decreases members, count,
{
    if count == 0 || count > members.len() {
        Seq::empty()
    } else {
        member_entries(members, (count - 1) as nat, prefix, seps) + entries(
            members[count - 1].1,
            member_path(prefix, seps.object, members[count - 1].0),
            seps,
        )
    }
}

/// The entries written for the first `count` elements of an array at
/// `prefix`.
pub open spec fn element_entries(
    items: Seq<Json>,
    count: nat,
    prefix: Seq<char>,
    seps: Separators,
) -> Seq<Entry>
    decreases items, count,
{
    if count == 0 || count > items.len() {
        Seq::empty()
    } else {
        element_entries(items, (count - 1) as nat, prefix, seps) + entries(
            items[count - 1],
            element_path(prefix, seps.array, (count - 1) as nat),
            seps,
        )
    }
}

/// The entries written for member `i` of an object at `prefix`.
pub open spec fn member_run(members: Seq<Entry>, i: int, prefix: Seq<char>, seps: Separators) -> Seq<
    Entry,
> {
    entries(members[i].1, member_path(prefix, seps.object, members[i].0), seps)
}

/// The entries written for element `i` of an array at `prefix`.
pub open spec fn element_run(items: Seq<Json>, i: int, prefix: Seq<char>, seps: Separators) -> Seq<
    Entry,
> {
    entries(items[i], element_path(prefix, seps.array, i as nat), seps)
}

/// The number of terminal positions of `doc`: its scalars and its empty
/// containers.
pub open spec fn terminals(doc: Json) -> nat
    decreases doc, 0nat,
{
    match doc {
        Json::Object(members) => if members.len() == 0 {
            1
        } else {
            member_terminals(members, members.len())
        },
        Json::Array(items) => if items.len() == 0 {
            1
        } else {
            element_terminals(items, items.len())
        },
        _ => 1,
    }
}

/// The number of terminal positions under the first `count` members.
pub open spec fn member_terminals(members: Seq<Entry>, count: nat) -> nat
    decreases members, count,
{
    if count == 0 || count > members.len() {
        0
    } else {
        member_terminals(members, (count - 1) as nat) + terminals(members[count - 1].1)
    }
}

/// The number of terminal positions under the first `count` elements.
pub open spec fn element_terminals(items: Seq<Json>, count: nat) -> nat
    decreases items, count,
{
    if count == 0 || count > items.len() {
        0
    } else {
        element_terminals(items, (count - 1) as nat) + terminals(items[count - 1])
    }
}

} // verus!
