//! The traversal context: where in a document flattening stands, and where
//! its entries go.

use crate::entries::{entries, Separators};
use crate::json::{json_of, map_view, Entry, Json};
use serde_json::Value;
use vstd::prelude::*;

verus! {

/// One step of a traversal: a subtree, the path that leads to it, the two
/// separators, and the map that collects the entries.
///
/// Separators are taken as they are: either may be empty, they may be
/// equal, and they may occur inside keys.
pub struct FlattenContext<'a> {
    /// Joins a parent path and an array index.
    pub array_separator: String,
    /// Joins a parent path and an object key.
    pub object_separator: String,
    /// The subtree to flatten.
    pub json: &'a Value,
    /// The path of `json` in the whole document; empty at the root.
    pub prefix: String,
    /// The map that collects the entries, shared by every step.
    pub flat_map: &'a mut serde_json::Map<String, Value>,
}

impl<'a> FlattenContext<'a> {
    /// The two separators.
    pub open spec fn separators(&self) -> Separators {
        Separators { object: self.object_separator@, array: self.array_separator@ }
    }

    /// What the output map associates with each of its keys.
    pub open spec fn output(&self) -> Map<Seq<char>, Json> {
        map_view(*self.flat_map)
    }

    /// The entries that flattening this context writes, first to last.
    pub open spec fn pending(&self) -> Seq<Entry> {
        entries(json_of(*self.json), self.prefix@, self.separators())
    }
}

} // verus!
