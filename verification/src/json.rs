//! The mathematical model of a JSON document, and the boundary to `serde_json`.
//!
//! Verified code never looks inside a `serde_json::Value` or a
//! `serde_json::Map`. It reasons about the document a value holds, [`json_of`],
//! and about the members a map holds, [`members_of`]; the few items below that
//! touch `serde_json` directly say what they do in those terms and are taken
//! on trust.

use crate::record::table;
use serde_json::Value;
use vstd::prelude::*;

verus! {

/// A key and the document recorded under it.
pub type Entry = (Seq<char>, Json);

/// A JSON document as a mathematical value.
pub enum Json {
    /// The null value.
    Null,
    /// A boolean.
    Bool(bool),
    /// A number, by the text JSON writes for it.
    Number(Seq<char>),
    /// A string.
    String(Seq<char>),
    /// An array: its elements in index order.
    Array(Seq<Json>),
    /// An object: its members, key and value, in the order the object hands
    /// them out.
    Object(Seq<Entry>),
}

impl Json {
    /// A document without children of its own: null, a boolean, a number or a
    /// string.
    pub open spec fn is_scalar(self) -> bool {
        !(self is Array) && !(self is Object)
    }
}

/// `serde_json::Value`, declared so that it can stand in signatures. The
/// verifier sees nothing inside it.
#[verifier::external_type_specification]
#[verifier::external_body]
pub struct ExValue(serde_json::Value);

/// `serde_json::Map`, declared so that it can stand in signatures. The
/// verifier sees nothing inside it.
#[verifier::external_type_specification]
#[verifier::external_body]
#[verifier::reject_recursive_types(K)]
#[verifier::reject_recursive_types(V)]
pub struct ExMap<K, V>(serde_json::Map<K, V>);

/// The document that a `serde_json::Value` holds.
pub uninterp spec fn json_of(value: Value) -> Json;

/// The members that a `serde_json::Map` holds, key and value, in the order in
/// which the map's iterator yields them.
pub uninterp spec fn members_of(map: serde_json::Map<String, Value>) -> Seq<(Seq<char>, Json)>;

/// The documents held by a sequence of values, one for one.
pub open spec fn jsons_of(values: Seq<Value>) -> Seq<Json> {
    Seq::new(values.len(), |i: int| json_of(values[i]))
}

/// What a `serde_json::Map` associates with each of its keys.
pub open spec fn map_view(map: serde_json::Map<String, Value>) -> Map<Seq<char>, Json> {
    table(members_of(map))
}

/// One level of a value: a scalar, or a container with the children it owns.
pub(crate) enum Shape<'a> {
    /// Null, a boolean, a number or a string.
    Scalar,
    /// An array and its elements.
    Array(&'a Vec<Value>),
    /// An object and its members.
    Object(&'a serde_json::Map<String, Value>),
}

/// Tells the variants of `serde_json::Value` apart.
///
/// Trusted: the variant found is that of the document the value holds, and a
/// container handed out holds exactly that document's children, in order.
#[verifier::external_body]
pub(crate) fn shape_of(value: &Value) -> (shape: Shape<'_>)
    ensures
        match shape {
            Shape::Scalar => json_of(*value).is_scalar(),
            Shape::Array(items) => json_of(*value) == Json::Array(jsons_of(items@)),
            Shape::Object(map) => json_of(*value) == Json::Object(members_of(*map)),
        },
{
    match value {
        Value::Null => Shape::Scalar,
        Value::Bool(_) => Shape::Scalar,
        Value::Number(_) => Shape::Scalar,
        Value::String(_) => Shape::Scalar,
        Value::Array(items) => Shape::Array(items),
        Value::Object(map) => Shape::Object(map),
    }
}

/// Collects what `serde_json::Map::iter` yields.
///
/// Trusted: the iterator yields the map's members once each, in the order
/// that [`members_of`] names, as references to the stored keys and values.
#[verifier::external_body]
pub(crate) fn members<'a>(map: &'a serde_json::Map<String, Value>) -> (list: Vec<
    (&'a String, &'a Value),
>)
    ensures
        list@.len() == members_of(*map).len(),
        forall|i: int|
            0 <= i < list@.len() ==> (#[trigger] list@[i]).0@ == members_of(*map)[i].0 && json_of(
                *list@[i].1,
            ) == members_of(*map)[i].1,
{
    map.iter().collect()
}

/// Makes `serde_json::Value::Null`.
///
/// Trusted: that value holds the null document.
#[verifier::external_body]
pub(crate) fn null() -> (value: Value)
    ensures
        json_of(value) == Json::Null,
{
    Value::Null
}

/// `serde_json::Map::insert`: afterwards the map associates `k` with `v` and
/// every other key with what it had before. The previous value under `k`
/// comes back, if there was one.
pub assume_specification[ serde_json::Map::<String, Value>::insert ](
    map: &mut serde_json::Map<String, Value>,
    k: String,
    v: Value,
) -> (previous: Option<Value>)
    ensures
        map_view(*final(map)) == map_view(*old(map)).insert(k@, json_of(v)),
        match previous {
            Some(p) => map_view(*old(map)).contains_key(k@) && json_of(p) == map_view(*old(map))[k@],
            None => !map_view(*old(map)).contains_key(k@),
        },
;

/// `Clone` for `serde_json::Value`: the copy holds the same document.
pub assume_specification[ <Value as Clone>::clone ](value: &Value) -> (copy: Value)
    ensures
        json_of(copy) == json_of(*value),
;

} // verus!
