//! The flattener: a recursive walk that writes one entry per terminal
//! position of a document.

use crate::entries::{element_entries, entries, member_entries};
use crate::flatten_context::FlattenContext;
use crate::json::{json_of, jsons_of, members, members_of, null, shape_of, Json, Shape};
use crate::path::{element_key, empty_key, member_key};
use crate::record::{lemma_record_concat, lemma_record_one, record};
use vstd::prelude::*;

verus! {

/// Flattens the subtree of `ctx` into the output map of `ctx`.
///
/// Every terminal position of the subtree, a scalar or an empty container,
/// is inserted under its path, in document order; an entry written later
/// replaces one written earlier under the same key, and what the map held
/// under other keys stays. The document, the prefix and the separators are
/// left as they were, and the context still borrows the same map: what the
/// map holds when that borrow ends is what this call and later ones through
/// `ctx` leave in it.
pub fn flatten_json(ctx: &mut FlattenContext)
    ensures
        final(ctx).output() == record(old(ctx).output(), old(ctx).pending()),
        *final(final(ctx).flat_map) == *final(old(ctx).flat_map),
        final(ctx).json == old(ctx).json,
        final(ctx).prefix == old(ctx).prefix,
        final(ctx).object_separator == old(ctx).object_separator,
        final(ctx).array_separator == old(ctx).array_separator,
    decreases json_of(*old(ctx).json),
{
    match shape_of(ctx.json) {
        Shape::Object(map) => {
            let list = members(map);
            if list.len() == 0 {
                let key = empty_key(ctx.prefix.as_str(), ctx.object_separator.as_str());
                proof {
                    lemma_record_one(ctx.output(), key@, Json::Null);
                }
                ctx.flat_map.insert(key, null());
            } else {
                let mut i: usize = 0;
                while i < list.len()
                    invariant
                        i <= list.len(),
                        list@.len() == members_of(*map).len(),
                        forall|k: int|
                            0 <= k < list@.len() ==> (#[trigger] list@[k]).0@ == members_of(
                                *map,
                            )[k].0 && json_of(*list@[k].1) == members_of(*map)[k].1,
                        json_of(*old(ctx).json) == Json::Object(members_of(*map)),
                        ctx.output() == record(
                            old(ctx).output(),
                            member_entries(
                                members_of(*map),
                                i as nat,
                                ctx.prefix@,
                                ctx.separators(),
                            ),
                        ),
                        *final(ctx.flat_map) == *final(old(ctx).flat_map),
                        ctx.json == old(ctx).json,
                        ctx.prefix == old(ctx).prefix,
                        ctx.object_separator == old(ctx).object_separator,
                        ctx.array_separator == old(ctx).array_separator,
                    decreases list.len() - i,
                {
                    let (key, value) = list[i];
                    proof {
                        let doc = json_of(*old(ctx).json);
                        let held = doc->Object_0;
                        assert(list@[i as int].0@ == held[i as int].0);
                        assert(json_of(*value) == held[i as int].1);
                        assert(decreases_to!(doc => held));
                        assert(decreases_to!(held => held[i as int]));
                        assert(decreases_to!(held[i as int] => held[i as int].1));
                    }
                    let path = member_key(
                        ctx.prefix.as_str(),
                        ctx.object_separator.as_str(),
                        key.as_str(),
                    );
                    proof {
                        lemma_record_concat(
                            old(ctx).output(),
                            member_entries(
                                members_of(*map),
                                i as nat,
                                ctx.prefix@,
                                ctx.separators(),
                            ),
                            entries(json_of(*value), path@, ctx.separators()),
                        );
                    }
                    let mut child = FlattenContext {
                        array_separator: ctx.array_separator.clone(),
                        object_separator: ctx.object_separator.clone(),
                        json: value,
                        prefix: path,
                        flat_map: ctx.flat_map,
                    };
                    flatten_json(&mut child);
                    i += 1;
                }
            }
        },
        Shape::Array(items) => {
            if items.len() == 0 {
                let key = empty_key(ctx.prefix.as_str(), ctx.array_separator.as_str());
                proof {
                    lemma_record_one(ctx.output(), key@, Json::Null);
                }
                ctx.flat_map.insert(key, null());
            } else {
                let mut i: usize = 0;
                while i < items.len()
                    invariant
                        i <= items.len(),
                        json_of(*old(ctx).json) == Json::Array(jsons_of(items@)),
                        ctx.output() == record(
                            old(ctx).output(),
                            element_entries(
                                jsons_of(items@),
                                i as nat,
                                ctx.prefix@,
                                ctx.separators(),
                            ),
                        ),
                        *final(ctx.flat_map) == *final(old(ctx).flat_map),
                        ctx.json == old(ctx).json,
                        ctx.prefix == old(ctx).prefix,
                        ctx.object_separator == old(ctx).object_separator,
                        ctx.array_separator == old(ctx).array_separator,
                    decreases items.len() - i,
                {
                    proof {
                        let doc = json_of(*old(ctx).json);
                        let held = doc->Array_0;
                        assert(json_of(items@[i as int]) == held[i as int]);
                        assert(decreases_to!(doc => held));
                        assert(decreases_to!(held => held[i as int]));
                    }
                    let path = element_key(ctx.prefix.as_str(), ctx.array_separator.as_str(), i);
                    proof {
                        lemma_record_concat(
                            old(ctx).output(),
                            element_entries(
                                jsons_of(items@),
                                i as nat,
                                ctx.prefix@,
                                ctx.separators(),
                            ),
                            entries(json_of(items@[i as int]), path@, ctx.separators()),
                        );
                    }
                    let mut child = FlattenContext {
                        array_separator: ctx.array_separator.clone(),
                        object_separator: ctx.object_separator.clone(),
                        json: &items[i],
                        prefix: path,
                        flat_map: ctx.flat_map,
                    };
                    flatten_json(&mut child);
                    i += 1;
                }
            }
        },
        Shape::Scalar => {
            let key = ctx.prefix.clone();
            proof {
                lemma_record_one(ctx.output(), key@, json_of(*ctx.json));
            }
            ctx.flat_map.insert(key, ctx.json.clone());
        },
    }
}

} // verus!
