//! The anchor table: a hash map from anchor ids to node ids, hashed with
//! the hasher of `rustc_hash`.

use vstd::prelude::*;
use crate::value::NodeId;

verus! {

/// The hasher builder of `rustc_hash`, carried through as it is.
#[verifier::external_type_specification]
#[verifier::external_body]
pub struct ExFxBuildHasher(rustc_hash::FxBuildHasher);

/// The table in which no anchor is bound.
pub open spec fn no_anchors() -> Map<usize, NodeId> {
    Map::empty()
}

/// Makes an empty table through `Default for HashMap`.
#[verifier::external_body]
pub(crate) fn table_new() -> (r: rustc_hash::FxHashMap<usize, NodeId>)
    ensures
        r@ == no_anchors(),
{
    rustc_hash::FxHashMap::default()
}

/// Calls `HashMap::insert`: the key is bound to the node, whatever it was
/// bound to before; the other keys keep their nodes.
#[verifier::external_body]
pub(crate) fn table_insert(
    table: &mut rustc_hash::FxHashMap<usize, NodeId>,
    key: usize,
    node: NodeId,
)
    ensures
        final(table)@ == old(table)@.insert(key, node),
{
    table.insert(key, node);
}

/// Calls `HashMap::get` and copies the node out: the node that the key is
/// bound to, if it is bound.
#[verifier::external_body]
pub(crate) fn table_get(table: &rustc_hash::FxHashMap<usize, NodeId>, key: usize) -> (r: Option<
    NodeId,
>)
    ensures
        r == if table@.contains_key(key) {
            Some(table@[key])
        } else {
            None
        },
{
    table.get(&key).copied()
}

/// Calls `HashMap::clear`: no key stays bound.
#[verifier::external_body]
pub(crate) fn table_clear(table: &mut rustc_hash::FxHashMap<usize, NodeId>)
    ensures
        final(table)@ == no_anchors(),
{
    table.clear();
}

} // verus!
