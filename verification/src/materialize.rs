//! Materialisation: a subtree of the arena becomes a host value.

use vstd::prelude::*;
use vstd::utf8::encode_utf8;
use crate::arena::{forward_only, Arena};
use crate::datetime::{parse_datetime, spec_parse_datetime};
use crate::host::{value_pair_views, value_views, HostValue, HostValueView};
use crate::value::{FloatLiteral, NodeId, Value, ValueView};

verus! {

/// The host value of a string: the timestamp that it spells when dates are
/// asked for and it spells one, else the string.
pub open spec fn text_value(text: Seq<char>, dates: bool) -> HostValueView {
    if dates {
        match spec_parse_datetime(encode_utf8(text)) {
            Some(stamp) => HostValueView::Timestamp { stamp, text },
            None => HostValueView::Str(text),
        }
    } else {
        HostValueView::Str(text)
    }
}

/// The node `id` is null.
pub open spec fn is_null_node(nodes: Seq<ValueView>, id: NodeId) -> bool {
    id < nodes.len() && nodes[id as int] is Null
}

/// The mapping is read as a set: it has more than one pair, every value is
/// null and no key is.
pub open spec fn set_idiom(nodes: Seq<ValueView>, pairs: Seq<(NodeId, NodeId)>) -> bool {
    &&& pairs.len() > 1
    &&& forall|i: int|
        0 <= i < pairs.len() ==> is_null_node(nodes, (#[trigger] pairs[i]).1) && !is_null_node(
            nodes,
            pairs[i].0,
        )
}

/// The host values of the nodes `items`, each below `bound`.
pub open spec fn hosts_of(
    nodes: Seq<ValueView>,
    items: Seq<NodeId>,
    bound: NodeId,
    dates: bool,
) -> Seq<HostValueView>
    decreases bound, 0nat,
{
    Seq::new(
        items.len(),
        |i: int|
            if 0 <= i < items.len() && items[i] < bound {
                host_of(nodes, items[i], dates)
            } else {
                HostValueView::Null
            },
    )
}

/// The hashable host values of the nodes `items`, each below `bound`.
pub open spec fn keys_of(
    nodes: Seq<ValueView>,
    items: Seq<NodeId>,
    bound: NodeId,
    dates: bool,
) -> Seq<HostValueView>
    decreases bound, 0nat,
{
    Seq::new(
        items.len(),
        |i: int|
            if 0 <= i < items.len() && items[i] < bound {
                key_of(nodes, items[i], dates)
            } else {
                HostValueView::Null
            },
    )
}

/// The hashable keys of the pairs, each below `bound`.
pub open spec fn members_of(
    nodes: Seq<ValueView>,
    pairs: Seq<(NodeId, NodeId)>,
    bound: NodeId,
    dates: bool,
) -> Seq<HostValueView>
    decreases bound, 0nat,
{
    Seq::new(
        pairs.len(),
        |i: int|
            if 0 <= i < pairs.len() && pairs[i].0 < bound {
                key_of(nodes, pairs[i].0, dates)
            } else {
                HostValueView::Null
            },
    )
}

/// The entries of the pairs, each a hashable key and a value, the nodes
/// below `bound`.
pub open spec fn entries_of(
    nodes: Seq<ValueView>,
    pairs: Seq<(NodeId, NodeId)>,
    bound: NodeId,
    dates: bool,
) -> Seq<(HostValueView, HostValueView)>
    decreases bound, 0nat,
{
    Seq::new(
        pairs.len(),
        |i: int|
            if 0 <= i < pairs.len() && pairs[i].0 < bound && pairs[i].1 < bound {
                (key_of(nodes, pairs[i].0, dates), host_of(nodes, pairs[i].1, dates))
            } else {
                (HostValueView::Null, HostValueView::Null)
            },
    )
}

/// The entries of the pairs, each as a two-item tuple.
pub open spec fn entry_tuples_of(
    nodes: Seq<ValueView>,
    pairs: Seq<(NodeId, NodeId)>,
    bound: NodeId,
    dates: bool,
) -> Seq<HostValueView>
    decreases bound, 0nat,
{
    Seq::new(
        pairs.len(),
        |i: int|
            if 0 <= i < pairs.len() && pairs[i].0 < bound && pairs[i].1 < bound {
                HostValueView::Tuple(
                    seq![key_of(nodes, pairs[i].0, dates), host_of(nodes, pairs[i].1, dates)],
                )
            } else {
                HostValueView::Null
            },
    )
}

/// The host value of the node `id`. Scalars map one to one; a string may
/// be read as a timestamp, one from an explicit string tag never is. A
/// sequence is a list. A mapping is a set of its keys under the set idiom,
/// else a dict; keys and members are made hashable.
pub open spec fn host_of(nodes: Seq<ValueView>, id: NodeId, dates: bool) -> HostValueView
    decreases id, 1nat,
{
    if id >= nodes.len() {
        HostValueView::Null
    } else {
        match nodes[id as int] {
            ValueView::Null => HostValueView::Null,
            ValueView::Boolean(b) => HostValueView::Bool(b),
            ValueView::Integer64(n) => HostValueView::Int(n),
            ValueView::IntegerBig(n) => HostValueView::BigInt(n),
            ValueView::Float(f) => HostValueView::Float(f),
            ValueView::TextExplicit(s) => HostValueView::Str(s),
            ValueView::Text(s) => text_value(s, dates),
            ValueView::Sequence(items) => HostValueView::List(hosts_of(nodes, items, id, dates)),
            ValueView::Mapping(pairs) => if set_idiom(nodes, pairs) {
                HostValueView::MutableSet(members_of(nodes, pairs, id, dates))
            } else {
                HostValueView::Dict(entries_of(nodes, pairs, id, dates))
            },
        }
    }
}

/// The hashable host value of the node `id`: a sequence is a tuple of
/// hashable items, a mapping a frozen set of its entries, anything else its
/// host value.
pub open spec fn key_of(nodes: Seq<ValueView>, id: NodeId, dates: bool) -> HostValueView
    decreases id, 2nat,
{
    if id >= nodes.len() {
        HostValueView::Null
    } else {
        match nodes[id as int] {
            ValueView::Sequence(items) => HostValueView::Tuple(keys_of(nodes, items, id, dates)),
            ValueView::Mapping(pairs) => HostValueView::FrozenSet(
                entry_tuples_of(nodes, pairs, id, dates),
            ),
            _ => host_of(nodes, id, dates),
        }
    }
}

/// What a parse yields: an empty dict for no document, the value of the
/// one document, or the list of the values of several.
pub open spec fn documents_of(
    nodes: Seq<ValueView>,
    docs: Seq<NodeId>,
    dates: bool,
) -> HostValueView {
    if docs.len() == 0 {
        HostValueView::Dict(Seq::empty())
    } else if docs.len() == 1 {
        host_of(nodes, docs[0], dates)
    } else {
        HostValueView::List(Seq::new(docs.len(), |i: int| host_of(nodes, docs[i], dates)))
    }
}

/// Every id of the list is below `bound`.
pub open spec fn ids_below(items: Seq<NodeId>, bound: nat) -> bool {
    forall|i: int| 0 <= i < items.len() ==> (#[trigger] items[i]) < bound
}

/// Every id of the pairs is below `bound`.
pub open spec fn pairs_below(pairs: Seq<(NodeId, NodeId)>, bound: nat) -> bool {
    forall|i: int| 0 <= i < pairs.len() ==> (#[trigger] pairs[i]).0 < bound && pairs[i].1 < bound
}

/// Copies a float literal.
fn copy_float(f: &FloatLiteral) -> (r: FloatLiteral)
    ensures
        r@ == f@,
{
    match f {
        FloatLiteral::Infinity => FloatLiteral::Infinity,
        FloatLiteral::NegInfinity => FloatLiteral::NegInfinity,
        FloatLiteral::NotANumber => FloatLiteral::NotANumber,
        FloatLiteral::Decimal(text) => FloatLiteral::Decimal(text.clone()),
    }
}

/// Materialises a string, as a timestamp where it spells one and dates
/// are asked for.
fn text_to_host(text: &String, dates: bool) -> (r: HostValue)
    ensures
        r@ == text_value(text@, dates),
{
    if dates {
        match parse_datetime(text.as_str()) {
            Some(stamp) => HostValue::Timestamp { stamp, text: text.clone() },
            None => HostValue::Str(text.clone()),
        }
    } else {
        HostValue::Str(text.clone())
    }
}

/// Whether the node `id` is null.
fn null_at(arena: &Arena, id: NodeId) -> (r: bool)
    requires
        id < arena@.len(),
    ensures
        r == is_null_node(arena@, id),
{
    match arena.get(id) {
        Value::Null => true,
        _ => false,
    }
}

/// Whether the mapping is read as a set: more than one pair, every value
/// null, no key null.
pub fn is_set_idiom(arena: &Arena, pairs: &Vec<(NodeId, NodeId)>) -> (r: bool)
    requires
        pairs_below(pairs@, arena@.len()),
    ensures
        r == set_idiom(arena@, pairs@),
{
    let mut all_nulls = true;
    let mut has_null_key = false;
    let mut i: usize = 0;
    while i < pairs.len()
        invariant
            i <= pairs@.len(),
            pairs_below(pairs@, arena@.len()),
            all_nulls == (forall|j: int|
                0 <= j < i ==> is_null_node(arena@, (#[trigger] pairs@[j]).1)),
            has_null_key == (exists|j: int|
                0 <= j < i && is_null_node(arena@, (#[trigger] pairs@[j]).0)),
        decreases pairs@.len() - i,
    {
        let pair = pairs[i];
        if null_at(arena, pair.0) {
            has_null_key = true;
        }
        if !null_at(arena, pair.1) {
            all_nulls = false;
        }
        i += 1;
    }
    all_nulls && !has_null_key && pairs.len() > 1
}

/// Materialises each node of a list.
fn hosts(arena: &Arena, items: &Vec<NodeId>, bound: NodeId, dates: bool) -> (r: Vec<HostValue>)
    requires
        forward_only(arena@),
        bound <= arena@.len(),
        ids_below(items@, bound as nat),
    ensures
        value_views(r@) == hosts_of(arena@, items@, bound, dates),
    decreases bound, 0nat,
{
    let mut out: Vec<HostValue> = Vec::new();
    let mut i: usize = 0;
    while i < items.len()
        invariant
            i <= items@.len(),
            forward_only(arena@),
            bound <= arena@.len(),
            ids_below(items@, bound as nat),
            out@.len() == i,
            forall|j: int|
                0 <= j < i ==> (#[trigger] out@[j])@ == host_of(arena@, items@[j], dates),
        decreases items@.len() - i,
    {
        let value = value_to_host(arena, items[i], dates);
        out.push(value);
        i += 1;
    }
    out
}

/// Materialises each node of a list as something hashable.
fn keys(arena: &Arena, items: &Vec<NodeId>, bound: NodeId, dates: bool) -> (r: Vec<HostValue>)
    requires
        forward_only(arena@),
        bound <= arena@.len(),
        ids_below(items@, bound as nat),
    ensures
        value_views(r@) == keys_of(arena@, items@, bound, dates),
    decreases bound, 0nat,
{
    let mut out: Vec<HostValue> = Vec::new();
    let mut i: usize = 0;
    while i < items.len()
        invariant
            i <= items@.len(),
            forward_only(arena@),
            bound <= arena@.len(),
            ids_below(items@, bound as nat),
            out@.len() == i,
            forall|j: int| 0 <= j < i ==> (#[trigger] out@[j])@ == key_of(arena@, items@[j], dates),
        decreases items@.len() - i,
    {
        let value = value_to_hashable(arena, items[i], dates);
        out.push(value);
        i += 1;
    }
    out
}

/// Materialises the key of each pair as a member of a set.
fn members(arena: &Arena, pairs: &Vec<(NodeId, NodeId)>, bound: NodeId, dates: bool) -> (r: Vec<
    HostValue,
>)
    requires
        forward_only(arena@),
        bound <= arena@.len(),
        pairs_below(pairs@, bound as nat),
    ensures
        value_views(r@) == members_of(arena@, pairs@, bound, dates),
    decreases bound, 0nat,
{
    let mut out: Vec<HostValue> = Vec::new();
    let mut i: usize = 0;
    while i < pairs.len()
        invariant
            i <= pairs@.len(),
            forward_only(arena@),
            bound <= arena@.len(),
            pairs_below(pairs@, bound as nat),
            out@.len() == i,
            forall|j: int|
                0 <= j < i ==> (#[trigger] out@[j])@ == key_of(arena@, pairs@[j].0, dates),
        decreases pairs@.len() - i,
    {
        let value = value_to_hashable(arena, pairs[i].0, dates);
        out.push(value);
        i += 1;
    }
    out
}

/// Materialises each pair as an entry of a dict.
fn entries(arena: &Arena, pairs: &Vec<(NodeId, NodeId)>, bound: NodeId, dates: bool) -> (r: Vec<
    (HostValue, HostValue),
>)
    requires
        forward_only(arena@),
        bound <= arena@.len(),
        pairs_below(pairs@, bound as nat),
    ensures
        value_pair_views(r@) == entries_of(arena@, pairs@, bound, dates),
    decreases bound, 0nat,
{
    let mut out: Vec<(HostValue, HostValue)> = Vec::new();
    let mut i: usize = 0;
    while i < pairs.len()
        invariant
            i <= pairs@.len(),
            forward_only(arena@),
            bound <= arena@.len(),
            pairs_below(pairs@, bound as nat),
            out@.len() == i,
            forall|j: int|
                0 <= j < i ==> (#[trigger] out@[j]).0@ == key_of(arena@, pairs@[j].0, dates)
                    && out@[j].1@ == host_of(arena@, pairs@[j].1, dates),
        decreases pairs@.len() - i,
    {
        let key = value_to_hashable(arena, pairs[i].0, dates);
        let value = value_to_host(arena, pairs[i].1, dates);
        out.push((key, value));
        i += 1;
    }
    out
}

/// Materialises each pair as a two-item tuple.
fn entry_tuples(arena: &Arena, pairs: &Vec<(NodeId, NodeId)>, bound: NodeId, dates: bool) -> (r:
    Vec<HostValue>)
    requires
        forward_only(arena@),
        bound <= arena@.len(),
        pairs_below(pairs@, bound as nat),
    ensures
        value_views(r@) == entry_tuples_of(arena@, pairs@, bound, dates),
    decreases bound, 0nat,
{
    let mut out: Vec<HostValue> = Vec::new();
    let mut i: usize = 0;
    while i < pairs.len()
        invariant
            i <= pairs@.len(),
            forward_only(arena@),
            bound <= arena@.len(),
            pairs_below(pairs@, bound as nat),
            out@.len() == i,
            forall|j: int|
                0 <= j < i ==> (#[trigger] out@[j])@ == HostValueView::Tuple(
                    seq![
                        key_of(arena@, pairs@[j].0, dates),
                        host_of(arena@, pairs@[j].1, dates),
                    ],
                ),
        decreases pairs@.len() - i,
    {
        let key = value_to_hashable(arena, pairs[i].0, dates);
        let value = value_to_host(arena, pairs[i].1, dates);
        let mut both: Vec<HostValue> = Vec::new();
        both.push(key);
        both.push(value);
        proof {
            assert(value_views(both@) =~= seq![
                key_of(arena@, pairs@[i as int].0, dates),
                host_of(arena@, pairs@[i as int].1, dates),
            ]);
        }
        out.push(HostValue::Tuple(both));
        i += 1;
    }
    out
}

/// Materialises the node `id`. Scalars become the host's null, boolean,
/// integer, float or string; with `dates` set a string that spells a
/// timestamp becomes one, unless it came from an explicit string tag. A
/// sequence becomes a list. A mapping with more than one pair, whose
/// values are all null and whose keys are not, becomes a set of its keys;
/// any other mapping becomes a dict.
pub fn value_to_host(arena: &Arena, id: NodeId, dates: bool) -> (r: HostValue)
    requires
        forward_only(arena@),
        id < arena@.len(),
    ensures
        r@ == host_of(arena@, id, dates),
    decreases id, 1nat,
{
    match arena.get(id) {
        Value::Null => HostValue::Null,
        Value::Boolean(b) => HostValue::Bool(*b),
        Value::IntegerI64(n) => HostValue::Int(*n),
        Value::IntegerBig(n) => HostValue::BigInt(n.clone()),
        Value::Float(f) => HostValue::Float(copy_float(f)),
        Value::StringExplicit(s) => HostValue::Str(s.clone()),
        Value::String(s) => text_to_host(s, dates),
        Value::Sequence(items) => HostValue::List(hosts(arena, items, id, dates)),
        Value::Mapping(pairs) => {
            if is_set_idiom(arena, pairs) {
                HostValue::MutableSet(members(arena, pairs, id, dates))
            } else {
                HostValue::Dict(entries(arena, pairs, id, dates))
            }
        },
    }
}

/// Materialises the node `id` as something the host can hash: a sequence
/// becomes a tuple of hashable items, a mapping a frozen set of its
/// entries, each a tuple of the hashable key and the value; any other
/// node is materialised as it is.
pub fn value_to_hashable(arena: &Arena, id: NodeId, dates: bool) -> (r: HostValue)
    requires
        forward_only(arena@),
        id < arena@.len(),
    ensures
        r@ == key_of(arena@, id, dates),
    decreases id, 2nat,
{
    match arena.get(id) {
        Value::Sequence(items) => HostValue::Tuple(keys(arena, items, id, dates)),
        Value::Mapping(pairs) => HostValue::FrozenSet(entry_tuples(arena, pairs, id, dates)),
        _ => value_to_host(arena, id, dates),
    }
}

/// Materialises the documents of a parse: an empty dict when there is
/// none, the value of the one document, or a list of the values of
/// several.
pub fn to_host(arena: &Arena, docs: &Vec<NodeId>, dates: bool) -> (r: HostValue)
    requires
        forward_only(arena@),
        ids_below(docs@, arena@.len()),
    ensures
        r@ == documents_of(arena@, docs@, dates),
{
    if docs.len() == 0 {
        let r = HostValue::Dict(Vec::new());
        proof {
            assert(r@->Dict_0 =~= Seq::<(HostValueView, HostValueView)>::empty());
        }
        r
    } else if docs.len() == 1 {
        value_to_host(arena, docs[0], dates)
    } else {
        let mut out: Vec<HostValue> = Vec::new();
        let mut i: usize = 0;
        while i < docs.len()
            invariant
                i <= docs@.len(),
                forward_only(arena@),
                ids_below(docs@, arena@.len()),
                out@.len() == i,
                forall|j: int|
                    0 <= j < i ==> (#[trigger] out@[j])@ == host_of(arena@, docs@[j], dates),
            decreases docs@.len() - i,
        {
            let value = value_to_host(arena, docs[i], dates);
            out.push(value);
            i += 1;
        }
        let r = HostValue::List(out);
        proof {
            assert(r@->List_0 =~= documents_of(arena@, docs@, dates)->List_0);
        }
        r
    }
}

} // verus!
