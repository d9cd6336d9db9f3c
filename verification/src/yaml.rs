//! The value tree that serialisation produces.

use vstd::prelude::*;

verus! {

/// A node of the tree handed to the emitter. A `Representation` is the text
/// of a plain scalar, emitted as it stands.
#[derive(Debug, PartialEq, Eq)]
pub enum YamlNode {
    Null,
    Boolean(bool),
    Integer(i64),
    String(String),
    Representation(String),
    Sequence(Vec<YamlNode>),
    Mapping(Vec<(YamlNode, YamlNode)>),
}

/// View of a [`YamlNode`].
pub enum YamlView {
    Null,
    Boolean(bool),
    Integer(i64),
    Text(Seq<char>),
    Representation(Seq<char>),
    Sequence(Seq<YamlView>),
    Mapping(Seq<(YamlView, YamlView)>),
}

/// The view of a node: text as characters, children by their views.
pub open spec fn yaml_view(node: YamlNode) -> YamlView
    decreases node,
{
    match node {
        YamlNode::Null => YamlView::Null,
        YamlNode::Boolean(b) => YamlView::Boolean(b),
        YamlNode::Integer(n) => YamlView::Integer(n),
        YamlNode::String(s) => YamlView::Text(s@),
        YamlNode::Representation(s) => YamlView::Representation(s@),
        YamlNode::Sequence(items) => YamlView::Sequence(
            Seq::new(
                items@.len(),
                |i: int|
                    if 0 <= i < items@.len() {
                        yaml_view(items@[i])
                    } else {
                        YamlView::Null
                    },
            ),
        ),
        YamlNode::Mapping(pairs) => YamlView::Mapping(
            Seq::new(
                pairs@.len(),
                |i: int|
                    if 0 <= i < pairs@.len() {
                        (yaml_view(pairs@[i].0), yaml_view(pairs@[i].1))
                    } else {
                        (YamlView::Null, YamlView::Null)
                    },
            ),
        ),
    }
}

impl View for YamlNode {
    type V = YamlView;

    open spec fn view(&self) -> YamlView {
        yaml_view(*self)
    }
}

/// The views of a list of nodes.
pub open spec fn node_views(items: Seq<YamlNode>) -> Seq<YamlView> {
    Seq::new(items.len(), |i: int| items[i]@)
}

/// The views of a list of pairs of nodes.
pub open spec fn pair_views(pairs: Seq<(YamlNode, YamlNode)>) -> Seq<(YamlView, YamlView)> {
    Seq::new(pairs.len(), |i: int| (pairs[i].0@, pairs[i].1@))
}

/// The view of a sequence node is the sequence of its items' views.
pub proof fn lemma_sequence_view(items: Vec<YamlNode>)
    ensures
        YamlNode::Sequence(items)@ == YamlView::Sequence(node_views(items@)),
{
    reveal_with_fuel(yaml_view, 2);
    assert(YamlNode::Sequence(items)@->Sequence_0 =~= node_views(items@));
}

/// The view of a mapping node is the sequence of its pairs' views.
pub proof fn lemma_mapping_view(pairs: Vec<(YamlNode, YamlNode)>)
    ensures
        YamlNode::Mapping(pairs)@ == YamlView::Mapping(pair_views(pairs@)),
{
    reveal_with_fuel(yaml_view, 2);
    assert(YamlNode::Mapping(pairs)@->Mapping_0 =~= pair_views(pairs@));
}

} // verus!
