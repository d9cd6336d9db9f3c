//! The append-only store of resolved nodes.

use vstd::prelude::*;
use crate::value::{NodeId, Value, ValueView};

verus! {

/// An append-only list of nodes, addressed by the index at which each was
/// pushed. Nothing is ever removed or moved.
#[derive(Debug)]
pub struct Arena {
    nodes: Vec<Value>,
}

impl View for Arena {
    type V = Seq<ValueView>;

    closed spec fn view(&self) -> Seq<ValueView> {
        Seq::new(self.nodes@.len(), |i: int| self.nodes@[i]@)
    }
}

/// Every node refers only to nodes pushed before it, so the nodes form a
/// graph without cycles.
pub open spec fn forward_only(nodes: Seq<ValueView>) -> bool {
    forall|i: int| 0 <= i < nodes.len() ==> (#[trigger] nodes[i]).children_below(i as nat)
}

impl Arena {
    /// An empty arena with room for `cap` nodes.
    pub fn with_capacity(cap: usize) -> (r: Self)
        ensures
            r@ == Seq::<ValueView>::empty(),
    {
        let r = Arena { nodes: Vec::with_capacity(cap) };
        r
    }

    /// The number of nodes pushed so far.
    pub fn len(&self) -> (r: usize)
        ensures
            r == self@.len(),
    {
        self.nodes.len()
    }

    /// Appends a node and returns its id, which is the number of nodes
    /// pushed before it. The nodes already there keep their ids and
    /// contents; an arena whose nodes refer backwards only stays so when the
    /// new node refers to existing nodes.
    pub fn push(&mut self, value: Value) -> (id: NodeId)
        ensures
            id == old(self)@.len(),
            final(self)@ == old(self)@.push(value@),
            forward_only(old(self)@) && value@.children_below(old(self)@.len()) ==> forward_only(
                final(self)@,
            ),
    {
        let id = self.nodes.len();
        self.nodes.push(value);
        id
    }

    /// The node with the given id.
    pub fn get(&self, id: NodeId) -> (r: &Value)
        requires
            id < self@.len(),
        ensures
            r@ == self@[id as int],
    {
        &self.nodes[id]
    }
}

} // verus!
