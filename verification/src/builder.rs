//! The tree builder: a state machine that turns the tokenizer's events
//! into nodes of the arena and a list of document roots.

use vstd::prelude::*;
use crate::anchors::{table_clear, table_get, table_insert, table_new};
use crate::arena::{forward_only, Arena};
use crate::events::{
    next_event, open_source, pending, plain_event, plain_fault, scanned, split_event, ParseEvent,
    ScanFault,
};
use crate::scalar::{resolve_scalar, spec_resolve, ScalarTag};
use crate::value::{NodeId, Value, ValueView};

verus! {

/// An open collection: the children gathered so far and, for a mapping,
/// the key that waits for its value.
#[derive(Debug)]
pub enum Frame {
    Sequence { anchor: usize, items: Vec<NodeId> },
    Mapping { anchor: usize, items: Vec<(NodeId, NodeId)>, pending_key: Option<NodeId> },
}

/// View of a [`Frame`].
pub enum FrameView {
    Sequence { anchor: usize, items: Seq<NodeId> },
    Mapping { anchor: usize, items: Seq<(NodeId, NodeId)>, pending_key: Option<NodeId> },
}

impl View for Frame {
    type V = FrameView;

    open spec fn view(&self) -> FrameView {
        match self {
            Frame::Sequence { anchor, items } => FrameView::Sequence {
                anchor: *anchor,
                items: items@,
            },
            Frame::Mapping { anchor, items, pending_key } => FrameView::Mapping {
                anchor: *anchor,
                items: items@,
                pending_key: *pending_key,
            },
        }
    }
}

impl FrameView {
    /// Every node id that the frame holds is below `bound`.
    pub open spec fn ids_below(self, bound: nat) -> bool {
        match self {
            FrameView::Sequence { items, .. } => ValueView::Sequence(items).children_below(bound),
            FrameView::Mapping { items, pending_key, .. } => ValueView::Mapping(
                items,
            ).children_below(bound) && (pending_key matches Some(k) ==> k < bound),
        }
    }
}

/// Why building failed: the tokenizer rejected the text, or a scalar did
/// not fit its tag.
#[derive(Debug, PartialEq, Eq)]
pub enum BuildError {
    Scan(ScanFault),
    Decode(String),
}

/// The state of the builder, as mathematics.
pub struct BuildState {
    pub nodes: Seq<ValueView>,
    pub stack: Seq<FrameView>,
    pub docs: Seq<NodeId>,
    pub anchors: Map<usize, NodeId>,
    pub root: Option<NodeId>,
}

impl BuildState {
    /// The state before any event.
    pub open spec fn initial() -> BuildState {
        BuildState {
            nodes: Seq::empty(),
            stack: Seq::empty(),
            docs: Seq::empty(),
            anchors: Map::empty(),
            root: None,
        }
    }

    /// Every node id that the state holds refers to a node of the arena,
    /// and the nodes refer backwards only.
    pub open spec fn wf(self) -> bool {
        &&& forward_only(self.nodes)
        &&& forall|i: int|
            0 <= i < self.stack.len() ==> (#[trigger] self.stack[i]).ids_below(self.nodes.len())
        &&& forall|i: int| 0 <= i < self.docs.len() ==> (#[trigger] self.docs[i]) < self.nodes.len()
        &&& forall|k: usize|
            self.anchors.contains_key(k) ==> (#[trigger] self.anchors[k]) < self.nodes.len()
        &&& self.root matches Some(r) ==> r < self.nodes.len()
    }

    /// The state after a new node was appended to the arena.
    pub open spec fn with_node(self, node: ValueView) -> BuildState {
        BuildState { nodes: self.nodes.push(node), ..self }
    }

    /// The state after the anchor, if there is one, was bound to the node.
    pub open spec fn bind(self, anchor: usize, node: NodeId) -> BuildState {
        if anchor != 0 {
            BuildState { anchors: self.anchors.insert(anchor, node), ..self }
        } else {
            self
        }
    }

    /// The state after a finished node was handed to the innermost open
    /// collection: a sequence appends it; a mapping takes it as a key, or
    /// as the value that completes the pair of the waiting key. With no
    /// collection open the node becomes the root of the document.
    pub open spec fn route(self, node: NodeId) -> BuildState {
        if self.stack.len() == 0 {
            BuildState { root: Some(node), ..self }
        } else {
            let rest = self.stack.drop_last();
            match self.stack.last() {
                FrameView::Sequence { anchor, items } => BuildState {
                    stack: rest.push(FrameView::Sequence { anchor, items: items.push(node) }),
                    ..self
                },
                FrameView::Mapping { anchor, items, pending_key } => match pending_key {
                    Some(key) => BuildState {
                        stack: rest.push(
                            FrameView::Mapping {
                                anchor,
                                items: items.push((key, node)),
                                pending_key: None,
                            },
                        ),
                        ..self
                    },
                    None => BuildState {
                        stack: rest.push(
                            FrameView::Mapping { anchor, items, pending_key: Some(node) },
                        ),
                        ..self
                    },
                },
            }
        }
    }

    /// The state without its innermost frame.
    pub open spec fn pop(self) -> BuildState {
        BuildState { stack: self.stack.drop_last(), ..self }
    }

    /// The state after a collection was closed as `node`: the node is
    /// appended, bound to the frame's anchor and routed.
    pub open spec fn close(self, anchor: usize, node: ValueView) -> BuildState {
        let id = self.nodes.len() as usize;
        self.pop().with_node(node).bind(anchor, id).route(id)
    }

    /// The state after one event, or the message of the scalar that did not
    /// resolve.
    pub open spec fn step(self, event: ParseEvent) -> Result<BuildState, Seq<char>> {
        match event {
            ParseEvent::Nothing | ParseEvent::StreamStart | ParseEvent::StreamEnd => Ok(self),
            ParseEvent::DocumentStart(_) => Ok(
                BuildState { root: None, stack: Seq::empty(), anchors: Map::empty(), ..self },
            ),
            ParseEvent::DocumentEnd => match self.root {
                Some(r) => Ok(BuildState { root: None, docs: self.docs.push(r), ..self }),
                None => Ok(
                    BuildState {
                        nodes: self.nodes.push(ValueView::Null),
                        docs: self.docs.push(self.nodes.len() as usize),
                        ..self
                    },
                ),
            },
            ParseEvent::Alias(id) => if self.anchors.contains_key(id) {
                Ok(self.route(self.anchors[id]))
            } else {
                Ok(self.with_node(ValueView::Null).route(self.nodes.len() as usize))
            },
            ParseEvent::Scalar { text, style, anchor, tag } => match spec_resolve(
                text@,
                style,
                owned_tag_view(tag),
            ) {
                Err(message) => Err(message),
                Ok(node) => Ok(
                    self.with_node(node).bind(anchor, self.nodes.len() as usize).route(
                        self.nodes.len() as usize,
                    ),
                ),
            },
            ParseEvent::SequenceStart(anchor) => Ok(
                BuildState {
                    stack: self.stack.push(FrameView::Sequence { anchor, items: Seq::empty() }),
                    ..self
                },
            ),
            ParseEvent::MappingStart(anchor) => Ok(
                BuildState {
                    stack: self.stack.push(
                        FrameView::Mapping { anchor, items: Seq::empty(), pending_key: None },
                    ),
                    ..self
                },
            ),
            ParseEvent::SequenceEnd => if self.stack.len() == 0 {
                Ok(self)
            } else {
                match self.stack.last() {
                    FrameView::Sequence { anchor, items } => Ok(
                        self.close(anchor, ValueView::Sequence(items)),
                    ),
                    _ => Ok(self.pop()),
                }
            },
            ParseEvent::MappingEnd => if self.stack.len() == 0 {
                Ok(self)
            } else {
                match self.stack.last() {
                    FrameView::Mapping { anchor, items, .. } => Ok(
                        self.close(anchor, ValueView::Mapping(items)),
                    ),
                    _ => Ok(self.pop()),
                }
            },
        }
    }

    /// The state after a run of events, or the message of the first scalar
    /// that did not resolve.
    pub open spec fn run(self, events: Seq<ParseEvent>) -> Result<BuildState, Seq<char>>
        decreases events.len(),
    {
        if events.len() == 0 {
            Ok(self)
        } else {
            match self.run(events.drop_last()) {
                Err(message) => Err(message),
                Ok(state) => state.step(events.last()),
            }
        }
    }
}

/// The view of an owned optional tag.
pub open spec fn owned_tag_view(tag: Option<ScalarTag>) -> Option<(Seq<char>, Seq<char>)> {
    match tag {
        Some(t) => Some((t.handle@, t.suffix@)),
        None => None,
    }
}

/// Routing keeps a well-formed state well formed.
pub proof fn lemma_route_wf(state: BuildState, node: NodeId)
    requires
        state.wf(),
        node < state.nodes.len(),
    ensures
        state.route(node).wf(),
{
    let after = state.route(node);
    if state.stack.len() > 0 {
        let rest = state.stack.drop_last();
        assert forall|i: int| 0 <= i < after.stack.len() implies (
        #[trigger] after.stack[i]).ids_below(after.nodes.len()) by {
            if i >= rest.len() {
                match state.stack.last() {
                    FrameView::Sequence { anchor, items } => {
                        assert(ValueView::Sequence(items)->Sequence_0 == items);
                    },
                    FrameView::Mapping { anchor, items, pending_key } => {
                        match pending_key {
                            Some(key) => {
                                assert(ValueView::Mapping(items)->Mapping_0 == items);
                            },
                            None => {},
                        }
                    },
                }
            }
        }
    }
}

/// Every step keeps a well-formed state well formed, as long as the arena
/// can still be indexed.
pub proof fn lemma_step_wf(state: BuildState, event: ParseEvent)
    requires
        state.wf(),
        state.nodes.len() <= usize::MAX,
    ensures
        state.step(event) matches Ok(after) ==> after.wf(),
{
    match event {
        ParseEvent::Nothing | ParseEvent::StreamStart | ParseEvent::StreamEnd => {},
        ParseEvent::DocumentStart(_) => {},
        ParseEvent::DocumentEnd => {},
        ParseEvent::Alias(id) => {
            if state.anchors.contains_key(id) {
                lemma_route_wf(state, state.anchors[id]);
            } else {
                lemma_route_wf(state.with_node(ValueView::Null), state.nodes.len() as usize);
            }
        },
        ParseEvent::Scalar { text, style, anchor, tag } => {
            match spec_resolve(text@, style, owned_tag_view(tag)) {
                Ok(node) => {
                    let id = state.nodes.len() as usize;
                    lemma_route_wf(state.with_node(node).bind(anchor, id), id);
                },
                Err(_) => {},
            }
        },
        ParseEvent::SequenceStart(anchor) => {},
        ParseEvent::MappingStart(anchor) => {},
        ParseEvent::SequenceEnd => {
            if state.stack.len() > 0 {
                let popped = state.pop();
                match state.stack.last() {
                    FrameView::Sequence { anchor, items } => {
                        let node = ValueView::Sequence(items);
                        let id = state.nodes.len() as usize;
                        lemma_route_wf(popped.with_node(node).bind(anchor, id), id);
                    },
                    _ => {},
                }
            }
        },
        ParseEvent::MappingEnd => {
            if state.stack.len() > 0 {
                let popped = state.pop();
                match state.stack.last() {
                    FrameView::Mapping { anchor, items, .. } => {
                        let node = ValueView::Mapping(items);
                        let id = state.nodes.len() as usize;
                        lemma_route_wf(popped.with_node(node).bind(anchor, id), id);
                    },
                    _ => {},
                }
            }
        },
    }
}

/// The views of a stack of frames.
pub open spec fn frame_views(stack: Seq<Frame>) -> Seq<FrameView> {
    Seq::new(stack.len(), |i: int| stack[i]@)
}

/// The tree builder.
pub struct Builder {
    arena: Arena,
    stack: Vec<Frame>,
    docs: Vec<NodeId>,
    anchors: rustc_hash::FxHashMap<usize, NodeId>,
    root: Option<NodeId>,
}

impl View for Builder {
    type V = BuildState;

    closed spec fn view(&self) -> BuildState {
        BuildState {
            nodes: self.arena@,
            stack: frame_views(self.stack@),
            docs: self.docs@,
            anchors: self.anchors@,
            root: self.root,
        }
    }
}

impl Builder {
    /// A builder before any event, with room for `capacity` nodes.
    pub fn new(capacity: usize) -> (r: Builder)
        ensures
            r@ == BuildState::initial(),
    {
        let r = Builder {
            arena: Arena::with_capacity(capacity),
            stack: Vec::new(),
            docs: Vec::new(),
            anchors: table_new(),
            root: None,
        };
        proof {
            assert(frame_views(r.stack@) =~= Seq::<FrameView>::empty());
        }
        r
    }

    /// Hands a finished node to the innermost open collection, or makes it
    /// the root of the document when none is open.
    pub fn push_value(&mut self, node: NodeId)
        ensures
            final(self)@ == old(self)@.route(node),
    {
        match self.stack.pop() {
            Some(Frame::Sequence { anchor, items }) => {
                let mut items = items;
                items.push(node);
                self.stack.push(Frame::Sequence { anchor, items });
                proof {
                    assert(frame_views(self.stack@) =~= old(self)@.route(node).stack);
                }
            },
            Some(Frame::Mapping { anchor, items, pending_key }) => {
                let mut items = items;
                match pending_key {
                    Some(key) => {
                        items.push((key, node));
                        self.stack.push(Frame::Mapping { anchor, items, pending_key: None });
                    },
                    None => {
                        self.stack.push(Frame::Mapping { anchor, items, pending_key: Some(node) });
                    },
                }
                proof {
                    assert(frame_views(self.stack@) =~= old(self)@.route(node).stack);
                }
            },
            None => {
                self.root = Some(node);
            },
        }
    }

    /// Binds the anchor, if there is one, to the node.
    fn bind_anchor(&mut self, anchor: usize, node: NodeId)
        ensures
            final(self)@ == old(self)@.bind(anchor, node),
    {
        if anchor != 0 {
            table_insert(&mut self.anchors, anchor, node);
        }
    }

    /// Stores a finished collection, binds its anchor and routes it.
    fn close_frame(&mut self, anchor: usize, value: Value)
        ensures
            final(self)@ == old(self)@.with_node(value@).bind(
                anchor,
                old(self)@.nodes.len() as usize,
            ).route(old(self)@.nodes.len() as usize),
    {
        let node = self.arena.push(value);
        self.bind_anchor(anchor, node);
        self.push_value(node);
    }

    /// Applies one event of the tokenizer. A scalar is resolved and stored;
    /// an alias stands for the node of its anchor, or for a new null node
    /// where the anchor is not bound; the start of a collection opens a
    /// frame and its end stores the collection; the start of a document
    /// forgets anchors and open frames; its end records the root, a new
    /// null node where the document was empty. A scalar that does not fit
    /// its tag is an error, and the builder is then unchanged.
    pub fn step(&mut self, event: &ParseEvent) -> (r: Result<(), String>)
        ensures
            match old(self)@.step(*event) {
                Ok(state) => r is Ok && final(self)@ == state,
                Err(message) => r is Err && r->Err_0@ == message && final(self)@ == old(self)@,
            },
            old(self)@.wf() ==> final(self)@.wf(),
    {
        let count = self.arena.len();
        proof {
            if self@.wf() {
                assert(self@.nodes.len() == count);
                lemma_step_wf(self@, *event);
            }
        }
        match event {
            ParseEvent::Nothing | ParseEvent::StreamStart | ParseEvent::StreamEnd => {},
            ParseEvent::DocumentStart(_) => {
                self.root = None;
                self.stack.clear();
                table_clear(&mut self.anchors);
                proof {
                    assert(frame_views(self.stack@) =~= Seq::<FrameView>::empty());
                }
            },
            ParseEvent::DocumentEnd => {
                let root = match self.root {
                    Some(r) => r,
                    None => self.arena.push(Value::Null),
                };
                self.root = None;
                self.docs.push(root);
            },
            ParseEvent::Alias(id) => {
                let node = match table_get(&self.anchors, *id) {
                    Some(n) => n,
                    None => self.arena.push(Value::Null),
                };
                self.push_value(node);
            },
            ParseEvent::Scalar { text, style, anchor, tag } => {
                let resolved = resolve_scalar(&mut self.arena, text.as_str(), *style, tag.as_ref());
                let node = match resolved {
                    Ok(n) => n,
                    Err(message) => {
                        return Err(message);
                    },
                };
                self.bind_anchor(*anchor, node);
                self.push_value(node);
            },
            ParseEvent::SequenceStart(anchor) => {
                self.stack.push(Frame::Sequence { anchor: *anchor, items: Vec::new() });
                proof {
                    assert(frame_views(self.stack@) =~= old(self)@.step(*event)->Ok_0.stack);
                }
            },
            ParseEvent::MappingStart(anchor) => {
                self.stack.push(
                    Frame::Mapping { anchor: *anchor, items: Vec::new(), pending_key: None },
                );
                proof {
                    assert(frame_views(self.stack@) =~= old(self)@.step(*event)->Ok_0.stack);
                }
            },
            ParseEvent::SequenceEnd => {
                match self.stack.pop() {
                    Some(Frame::Sequence { anchor, items }) => {
                        proof {
                            assert(frame_views(self.stack@) =~= old(self)@.stack.drop_last());
                        }
                        self.close_frame(anchor, Value::Sequence(items));
                    },
                    Some(_) => {
                        proof {
                            assert(frame_views(self.stack@) =~= old(self)@.stack.drop_last());
                        }
                    },
                    None => {},
                }
            },
            ParseEvent::MappingEnd => {
                match self.stack.pop() {
                    Some(Frame::Mapping { anchor, items, pending_key }) => {
                        proof {
                            assert(frame_views(self.stack@) =~= old(self)@.stack.drop_last());
                        }
                        self.close_frame(anchor, Value::Mapping(items));
                    },
                    Some(_) => {
                        proof {
                            assert(frame_views(self.stack@) =~= old(self)@.stack.drop_last());
                        }
                    },
                    None => {},
                }
            },
        }
        Ok(())
    }

    /// Ends the build: the arena and the roots of the documents.
    pub fn finish(self) -> (r: (Arena, Vec<NodeId>))
        ensures
            r.0@ == self@.nodes,
            r.1@ == self@.docs,
    {
        (self.arena, self.docs)
    }
}

/// What a run of events, ended by the failure of the tokenizer if there
/// was one, builds: the message of the first scalar that did not resolve;
/// else the failure; else the arena and the document roots of the final
/// state.
pub open spec fn built(
    events: Seq<ParseEvent>,
    fault: Option<ScanFault>,
    r: Result<(Arena, Vec<NodeId>), BuildError>,
) -> bool {
    match BuildState::initial().run(events) {
        Err(message) => r matches Err(BuildError::Decode(text)) && text@ == message,
        Ok(state) => match fault {
            Some(f) => r == Err::<(Arena, Vec<NodeId>), BuildError>(BuildError::Scan(f)),
            None => r matches Ok((arena, docs)) && arena@ == state.nodes && docs@ == state.docs,
        },
    }
}

/// The arena refers backwards only, and every root is one of its nodes.
pub open spec fn well_built(r: Result<(Arena, Vec<NodeId>), BuildError>) -> bool {
    r matches Ok((arena, docs)) ==> forward_only(arena@) && forall|i: int|
        0 <= i < docs@.len() ==> (#[trigger] docs@[i]) < arena@.len()
}

/// Builds the arena and the document roots from the events that the
/// tokenizer produced, and from its failure if it ended with one. Events
/// are applied in order. The first scalar that does not resolve ends the
/// build with a decode error; a failure of the tokenizer after events that
/// all applied ends it with a scan error.
pub fn build_document(events: &Vec<ParseEvent>, fault: Option<ScanFault>, capacity: usize) -> (r:
    Result<(Arena, Vec<NodeId>), BuildError>)
    ensures
        built(events@, fault, r),
        well_built(r),
{
    let mut builder = Builder::new(capacity);
    let mut i: usize = 0;
    while i < events.len()
        invariant
            i <= events@.len(),
            BuildState::initial().run(events@.take(i as int)) == Ok::<BuildState, Seq<char>>(
                builder@,
            ),
            builder@.wf(),
        decreases events@.len() - i,
    {
        proof {
            assert(events@.take(i + 1).drop_last() =~= events@.take(i as int));
        }
        match builder.step(&events[i]) {
            Ok(()) => {},
            Err(message) => {
                proof {
                    lemma_run_error(BuildState::initial(), events@, i + 1);
                }
                return Err(BuildError::Decode(message));
            },
        }
        i += 1;
    }
    proof {
        assert(events@.take(i as int) =~= events@);
    }
    match fault {
        Some(f) => Err(BuildError::Scan(f)),
        None => Ok(builder.finish()),
    }
}

/// Once a run has failed, more events do not change the failure.
pub proof fn lemma_run_error(state: BuildState, events: Seq<ParseEvent>, upto: int)
    requires
        0 <= upto <= events.len(),
        state.run(events.take(upto)) is Err,
    ensures
        state.run(events) == state.run(events.take(upto)),
    decreases events.len() - upto,
{
    if upto < events.len() {
        assert(events.take(upto + 1).drop_last() =~= events.take(upto));
        lemma_run_error(state, events, upto + 1);
    } else {
        assert(events.take(upto) =~= events);
    }
}

/// Builds the arena and the document roots of a YAML text. The text is
/// handed to the tokenizer, and each event is applied as it comes, until
/// the stream ends, the tokenizer fails or a scalar does not resolve. The
/// result is what [`build_document`] gives for the events of the text and
/// the failure that ends them, if one does.
pub fn build_from_events(input: &str) -> (r: Result<(Arena, Vec<NodeId>), BuildError>)
    ensures
        built(scanned(input@).events, scanned(input@).fault, r),
        well_built(r),
{
    let hint = input.len() / 8;
    let capacity = if hint < 64 {
        64
    } else {
        hint
    };
    let mut source = open_source(input);
    let mut builder = Builder::new(capacity);
    let ghost all = scanned(input@);
    let ghost mut seen: Seq<ParseEvent> = Seq::empty();
    loop
        invariant
            all == scanned(input@),
            seen + pending(source).events == all.events,
            pending(source).fault == all.fault,
            BuildState::initial().run(seen) == Ok::<BuildState, Seq<char>>(builder@),
            builder@.wf(),
        decreases pending(source).events.len(),
    {
        match next_event(&mut source) {
            None => {
                return Ok(builder.finish());
            },
            Some(Err(error)) => {
                return Err(BuildError::Scan(plain_fault(&error)));
            },
            Some(Ok(raw)) => {
                let event = plain_event(split_event(raw));
                proof {
                    assert(seen.push(event).drop_last() =~= seen);
                    assert(all.events.take(seen.len() as int + 1) =~= seen.push(event));
                }
                match builder.step(&event) {
                    Ok(()) => {
                        proof {
                            seen = seen.push(event);
                        }
                    },
                    Err(message) => {
                        proof {
                            let upto = seen.len() as int + 1;
                            lemma_run_error(BuildState::initial(), all.events, upto);
                        }
                        return Err(BuildError::Decode(message));
                    },
                }
            },
        }
    }
}

} // verus!
