//! Changing the scene: create, update, delete and move nodes.
use vstd::prelude::*;

use crate::agent::edit::{lemma_without_absent, same_components, without};
use crate::agent::handle::{
    node_ref_or_root, node_ref_or_root_for, resolved_target, target_view, Cursor, NodeRef,
    NodeRefView, NodeTarget, SessionId,
};
use crate::agent::path::OrderKey;
use crate::agent::query::lemma_resolved_alive;
use crate::agent::scene::{
    key_view, Entity, EntityRecord, Frame, FrameData, NodeKind, RectangleData, SceneTree, Text,
    TextData, TransformPatch,
};
use crate::agent::watch::{
    capture_removal_path, removal_ref, removed_views, stream_after, GraphMessage, StreamView,
};
use crate::agent::world::SceneWorld;
use crate::seqs::lemma_filter_step;

verus! {

/// The data of a new node.
#[derive(Debug)]
pub enum NewNode {
    Frame(FrameData),
    Rectangle(RectangleData),
    Text(TextData),
}

impl NewNode {
    pub open spec fn spec_kind(self) -> NodeKind {
        match self {
            NewNode::Frame(_) => NodeKind::Frame,
            NewNode::Rectangle(_) => NodeKind::Rectangle,
            NewNode::Text(_) => NodeKind::Text,
        }
    }

    pub fn kind(&self) -> (r: NodeKind)
        ensures
            r == self.spec_kind(),
    {
        match self {
            NewNode::Frame(_) => NodeKind::Frame,
            NewNode::Rectangle(_) => NodeKind::Rectangle,
            NewNode::Text(_) => NodeKind::Text,
        }
    }
}

/// What to create and where to put it. Without a parent it becomes a root;
/// under a parent without a position it gets the order key `a`.
#[derive(Debug)]
pub struct CreateSpec {
    pub data: NewNode,
    pub parent: Option<NodeTarget>,
    pub position: Option<OrderKey>,
}

/// A partial update. A field that does not apply to the node's variant has no
/// effect.
#[derive(Debug)]
pub struct UpdatePatch {
    /// The new name of a frame.
    pub frame_name: Option<String>,
    /// The new content of a text.
    pub text_content: Option<String>,
    /// The new transform.
    pub transform: Option<TransformPatch>,
}

impl Default for UpdatePatch {
    fn default() -> (r: Self)
        ensures
            r.frame_name is None,
            r.text_content is None,
            r.transform is None,
    {
        UpdatePatch { frame_name: None, text_content: None, transform: None }
    }
}

impl UpdatePatch {
    pub open spec fn spec_is_empty(self) -> bool {
        self.frame_name is None && self.text_content is None && self.transform is None
    }

    pub fn with_frame_name(self, name: String) -> (r: Self)
        ensures
            r == (UpdatePatch { frame_name: Some(name), ..self }),
    {
        UpdatePatch {
            frame_name: Some(name),
            text_content: self.text_content,
            transform: self.transform,
        }
    }

    pub fn with_text_content(self, content: String) -> (r: Self)
        ensures
            r == (UpdatePatch { text_content: Some(content), ..self }),
    {
        UpdatePatch {
            frame_name: self.frame_name,
            text_content: Some(content),
            transform: self.transform,
        }
    }

    pub fn with_transform(self, t: TransformPatch) -> (r: Self)
        ensures
            r == (UpdatePatch { transform: Some(t), ..self }),
    {
        UpdatePatch {
            frame_name: self.frame_name,
            text_content: self.text_content,
            transform: Some(t),
        }
    }

    /// Whether no field is set.
    pub fn is_empty(&self) -> (r: bool)
        ensures
            r == self.spec_is_empty(),
    {
        self.frame_name.is_none() && self.text_content.is_none() && self.transform.is_none()
    }
}

/// Where to move a node. Without a new parent it becomes a root.
#[derive(Debug)]
pub struct MoveSpec {
    pub target: NodeTarget,
    pub new_parent: Option<NodeTarget>,
    pub position: OrderKey,
}

/// The node after the change (before it, for a deletion), and the position in
/// the change stream once the change has landed.
#[derive(Debug)]
pub struct MutateResult {
    pub node: NodeRef,
    pub cursor: Cursor,
}

#[derive(Clone, Copy, Debug, PartialEq, Eq)]
pub enum MutateError {
    /// The target does not resolve.
    TargetNotFound,
    /// The parent does not resolve.
    ParentNotFound,
    /// A field of the patch does not apply to the node's variant.
    VariantMismatch { expected: NodeKind, patched: &'static str },
    /// The patch has no field set.
    EmptyPatch,
}

/// The name of a variant.
pub open spec fn kind_name(k: NodeKind) -> Seq<char> {
    match k {
        NodeKind::Frame => "Frame"@,
        NodeKind::Rectangle => "Rectangle"@,
        NodeKind::Text => "Text"@,
    }
}

impl MutateError {
    pub open spec fn message(self) -> Seq<char> {
        match self {
            MutateError::TargetNotFound => "target node not found"@,
            MutateError::ParentNotFound => "parent node not found"@,
            MutateError::VariantMismatch { expected, patched } => "update patch field '"@ + patched@
                + "' doesn't apply to variant "@ + kind_name(expected),
            MutateError::EmptyPatch => "update patch had no fields set"@,
        }
    }

    /// The human-readable message.
    pub fn to_string(&self) -> (r: String)
        ensures
            r@ == self.message(),
    {
        match self {
            MutateError::TargetNotFound => "target node not found".to_owned(),
            MutateError::ParentNotFound => "parent node not found".to_owned(),
            MutateError::VariantMismatch { expected, patched } => {
                let mut s = "update patch field '".to_owned();
                s.append(patched);
                s.append("' doesn't apply to variant ");
                match expected {
                    NodeKind::Frame => s.append("Frame"),
                    NodeKind::Rectangle => s.append("Rectangle"),
                    NodeKind::Text => s.append("Text"),
                }
                s
            },
            MutateError::EmptyPatch => "update patch had no fields set".to_owned(),
        }
    }
}

// ---------------------------------------------------------------------------
// World operations
// ---------------------------------------------------------------------------

/// Whether a transform is the identity.
pub open spec fn is_identity(t: TransformPatch) -> bool {
    &&& t.translation@ == seq![0u32, 0, 0]
    &&& t.rotation@ == seq![0u32, 0, 0, 0x3f80_0000]
    &&& t.scale@ == seq![0x3f80_0000u32, 0x3f80_0000, 0x3f80_0000]
}

/// The identity transform: no translation, no rotation, scale 1.
pub fn identity_transform() -> (r: TransformPatch)
    ensures
        is_identity(r),
{
    let r = TransformPatch {
        translation: [0, 0, 0],
        rotation: [0, 0, 0, 0x3f80_0000],
        scale: [0x3f80_0000, 0x3f80_0000, 0x3f80_0000],
    };
    assert(r.translation@ =~= seq![0u32, 0, 0]);
    assert(r.rotation@ =~= seq![0u32, 0, 0, 0x3f80_0000]);
    assert(r.scale@ =~= seq![0x3f80_0000u32, 0x3f80_0000, 0x3f80_0000]);
    r
}

/// Whether `r` holds the components of a new node with `data`.
pub open spec fn is_new_node(r: EntityRecord, data: NewNode, key: Option<Seq<char>>) -> bool {
    &&& r.scene_node
    &&& !r.scene_edge
    &&& r.kind == Some(data.spec_kind())
    &&& r.frame == (match data {
        NewNode::Frame(d) => Some(d.frame),
        _ => None,
    })
    &&& r.rectangle == (match data {
        NewNode::Rectangle(d) => Some(d.rectangle),
        _ => None,
    })
    &&& r.text == (match data {
        NewNode::Text(d) => Some(d.text),
        _ => None,
    })
    &&& r.transform is Some
    &&& is_identity(r.transform->0)
    &&& key_view(r.order_key) == key
    &&& r.edge_from is None
    &&& r.edge_to is None
    &&& r.others@.len() == 0
}

/// Whether `r` is the record of a fresh edge: the two ends and nothing else.
pub open spec fn is_new_edge(r: EntityRecord, from: Entity, to: Entity) -> bool {
    &&& !r.scene_node
    &&& r.scene_edge
    &&& r.edge_from == Some(from)
    &&& r.edge_to == Some(to)
    &&& r.kind is None
    &&& r.frame is None
    &&& r.rectangle is None
    &&& r.text is None
    &&& r.transform is None
    &&& r.order_key is None
    &&& r.others@.len() == 0
}

impl SceneTree {
    /// Whether `self` is `before` with a further entity under `parent`, last
    /// among its children.
    pub open spec fn grown(self, before: SceneTree, parent: Option<Entity>) -> bool {
        let e = before.slots@.len() as Entity;
        &&& self.slots@.len() == before.slots@.len() + 1
        &&& self.alive(e)
        &&& self.parent(e) == parent
        &&& self.kids(e).len() == 0
        &&& forall|x: Entity| x != e ==> (#[trigger] self.alive(x) <==> before.alive(x))
        &&& forall|x: Entity| #[trigger]
            before.alive(x) ==> same_components(self.rec(x), before.rec(x)) && self.parent(x)
                == before.parent(x) && self.kids(x) == (if Some(x) == parent {
                before.kids(x).push(e)
            } else {
                before.kids(x)
            })
    }

    /// Whether the two trees agree on which entities live and where they stand.
    pub open spec fn same_shape(self, other: SceneTree) -> bool {
        &&& self.slots@.len() == other.slots@.len()
        &&& forall|x: Entity| #[trigger] self.alive(x) <==> other.alive(x)
        &&& forall|x: Entity| #[trigger]
            self.alive(x) ==> self.parent(x) == other.parent(x) && self.kids(x) == other.kids(x)
    }

    pub proof fn lemma_same_shape(self, other: SceneTree)
        requires
            other.wf(),
            self.same_shape(other),
        ensures
            self.wf(),
    {
        assert forall|x: Entity| #[trigger] self.alive(x) implies other.alive(x) by {}
        let r = choose|r: spec_fn(Entity) -> nat| other.ranked(r);
        assert(other.ranked(r));
        assert(self.ranked(r)) by {
            assert forall|x: Entity| #[trigger]
                self.alive(x) && self.parent(x) is Some implies r(self.parent(x)->0) < r(x) by {
                assert(other.alive(x));
            }
        }
        assert forall|x: Entity| #[trigger]
            self.alive(x) && self.parent(x) is Some implies self.alive(self.parent(x)->0)
            && self.kids(self.parent(x)->0).contains(x) by {
            assert(other.alive(x));
            let p = other.parent(x)->0;
            assert(other.alive(p));
            assert(self.alive(p));
        }
        assert forall|x: Entity, i: int| self.alive(x) && 0 <= i < self.kids(x).len() implies
            self.alive(#[trigger] self.kids(x)[i]) && self.parent(self.kids(x)[i]) == Some(x) by {
            assert(other.alive(x));
            let c = other.kids(x)[i];
            assert(other.alive(c) && other.parent(c) == Some(x));
            assert(self.alive(c));
        }
        assert forall|x: Entity| #[trigger] self.alive(x) implies self.kids(x).no_duplicates() by {
            assert(other.alive(x));
        }
    }

    /// Adds an entity with the given components under `parent`.
    pub fn spawn_under(&mut self, record: EntityRecord, parent: Option<Entity>) -> (r: Entity)
        requires
            old(self).wf(),
            old(self).slots@.len() < u32::MAX,
            record.parent is None,
            record.children@.len() == 0,
            parent is Some ==> old(self).alive(parent->0),
        ensures
            final(self).wf(),
            r == old(self).slots@.len(),
            final(self).grown(*old(self), parent),
            same_components(final(self).rec(r), record),
    {
        let ghost before = *self;
        let e = self.spawn(record);
        let ghost middle = *self;
        proof {
            assert(middle.alive(e));
            assert forall|x: Entity| #[trigger] before.alive(x) implies middle.alive(x)
                && middle.rec(x) == before.rec(x) && x != e by {}
            assert forall|x: Entity| #[trigger] middle.alive(x) implies without(
                middle.kids(x),
                e,
            ) == middle.kids(x) by {
                if middle.kids(x).contains(e) {
                    let i = choose|i: int| 0 <= i < middle.kids(x).len() && middle.kids(x)[i] == e;
                    assert(middle.parent(middle.kids(x)[i]) == Some(x));
                }
                lemma_without_absent(middle.kids(x), e);
            }
            if let Some(p) = parent {
                assert(before.alive(p));
                middle.lemma_chain(p);
                if middle.under(p, e) {
                    let c = middle.chain(p);
                    let i = choose|i: int| 0 <= i < c.len() && c[i] == e;
                    if i < c.len() - 1 {
                        assert(middle.parent(c[i + 1]) == Some(c[i]));
                        assert(middle.kids(e).contains(c[i + 1])) by {
                            assert(middle.alive(c[i + 1]));
                        }
                    } else {
                        assert(c.last() == p);
                    }
                }
            }
        }
        self.set_parent(e, parent);
        proof {
            assert(middle.alive(e));
            assert forall|x: Entity| x != e implies (#[trigger] self.alive(x) <==> before.alive(
                x,
            )) by {
                assert(self.alive(x) <==> middle.alive(x));
            }
            assert forall|x: Entity| #[trigger] before.alive(x) implies same_components(
                self.rec(x),
                before.rec(x),
            ) && self.parent(x) == before.parent(x) && self.kids(x) == (if Some(x) == parent {
                before.kids(x).push(e)
            } else {
                before.kids(x)
            }) by {
                assert(middle.alive(x));
            }
        }
        e
    }
}

impl SceneWorld {
    /// Whether `self` differs from `before` only in its tree and in that the
    /// messages `sent` wait for the change stream.
    pub open spec fn sent(self, before: SceneWorld, sent: Seq<GraphMessage>) -> bool {
        &&& self.crdt == before.crdt
        &&& self.registry == before.registry
        &&& self.watch == before.watch
        &&& self.pending@ == before.after_sending(sent)
    }

    /// Whether `self` is `before` with its tree changed, once the change
    /// stream has taken in what waited and the messages `sent`.
    pub open spec fn landed(self, before: SceneWorld, sent: Seq<GraphMessage>) -> bool {
        &&& self.crdt == before.crdt
        &&& self.registry == before.registry
        &&& self.pending@.len() == 0
        &&& self.watch is Some <==> before.watch is Some
        &&& before.watch is Some ==> self.watch->0.after(before.watch->0, before.pending@ + sent)
    }

    /// Adds a node.
    pub fn spawn_node(&mut self, data: NewNode, parent: Option<Entity>, key: Option<OrderKey>) -> (r:
        Entity)
        requires
            old(self).wf(),
            old(self).tree.slots@.len() < u32::MAX,
            parent is Some ==> old(self).tree.alive(parent->0),
        ensures
            final(self).wf(),
            r == old(self).tree.slots@.len(),
            final(self).tree.grown(old(self).tree, parent),
            is_new_node(final(self).tree.rec(r), data, key_view(key)),
            final(self).sent(*old(self), seq![GraphMessage::NodeAdded { entity: r }]),
    {
        let mut record = EntityRecord::empty();
        record.scene_node = true;
        record.kind = Some(data.kind());
        record.transform = Some(identity_transform());
        record.order_key = key;
        match data {
            NewNode::Frame(d) => {
                record.frame = Some(d.frame);
            },
            NewNode::Rectangle(d) => {
                record.rectangle = Some(d.rectangle);
            },
            NewNode::Text(d) => {
                record.text = Some(d.text);
            },
        }
        let e = self.tree.spawn_under(record, parent);
        self.send(GraphMessage::NodeAdded { entity: e });
        e
    }

    /// Adds an edge.
    pub fn spawn_edge(&mut self, from: Entity, to: Entity) -> (r: Entity)
        requires
            old(self).wf(),
            old(self).tree.slots@.len() < u32::MAX,
        ensures
            final(self).wf(),
            r == old(self).tree.slots@.len(),
            final(self).tree.grown(old(self).tree, None),
            is_new_edge(final(self).tree.rec(r), from, to),
            final(self).sent(*old(self), seq![GraphMessage::EdgeAdded { entity: r }]),
    {
        let mut record = EntityRecord::empty();
        record.scene_edge = true;
        record.edge_from = Some(from);
        record.edge_to = Some(to);
        let e = self.tree.spawn_under(record, None);
        self.send(GraphMessage::EdgeAdded { entity: e });
        e
    }
}

/// The references captured for a subtree about to be removed, added to `m`:
/// one for each of its scene nodes. The root keeps its whole path; what stands
/// below it goes after its parent.
pub open spec fn captured(
    w: SceneWorld,
    root: Entity,
    doomed: Seq<Entity>,
    session: SessionId,
    m: Map<Entity, NodeRefView>,
) -> Map<Entity, NodeRefView>
    decreases doomed.len(),
{
    if doomed.len() == 0 {
        m
    } else {
        let x = doomed.last();
        let rest = captured(w, root, doomed.drop_last(), session, m);
        if w.tree.scene(x) {
            rest.insert(x, removal_ref(w, x, x != root, session))
        } else {
            rest
        }
    }
}

/// The messages that report a removed subtree.
pub open spec fn removal_messages(tree: SceneTree, doomed: Seq<Entity>) -> Seq<GraphMessage> {
    doomed.filter(|x: Entity| tree.scene(x)).map_values(
        |x: Entity| GraphMessage::NodeRemoved { entity: x },
    )
}

/// The change stream once the references of a subtree were captured.
pub open spec fn after_capture(w: SceneWorld, root: Entity) -> StreamView {
    let state = w.watch->0;
    StreamView {
        removed: captured(
            w,
            root,
            w.tree.subtree(root),
            state.buffer.session,
            state.stream().removed,
        ),
        ..state.stream()
    }
}

impl SceneWorld {
    /// Captures a reference for each scene node of a subtree about to be removed.
    fn capture_subtree(&mut self, root: Entity, doomed: &Vec<Entity>)
        requires
            old(self).wf(),
            old(self).watch is Some,
            doomed@ == old(self).tree.subtree(root),
        ensures
            final(self).wf(),
            final(self).same_scene(*old(self)),
            final(self).pending == old(self).pending,
            final(self).watch is Some,
            final(self).watch->0.generation == old(self).watch->0.generation,
            final(self).watch->0.replicated_op == old(self).watch->0.replicated_op,
            final(self).watch->0.buffer == old(self).watch->0.buffer,
            final(self).watch->0.stream() == after_capture(*old(self), root),
    {
        let ghost before = *self;
        let ghost start = before.watch->0.stream().removed;
        let session = match &self.watch {
            Some(state) => state.buffer.session,
            None => SessionId(0),
        };
        let mut i: usize = 0;
        assert(doomed@.take(0) =~= seq![]);
        while i < doomed.len()
            invariant
                before.wf(),
                self.wf(),
                before.watch is Some,
                start == before.watch->0.stream().removed,
                session == before.watch->0.buffer.session,
                self.same_scene(before),
                self.pending == before.pending,
                self.watch is Some,
                self.watch->0.generation == before.watch->0.generation,
                self.watch->0.replicated_op == before.watch->0.replicated_op,
                self.watch->0.buffer == before.watch->0.buffer,
                i <= doomed@.len(),
                removed_views(self.watch->0.removed_paths.paths@) == captured(
                    before,
                    root,
                    doomed@.take(i as int),
                    session,
                    start,
                ),
            decreases doomed@.len() - i,
        {
            let x = doomed[i];
            proof {
                assert(doomed@.take(i + 1).drop_last() =~= doomed@.take(i as int));
                assert(doomed@.take(i + 1).last() == x);
            }
            if self.tree.is_scene(x) {
                let r = capture_removal_path(self, x, x != root, session);
                proof {
                    assert(r@ == removal_ref(before, x, x != root, session));
                }
                let ghost old_paths = self.watch->0.removed_paths.paths@;
                if let Some(state) = &mut self.watch {
                    state.removed_paths.paths.insert(x, r);
                }
                assert(removed_views(self.watch->0.removed_paths.paths@) =~= removed_views(
                    old_paths,
                ).insert(x, r@));
            }
            i = i + 1;
        }
        assert(doomed@.take(i as int) =~= doomed@);
    }

    /// Removes an entity and everything below it.
    pub fn despawn(&mut self, e: Entity)
        requires
            old(self).wf(),
            old(self).tree.alive(e),
        ensures
            final(self).wf(),
            final(self).tree.pruned(old(self).tree, e),
            final(self).crdt == old(self).crdt,
            final(self).registry == old(self).registry,
            final(self).pending@ == old(self).after_sending(
                removal_messages(old(self).tree, old(self).tree.subtree(e)),
            ),
            final(self).watch is Some <==> old(self).watch is Some,
            old(self).watch is Some ==> {
                &&& final(self).watch->0.generation == old(self).watch->0.generation
                &&& final(self).watch->0.replicated_op == old(self).watch->0.replicated_op
                &&& final(self).watch->0.buffer == old(self).watch->0.buffer
                &&& final(self).watch->0.stream() == after_capture(*old(self), e)
            },
    {
        let ghost before = *self;
        let doomed = self.tree.subtree_of(e);
        let ghost pred = |x: Entity| before.tree.scene(x);
        let ghost to_message = |x: Entity| GraphMessage::NodeRemoved { entity: x };
        let mut messages: Vec<GraphMessage> = Vec::new();
        let mut i: usize = 0;
        proof {
            reveal(Seq::filter);
            assert(doomed@.take(0) =~= seq![]);
            assert(messages@ =~= doomed@.take(0).filter(pred).map_values(to_message));
        }
        while i < doomed.len()
            invariant
                *self == before,
                i <= doomed@.len(),
                pred == (|x: Entity| before.tree.scene(x)),
                to_message == (|x: Entity| GraphMessage::NodeRemoved { entity: x }),
                messages@ == doomed@.take(i as int).filter(pred).map_values(to_message),
            decreases doomed@.len() - i,
        {
            proof {
                lemma_filter_step(doomed@, i as int, pred);
            }
            if self.tree.is_scene(doomed[i]) {
                messages.push(GraphMessage::NodeRemoved { entity: doomed[i] });
                assert(messages@ =~= doomed@.take(i + 1).filter(pred).map_values(to_message));
            }
            i = i + 1;
        }
        proof {
            assert(doomed@.take(i as int) =~= doomed@);
            assert(messages@ == removal_messages(before.tree, doomed@));
        }
        if self.watch.is_some() {
            self.capture_subtree(e, &doomed);
        }
        self.tree.despawn(e);
        let ghost middle = *self;
        let mut j: usize = 0;
        assert(messages@.take(0) =~= seq![]);
        assert(middle.pending@ + seq![] =~= middle.pending@);
        while j < messages.len()
            invariant
                self.wf(),
                self.same_scene(middle),
                self.watch == middle.watch,
                j <= messages@.len(),
                self.pending@ == middle.after_sending(messages@.take(j as int)),
            decreases messages@.len() - j,
        {
            self.send(messages[j]);
            j = j + 1;
            assert(messages@.take(j as int) =~= messages@.take(j - 1).push(messages@[j - 1]));
            assert(middle.pending@ + messages@.take(j as int) =~= (middle.pending@
                + messages@.take(j - 1)) + seq![messages@[j - 1]]);
        }
        assert(messages@.take(j as int) =~= messages@);
    }

    /// Applies the fields of a patch to a live entity, as far as they apply.
    fn patch_node(&mut self, e: Entity, patch: UpdatePatch)
        requires
            old(self).wf(),
            old(self).tree.alive(e),
        ensures
            final(self).wf(),
            final(self).tree.patched(old(self).tree, e, patch),
            final(self).sent(
                *old(self),
                if patch_applies(old(self).tree.rec(e), patch) {
                    seq![GraphMessage::NodeChanged { entity: e }]
                } else {
                    seq![]
                },
            ),
    {
        let ghost before = *self;
        let mut applied = false;
        let rec = self.tree.record_mut(e);
        if let Some(name) = patch.frame_name {
            if rec.frame.is_some() {
                rec.frame = Some(Frame { name });
                applied = true;
            }
        }
        if let Some(content) = patch.text_content {
            if rec.text.is_some() {
                rec.text = Some(Text { content });
                applied = true;
            }
        }
        if let Some(t) = patch.transform {
            if rec.transform.is_some() {
                rec.transform = Some(t);
                applied = true;
            }
        }
        proof {
            assert(self.tree.alive(e));
            assert forall|x: Entity| x != e implies (#[trigger] self.tree.alive(x)
                <==> before.tree.alive(x)) && (before.tree.alive(x) ==> self.tree.rec(x)
                == before.tree.rec(x)) by {}
            assert(self.tree.same_shape(before.tree));
            self.tree.lemma_same_shape(before.tree);
        }
        if applied {
            self.send(GraphMessage::NodeChanged { entity: e });
        } else {
            assert(self.pending@ =~= before.after_sending(seq![]));
        }
    }
}

/// Whether some field of a patch applies to a record.
pub open spec fn patch_applies(r: EntityRecord, patch: UpdatePatch) -> bool {
    ||| patch.frame_name is Some && r.frame is Some
    ||| patch.text_content is Some && r.text is Some
    ||| patch.transform is Some && r.transform is Some
}

impl SceneTree {
    /// Whether `self` is `before` with the fields of `patch` applied to `e`.
    pub open spec fn patched(self, before: SceneTree, e: Entity, patch: UpdatePatch) -> bool {
        &&& self.same_shape(before)
        &&& forall|x: Entity| #[trigger]
            before.alive(x) && x != e ==> self.rec(x) == before.rec(x)
        &&& self.rec(e) == (EntityRecord {
            frame: if patch.frame_name is Some && before.rec(e).frame is Some {
                Some(Frame { name: patch.frame_name->0 })
            } else {
                before.rec(e).frame
            },
            text: if patch.text_content is Some && before.rec(e).text is Some {
                Some(Text { content: patch.text_content->0 })
            } else {
                before.rec(e).text
            },
            transform: if patch.transform is Some && before.rec(e).transform is Some {
                patch.transform
            } else {
                before.rec(e).transform
            },
            ..before.rec(e)
        })
    }
}

// ---------------------------------------------------------------------------
// Verbs
// ---------------------------------------------------------------------------

/// The live entity that an optional target stands for.
pub open spec fn resolved_parent(
    w: SceneWorld,
    parent: Option<NodeTarget>,
    session: SessionId,
) -> Option<Entity> {
    match parent {
        Some(t) => resolved_target(w, target_view(t), session),
        None => None,
    }
}

/// A resolved target is alive.
pub proof fn lemma_target_alive(w: SceneWorld, t: NodeTarget, session: SessionId)
    requires
        w.wf(),
        resolved_target(w, target_view(t), session) is Some,
    ensures
        w.tree.alive(resolved_target(w, target_view(t), session)->0),
{
    match t {
        NodeTarget::Ref(r) => lemma_resolved_alive(w, r@, session),
        NodeTarget::Entity(e) => {},
    }
}

/// The order key of a new node: as given, else `a` under a parent.
pub open spec fn create_key(spec: CreateSpec) -> Option<Seq<char>> {
    match spec.position {
        Some(k) => Some(k@),
        None => if spec.parent is Some {
            Some(seq!['a'])
        } else {
            None
        },
    }
}

/// What every mutation reports: the node as it is now and the current cursor.
pub open spec fn reports(
    r: MutateResult,
    w: SceneWorld,
    e: Entity,
    session: SessionId,
) -> bool {
    &&& r.node@ == node_ref_or_root(w, e, session)
    &&& r.cursor == w.spec_cursor(session)
}

fn finalize(sw: &SceneWorld, session: SessionId, entity: Entity) -> (r: MutateResult)
    requires
        sw.wf(),
    ensures
        reports(r, *sw, entity, session),
{
    let cursor = sw.current_cursor(session);
    let node = node_ref_or_root_for(sw, entity, session);
    MutateResult { node, cursor }
}

/// Adds a node. Fails only where the given parent does not resolve.
pub fn create(sw: &mut SceneWorld, session: SessionId, spec: CreateSpec) -> (r: Result<
    MutateResult,
    MutateError,
>)
    requires
        old(sw).wf(),
        old(sw).tree.slots@.len() < u32::MAX,
    ensures
        final(sw).wf(),
        match r {
            Err(e) => e == MutateError::ParentNotFound && spec.parent is Some && resolved_parent(
                *old(sw),
                spec.parent,
                session,
            ) is None && *final(sw) == *old(sw),
            Ok(m) => {
                let e = old(sw).tree.slots@.len() as Entity;
                let parent = resolved_parent(*old(sw), spec.parent, session);
                &&& spec.parent is Some ==> parent is Some
                &&& final(sw).tree.grown(old(sw).tree, parent)
                &&& is_new_node(final(sw).tree.rec(e), spec.data, create_key(spec))
                &&& final(sw).landed(*old(sw), seq![GraphMessage::NodeAdded { entity: e }])
                &&& reports(m, *final(sw), e, session)
            },
        },
{
    let parent = match &spec.parent {
        Some(target) => match target.resolve(sw, session) {
            Some(p) => {
                proof {
                    lemma_target_alive(*sw, *target, session);
                }
                Some(p)
            },
            None => {
                return Err(MutateError::ParentNotFound);
            },
        },
        None => None,
    };
    let ghost given = spec.position;
    let position = match spec.position {
        Some(k) => Some(k),
        None => if parent.is_some() {
            let mut a = String::new();
            a.push('a');
            assert(a@ =~= seq!['a']);
            Some(OrderKey(a))
        } else {
            None
        },
    };
    let entity = sw.spawn_node(spec.data, parent, position);
    sw.update();
    Ok(finalize(sw, session, entity))
}

/// Applies a patch to a node. An empty patch is refused before anything else.
pub fn update(sw: &mut SceneWorld, session: SessionId, target: NodeTarget, patch: UpdatePatch) -> (r:
    Result<MutateResult, MutateError>)
    requires
        old(sw).wf(),
    ensures
        final(sw).wf(),
        match r {
            Err(e) => {
                &&& *final(sw) == *old(sw)
                &&& if patch.spec_is_empty() {
                    e == MutateError::EmptyPatch
                } else {
                    e == MutateError::TargetNotFound && resolved_target(
                        *old(sw),
                        target_view(target),
                        session,
                    ) is None
                }
            },
            Ok(m) => {
                let found = resolved_target(*old(sw), target_view(target), session);
                &&& !patch.spec_is_empty()
                &&& found is Some
                &&& final(sw).tree.patched(old(sw).tree, found->0, patch)
                &&& final(sw).landed(
                    *old(sw),
                    if patch_applies(old(sw).tree.rec(found->0), patch) {
                        seq![GraphMessage::NodeChanged { entity: found->0 }]
                    } else {
                        seq![]
                    },
                )
                &&& reports(m, *final(sw), found->0, session)
            },
        },
{
    if patch.is_empty() {
        return Err(MutateError::EmptyPatch);
    }
    let entity = match target.resolve(sw, session) {
        Some(e) => e,
        None => {
            return Err(MutateError::TargetNotFound);
        },
    };
    proof {
        lemma_target_alive(*sw, target, session);
    }
    sw.patch_node(entity, patch);
    sw.update();
    Ok(finalize(sw, session, entity))
}

/// Removes a node and everything below it. The result refers to the node as it
/// was before.
pub fn delete(sw: &mut SceneWorld, session: SessionId, target: NodeTarget) -> (r: Result<
    MutateResult,
    MutateError,
>)
    requires
        old(sw).wf(),
    ensures
        final(sw).wf(),
        match r {
            Err(e) => e == MutateError::TargetNotFound && resolved_target(
                *old(sw),
                target_view(target),
                session,
            ) is None && *final(sw) == *old(sw),
            Ok(m) => {
                let found = resolved_target(*old(sw), target_view(target), session);
                &&& found is Some
                &&& final(sw).tree.pruned(old(sw).tree, found->0)
                &&& final(sw).crdt == old(sw).crdt
                &&& final(sw).registry == old(sw).registry
                &&& final(sw).pending@.len() == 0
                &&& final(sw).watch is Some <==> old(sw).watch is Some
                &&& old(sw).watch is Some ==> final(sw).watch->0.stream() == stream_after(
                    after_capture(*old(sw), found->0),
                    old(sw).watch->0.buffer.capacity,
                    old(sw).pending@ + removal_messages(
                        old(sw).tree,
                        old(sw).tree.subtree(found->0),
                    ),
                )
                &&& old(sw).watch is Some ==> final(sw).watch->0.replicated_op
                    == old(sw).watch->0.replicated_op
                &&& old(sw).watch is Some ==> final(sw).watch->0.buffer.capacity
                    == old(sw).watch->0.buffer.capacity
                &&& old(sw).watch is Some ==> final(sw).watch->0.buffer.session
                    == old(sw).watch->0.buffer.session
                &&& m.node@ == node_ref_or_root(*old(sw), found->0, session)
                &&& m.cursor == final(sw).spec_cursor(session)
            },
        },
{
    let entity = match target.resolve(sw, session) {
        Some(e) => e,
        None => {
            return Err(MutateError::TargetNotFound);
        },
    };
    proof {
        lemma_target_alive(*sw, target, session);
    }
    let node = node_ref_or_root_for(sw, entity, session);
    sw.despawn(entity);
    sw.update();
    let cursor = sw.current_cursor(session);
    Ok(MutateResult { node, cursor })
}

impl SceneTree {
    /// Whether `self` is `before` with `e` moved under `parent`, last among its
    /// children, and with its order key set.
    pub open spec fn relocated(
        self,
        before: SceneTree,
        e: Entity,
        parent: Option<Entity>,
        key: Seq<char>,
    ) -> bool {
        &&& self.slots@.len() == before.slots@.len()
        &&& forall|x: Entity| #[trigger] self.alive(x) <==> before.alive(x)
        &&& forall|x: Entity| #[trigger]
            before.alive(x) && x != e ==> same_components(self.rec(x), before.rec(x))
                && self.parent(x) == before.parent(x)
        &&& same_components(
            EntityRecord { order_key: before.rec(e).order_key, ..self.rec(e) },
            before.rec(e),
        )
        &&& self.key(e) == Some(key)
        &&& self.parent(e) == parent
        &&& forall|x: Entity| #[trigger]
            before.alive(x) ==> self.kids(x) == (if Some(x) == parent {
                without(before.kids(x), e).push(e)
            } else {
                without(before.kids(x), e)
            })
    }
}

/// The parent that a node ends up under: a node moved under itself becomes a
/// root.
pub open spec fn effective_parent(e: Entity, parent: Option<Entity>) -> Option<Entity> {
    if parent == Some(e) {
        None
    } else {
        parent
    }
}

/// Moves a node under a new parent, or to the roots, and sets its order key.
/// A node cannot be moved below one that stands below it.
pub fn move_node(sw: &mut SceneWorld, session: SessionId, spec: MoveSpec) -> (r: Result<
    MutateResult,
    MutateError,
>)
    requires
        old(sw).wf(),
        resolved_target(*old(sw), target_view(spec.target), session) is Some && resolved_parent(
            *old(sw),
            spec.new_parent,
            session,
        ) is Some ==> ({
            let e = resolved_target(*old(sw), target_view(spec.target), session)->0;
            let p = resolved_parent(*old(sw), spec.new_parent, session)->0;
            p == e || !old(sw).tree.under(p, e)
        }),
    ensures
        final(sw).wf(),
        match r {
            Err(e) => {
                &&& *final(sw) == *old(sw)
                &&& if resolved_target(*old(sw), target_view(spec.target), session) is None {
                    e == MutateError::TargetNotFound
                } else {
                    e == MutateError::ParentNotFound && spec.new_parent is Some && resolved_parent(
                        *old(sw),
                        spec.new_parent,
                        session,
                    ) is None
                }
            },
            Ok(m) => {
                let found = resolved_target(*old(sw), target_view(spec.target), session);
                let parent = resolved_parent(*old(sw), spec.new_parent, session);
                &&& found is Some
                &&& spec.new_parent is Some ==> parent is Some
                &&& final(sw).tree.relocated(
                    old(sw).tree,
                    found->0,
                    effective_parent(found->0, parent),
                    spec.position@,
                )
                &&& final(sw).landed(
                    *old(sw),
                    seq![GraphMessage::TreePositionChanged { entity: found->0 }],
                )
                &&& reports(m, *final(sw), found->0, session)
            },
        },
{
    let entity = match spec.target.resolve(sw, session) {
        Some(e) => e,
        None => {
            return Err(MutateError::TargetNotFound);
        },
    };
    let parent = match &spec.new_parent {
        Some(t) => match t.resolve(sw, session) {
            Some(p) => {
                proof {
                    lemma_target_alive(*sw, *t, session);
                }
                Some(p)
            },
            None => {
                return Err(MutateError::ParentNotFound);
            },
        },
        None => None,
    };
    let ghost before = sw.tree;
    proof {
        lemma_target_alive(*sw, spec.target, session);
    }
    sw.tree.set_parent(entity, parent);
    let ghost middle = sw.tree;
    proof {
        assert(middle.alive(entity));
    }
    let rec = sw.tree.record_mut(entity);
    rec.order_key = Some(spec.position);
    proof {
        assert(sw.tree.alive(entity));
        assert forall|x: Entity| x != entity implies (#[trigger] sw.tree.alive(x)
            <==> middle.alive(x)) && (middle.alive(x) ==> sw.tree.rec(x) == middle.rec(x)) by {}
        assert(sw.tree.same_shape(middle));
        sw.tree.lemma_same_shape(middle);
        assert forall|x: Entity| #[trigger] before.alive(x) implies middle.alive(x) && sw.tree.alive(
            x,
        ) by {}
    }
    sw.send(GraphMessage::TreePositionChanged { entity });
    sw.update();
    Ok(finalize(sw, session, entity))
}

// ---------------------------------------------------------------------------
// Laws
// ---------------------------------------------------------------------------

/// Deleting cascades: of the entities, exactly those that stood under the
/// deleted node are gone, itself among them.
pub proof fn delete_cascades(before: SceneTree, after: SceneTree, e: Entity, x: Entity)
    requires
        before.wf(),
        before.alive(e),
        after.pruned(before, e),
    ensures
        !after.alive(e),
        before.alive(x) && before.under(x, e) ==> !after.alive(x),
        before.alive(x) && !before.under(x, e) ==> after.alive(x) && same_components(
            after.rec(x),
            before.rec(x),
        ) && after.parent(x) == before.parent(x),
{
    before.lemma_chain_last(e);
    assert(before.chain(e)[before.chain(e).len() - 1] == e);
    assert(before.under(e, e));
    assert(after.alive(x) <==> before.alive(x) && !before.under(x, e));
    assert(after.alive(e) <==> before.alive(e) && !before.under(e, e));
}

/// A moved node takes what stands below it along: everything that stood under
/// it still does, and nothing else.
pub proof fn move_carries_subtree(
    before: SceneTree,
    after: SceneTree,
    e: Entity,
    parent: Option<Entity>,
    key: Seq<char>,
    x: Entity,
)
    requires
        before.wf(),
        after.wf(),
        before.alive(e),
        before.alive(x),
        after.relocated(before, e, parent, key),
        parent is Some ==> before.alive(parent->0) && !before.under(parent->0, e),
    ensures
        after.under(x, e) <==> before.under(x, e),
    decreases before.rank(x),
{
    before.lemma_chain_last(x);
    after.lemma_chain_last(x);
    assert(after.alive(x));
    if x == e {
        assert(before.chain(e)[before.chain(e).len() - 1] == e);
        assert(after.chain(e)[after.chain(e).len() - 1] == e);
    } else {
        assert(after.parent(x) == before.parent(x));
        match before.parent(x) {
            Some(p) => {
                before.lemma_rank(x);
                move_carries_subtree(before, after, e, parent, key, p);
                crate::seqs::lemma_push_contains(before.chain(p), x, e);
                crate::seqs::lemma_push_contains(after.chain(p), x, e);
            },
            None => {
                assert(before.chain(x) =~= seq![x]);
                assert(after.chain(x) =~= seq![x]);
            },
        }
    }
}

/// A new node stands where it was put, and nothing else moved.
pub proof fn create_adds_one(
    before: SceneTree,
    after: SceneTree,
    parent: Option<Entity>,
    x: Entity,
)
    requires
        after.grown(before, parent),
        before.slots@.len() < u32::MAX,
    ensures
        !before.alive(before.slots@.len() as Entity),
        after.parent(before.slots@.len() as Entity) == parent,
        before.alive(x) ==> after.alive(x) && after.parent(x) == before.parent(x),
{
}

/// A new edge leads from the one entity to the other and carries nothing else; it
/// is no scene node.
pub proof fn new_edge_carries_its_ends_alone(r: EntityRecord, from: Entity, to: Entity)
    requires
        is_new_edge(r, from, to),
    ensures
        r.scene_edge && !r.scene_node,
        r.edge_from == Some(from) && r.edge_to == Some(to),
        r.kind is None && r.frame is None && r.rectangle is None && r.text is None,
        r.transform is None && r.order_key is None && r.others@.len() == 0,
{
}

/// Messages wait for the change stream in the order in which they were sent; while
/// there is no change stream, none waits.
pub proof fn sent_messages_wait_in_order(
    after: SceneWorld,
    before: SceneWorld,
    sent: Seq<GraphMessage>,
)
    requires
        after.sent(before, sent),
    ensures
        before.watch is Some ==> after.pending@ == before.pending@ + sent,
        before.watch is None ==> after.pending@ == before.pending@,
        after.watch == before.watch,
        after.crdt == before.crdt,
        after.registry == before.registry,
{
}

} // verus!
