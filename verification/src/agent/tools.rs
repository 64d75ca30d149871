//! The two traits that make up the agent's interface: reading and changing the
//! scene.
use vstd::prelude::*;

use crate::agent::handle::{
    node_ref_or_root, path_ref, ref_views, resolved_target, target_view, Cursor, NodeRef,
    NodeRefView, NodeTarget, SessionId,
};
use crate::agent::edit::{other_than, same_components};
use crate::agent::mutate::{
    after_capture, captured, create_key, delete_cascades, effective_parent, is_new_node,
    lemma_target_alive, patch_applies, removal_messages, reports, resolved_parent,
};
use crate::agent::mutate::{
    CreateSpec, MoveSpec, MutateError, MutateResult, NewNode, UpdatePatch,
};
use crate::agent::navigate::{nav_result, NavOpts};
use crate::agent::pattern::{
    match_refs_views, spec_match_refs, spec_matches, MatchRefs, MatchView, PatternSpec,
};
use crate::agent::query::{query_matches, unknown_names, QueryResult, QuerySpec};
use crate::agent::scan::{outline_starts, outlines_starts, ScanOpts, SceneIndex};
use crate::agent::scene::{Entity, Node, NodeKind};
use crate::agent::walk::{
    walk_matches, walk_row, walk_row_views, walk_work, walk_work_is_what_was_looked_at, Visit, Walk, WalkOpts,
};
use crate::agent::watch::{
    change_views, distinct_rows, first_change_is_recorded, lemma_recorded_distinct,
    lemma_row_index, message_names, next_generation, no_row_for, page_changes, page_tells_rows, removal_ref,
    row_index, rows_left, stream_after, stream_step, view_lost, ChangeKind, GraphMessage,
    StreamView, WatchOpts, WatchPage,
};
use crate::agent::world::{entry_views, lookup, SceneWorld};
use crate::seqs::{
    lemma_filter_contains, lemma_filter_len, lemma_filter_no_duplicates, lemma_push_contains,
    limited,
};
use crate::text::text_views;

verus! {

/// What is known of one entity.
#[derive(Debug)]
pub struct EntityReport {
    pub node: NodeRef,
    /// The live entity, where the target resolves.
    pub entity_bits: Option<u64>,
    pub variant: Option<Node>,
    pub component_names: Vec<String>,
}

impl EntityReport {
    /// The live entity, where the target resolved.
    pub fn entity(&self) -> (r: Option<Entity>)
        ensures
            r == self.entity_bits,
    {
        self.entity_bits
    }
}

/// Whether `r` reports on what a target resolves to.
pub open spec fn reports_entity(
    r: EntityReport,
    w: SceneWorld,
    session: SessionId,
    found: Option<Entity>,
) -> bool {
    match found {
        Some(e) => {
            &&& r.node@ == node_ref_or_root(w, e, session)
            &&& r.entity_bits == Some(e)
            &&& r.variant == w.tree.node(e)
            &&& text_views(r.component_names@) == w.spec_component_names(e)
        },
        None => {
            &&& r.node@ == path_ref(seq![])
            &&& r.entity_bits is None
            &&& r.variant is None
            &&& r.component_names@.len() == 0
        },
    }
}

/// Whether `r` is the walk from what a target resolves to.
pub open spec fn walks_from(
    r: Walk,
    w: SceneWorld,
    session: SessionId,
    found: Option<Entity>,
    opts: WalkOpts,
) -> bool {
    match found {
        Some(e) => {
            &&& r.root@ == node_ref_or_root(w, e, session)
            &&& walk_row_views(r.rows@) == limited(walk_matches(w, e, opts), opts.max_items)
                .map_values(|v: Visit| walk_row(w, session, opts, v))
            &&& r.truncated == (opts.max_items != 0 && walk_matches(w, e, opts).len()
                > opts.max_items)
            &&& r.cost.estimated_items == r.rows@.len()
            &&& r.cost.estimated_work == walk_work(w, e, opts)
        },
        None => {
            &&& r.root@ == path_ref(seq![])
            &&& r.rows@.len() == 0
            &&& !r.truncated
            &&& r.cost.estimated_items == 0
            &&& r.cost.estimated_work == 0
        },
    }
}

/// Whether `after` is `before` with its change stream, where there is one,
/// emptied.
pub open spec fn stream_emptied(after: SceneWorld, before: SceneWorld) -> bool {
    &&& after.same_scene(before)
    &&& after.pending == before.pending
    &&& after.watch is Some <==> before.watch is Some
    &&& before.watch is Some ==> {
        &&& after.watch->0.generation == before.watch->0.generation
        &&& after.watch->0.replicated_op == before.watch->0.replicated_op
        &&& after.watch->0.removed_paths == before.watch->0.removed_paths
        &&& after.watch->0.buffer.capacity == before.watch->0.buffer.capacity
        &&& after.watch->0.buffer.session == before.watch->0.buffer.session
        &&& after.watch->0.buffer.spec_rows().len() == 0
        &&& !after.watch->0.buffer.overflowed
    }
}

/// Reading the scene.
pub trait SceneRead {
    /// The world that is read.
    spec fn world(&self) -> SceneWorld;

    /// The session that references are made for.
    spec fn session_id(&self) -> SessionId;

    /// The catalog and a depth-bounded outline. The reader starts afresh, so
    /// the change stream forgets what it holds.
    fn scan(&mut self, opts: ScanOpts) -> (r: SceneIndex)
        requires
            old(self).world().wf(),
        ensures
            final(self).world().wf(),
            final(self).session_id() == old(self).session_id(),
            stream_emptied(final(self).world(), old(self).world()),
            r.session == old(self).session_id(),
            r.generation == old(self).world().spec_generation(),
            r.catalog.describes(old(self).world().tree),
            outlines_starts(
                old(self).world(),
                old(self).session_id(),
                opts,
                r.roots@,
                outline_starts(old(self).world(), old(self).session_id(), opts),
            ),
    ;

    /// The node, its data and the names of its components.
    fn inspect(&mut self, target: NodeTarget) -> (r: EntityReport)
        requires
            old(self).world().wf(),
        ensures
            final(self).world() == old(self).world(),
            final(self).session_id() == old(self).session_id(),
            reports_entity(
                r,
                old(self).world(),
                old(self).session_id(),
                resolved_target(old(self).world(), target_view(target), old(self).session_id()),
            ),
    ;

    /// The subtree of `root`.
    fn walk(&mut self, root: NodeTarget, opts: WalkOpts) -> (r: Walk)
        requires
            old(self).world().wf(),
        ensures
            final(self).world() == old(self).world(),
            final(self).session_id() == old(self).session_id(),
            walks_from(
                r,
                old(self).world(),
                old(self).session_id(),
                resolved_target(old(self).world(), target_view(root), old(self).session_id()),
                opts,
            ),
    ;

    /// The nodes one or more hops away from `from`.
    fn navigate(&mut self, from: NodeTarget, opts: NavOpts) -> (r: Vec<NodeRef>)
        requires
            old(self).world().wf(),
        ensures
            final(self).world() == old(self).world(),
            final(self).session_id() == old(self).session_id(),
            ref_views(r@) == (match resolved_target(
                old(self).world(),
                target_view(from),
                old(self).session_id(),
            ) {
                Some(e) => nav_result(old(self).world(), e, opts).map_values(
                    |x: Entity| node_ref_or_root(old(self).world(), x, old(self).session_id()),
                ),
                None => seq![],
            }),
    ;

    /// Every place where a pattern occurs.
    fn match_spec(&mut self, spec: &PatternSpec) -> (r: Vec<MatchRefs>)
        requires
            old(self).world().wf(),
            spec.fits_slots(old(self).world(), old(self).session_id()),
        ensures
            final(self).world() == old(self).world(),
            final(self).session_id() == old(self).session_id(),
            match_refs_views(r@) == spec_matches(
                old(self).world(),
                old(self).session_id(),
                *spec,
            ).map_values(
                |m: MatchView| spec_match_refs(old(self).world(), old(self).session_id(), m),
            ),
    ;

    /// The changes after `since`.
    fn watch(&mut self, since: Option<Cursor>, opts: WatchOpts) -> (r: WatchPage)
        requires
            old(self).world().wf(),
            old(self).world().watch is Some,
        ensures
            final(self).world().wf(),
            final(self).session_id() == old(self).session_id(),
            final(self).world().same_scene(old(self).world()),
            final(self).world().pending == old(self).world().pending,
            final(self).world().watch is Some,
            final(self).world().watch->0.generation == old(self).world().watch->0.generation,
            final(self).world().watch->0.replicated_op
                == old(self).world().watch->0.replicated_op,
            final(self).world().watch->0.removed_paths
                == old(self).world().watch->0.removed_paths,
            final(self).world().watch->0.buffer.capacity
                == old(self).world().watch->0.buffer.capacity,
            final(self).world().watch->0.buffer.session
                == old(self).world().watch->0.buffer.session,
            final(self).world().watch->0.buffer.overflowed
                == old(self).world().watch->0.buffer.overflowed,
            final(self).world().watch->0.buffer.spec_rows() == rows_left(
                old(self).world(),
                old(self).session_id(),
                since,
                opts,
            ),
            r.buffer_overflow == view_lost(old(self).world(), old(self).session_id(), since),
            change_views(r.changes@) == page_changes(
                old(self).world(),
                old(self).session_id(),
                since,
                opts,
            ),
            r.next_cursor == old(self).world().spec_cursor(old(self).session_id()),
            !r.has_more,
    ;

    /// The entities that carry the given components.
    fn query(&mut self, spec: QuerySpec) -> (r: QueryResult)
        requires
            old(self).world().wf(),
        ensures
            final(self).world() == old(self).world(),
            final(self).session_id() == old(self).session_id(),
            ref_views(r.rows@) == limited(
                query_matches(old(self).world(), old(self).session_id(), spec),
                spec.max_items,
            ).map_values(
                |e: Entity| node_ref_or_root(old(self).world(), e, old(self).session_id()),
            ),
            r.truncated == (spec.max_items != 0 && query_matches(
                old(self).world(),
                old(self).session_id(),
                spec,
            ).len() > spec.max_items),
            text_views(r.unknown_components@) == unknown_names(
                entry_views(old(self).world().registry@),
                text_views(spec.without@),
            ) + unknown_names(entry_views(old(self).world().registry@), text_views(spec.with@)),
    ;
}

/// Whether `r` and `after` are the outcome of creating a node.
pub open spec fn created(
    r: Result<MutateResult, MutateError>,
    before: SceneWorld,
    after: SceneWorld,
    session: SessionId,
    spec: CreateSpec,
) -> bool {
    let e = before.tree.slots@.len() as Entity;
    let parent = resolved_parent(before, spec.parent, session);
    match r {
        Err(err) => err == MutateError::ParentNotFound && spec.parent is Some && parent is None
            && after == before,
        Ok(m) => {
            &&& spec.parent is Some ==> parent is Some
            &&& after.tree.grown(before.tree, parent)
            &&& is_new_node(after.tree.rec(e), spec.data, create_key(spec))
            &&& after.landed(before, seq![GraphMessage::NodeAdded { entity: e }])
            &&& reports(m, after, e, session)
        },
    }
}

/// Whether `r` and `after` are the outcome of updating a node.
pub open spec fn updated(
    r: Result<MutateResult, MutateError>,
    before: SceneWorld,
    after: SceneWorld,
    session: SessionId,
    found: Option<Entity>,
    patch: UpdatePatch,
) -> bool {
    match r {
        Err(err) => {
            &&& after == before
            &&& if patch.spec_is_empty() {
                err == MutateError::EmptyPatch
            } else {
                err == MutateError::TargetNotFound && found is None
            }
        },
        Ok(m) => {
            &&& !patch.spec_is_empty()
            &&& found is Some
            &&& after.tree.patched(before.tree, found->0, patch)
            &&& after.landed(
                before,
                if patch_applies(before.tree.rec(found->0), patch) {
                    seq![GraphMessage::NodeChanged { entity: found->0 }]
                } else {
                    seq![]
                },
            )
            &&& reports(m, after, found->0, session)
        },
    }
}

/// Whether `r` and `after` are the outcome of deleting a node.
pub open spec fn deleted(
    r: Result<MutateResult, MutateError>,
    before: SceneWorld,
    after: SceneWorld,
    session: SessionId,
    found: Option<Entity>,
) -> bool {
    match r {
        Err(err) => err == MutateError::TargetNotFound && found is None && after == before,
        Ok(m) => {
            &&& found is Some
            &&& after.tree.pruned(before.tree, found->0)
            &&& after.crdt == before.crdt
            &&& after.registry == before.registry
            &&& after.pending@.len() == 0
            &&& after.watch is Some <==> before.watch is Some
            &&& before.watch is Some ==> after.watch->0.stream() == stream_after(
                after_capture(before, found->0),
                before.watch->0.buffer.capacity,
                before.pending@ + removal_messages(before.tree, before.tree.subtree(found->0)),
            )
            &&& before.watch is Some ==> after.watch->0.replicated_op
                == before.watch->0.replicated_op
            &&& before.watch is Some ==> after.watch->0.buffer.capacity
                == before.watch->0.buffer.capacity
            &&& before.watch is Some ==> after.watch->0.buffer.session
                == before.watch->0.buffer.session
            &&& m.node@ == node_ref_or_root(before, found->0, session)
            &&& m.cursor == after.spec_cursor(session)
        },
    }
}

/// Whether a move is one that can be made: a node cannot go below one that
/// stands below it.
pub open spec fn can_move(w: SceneWorld, session: SessionId, spec: MoveSpec) -> bool {
    let found = resolved_target(w, target_view(spec.target), session);
    let parent = resolved_parent(w, spec.new_parent, session);
    found is Some && parent is Some ==> parent == found || !w.tree.under(parent->0, found->0)
}

/// Whether `r` and `after` are the outcome of moving a node.
pub open spec fn moved(
    r: Result<MutateResult, MutateError>,
    before: SceneWorld,
    after: SceneWorld,
    session: SessionId,
    spec: MoveSpec,
) -> bool {
    let found = resolved_target(before, target_view(spec.target), session);
    let parent = resolved_parent(before, spec.new_parent, session);
    match r {
        Err(err) => {
            &&& after == before
            &&& if found is None {
                err == MutateError::TargetNotFound
            } else {
                err == MutateError::ParentNotFound && spec.new_parent is Some && parent is None
            }
        },
        Ok(m) => {
            &&& found is Some
            &&& spec.new_parent is Some ==> parent is Some
            &&& after.tree.relocated(
                before.tree,
                found->0,
                effective_parent(found->0, parent),
                spec.position@,
            )
            &&& after.landed(before, seq![GraphMessage::TreePositionChanged { entity: found->0 }])
            &&& reports(m, after, found->0, session)
        },
    }
}

/// Changing the scene.
pub trait SceneMutate {
    /// The world that is changed.
    spec fn edited(&self) -> SceneWorld;

    /// The session that references are made for.
    spec fn edit_session(&self) -> SessionId;

    /// Adds a node.
    fn create(&mut self, spec: CreateSpec) -> (r: Result<MutateResult, MutateError>)
        requires
            old(self).edited().wf(),
            old(self).edited().tree.slots@.len() < u32::MAX,
        ensures
            final(self).edited().wf(),
            final(self).edit_session() == old(self).edit_session(),
            created(r, old(self).edited(), final(self).edited(), old(self).edit_session(), spec),
    ;

    /// Applies a patch to a node.
    fn update(&mut self, target: NodeTarget, patch: UpdatePatch) -> (r: Result<
        MutateResult,
        MutateError,
    >)
        requires
            old(self).edited().wf(),
        ensures
            final(self).edited().wf(),
            final(self).edit_session() == old(self).edit_session(),
            updated(
                r,
                old(self).edited(),
                final(self).edited(),
                old(self).edit_session(),
                resolved_target(
                    old(self).edited(),
                    target_view(target),
                    old(self).edit_session(),
                ),
                patch,
            ),
    ;

    /// Removes a node and everything below it.
    fn delete(&mut self, target: NodeTarget) -> (r: Result<MutateResult, MutateError>)
        requires
            old(self).edited().wf(),
        ensures
            final(self).edited().wf(),
            final(self).edit_session() == old(self).edit_session(),
            deleted(
                r,
                old(self).edited(),
                final(self).edited(),
                old(self).edit_session(),
                resolved_target(
                    old(self).edited(),
                    target_view(target),
                    old(self).edit_session(),
                ),
            ),
    ;

    /// Moves a node under a new parent or to the roots.
    fn move_node(&mut self, spec: MoveSpec) -> (r: Result<MutateResult, MutateError>)
        requires
            old(self).edited().wf(),
            can_move(old(self).edited(), old(self).edit_session(), spec),
        ensures
            final(self).edited().wf(),
            final(self).edit_session() == old(self).edit_session(),
            moved(r, old(self).edited(), final(self).edited(), old(self).edit_session(), spec),
    ;
}

// ---------------------------------------------------------------------------
// Laws
// ---------------------------------------------------------------------------

/// An update that succeeds sets what the patch names and nothing else: the name
/// of a frame, the content of a text, the transform of what has one. Every other
/// component of the node stays, and so does where it stands and every other
/// entity.
pub proof fn update_sets_what_it_names(
    r: Result<MutateResult, MutateError>,
    before: SceneWorld,
    after: SceneWorld,
    session: SessionId,
    e: Entity,
    patch: UpdatePatch,
    x: Entity,
)
    requires
        updated(r, before, after, session, Some(e), patch),
        before.tree.alive(e),
        r is Ok,
    ensures
        after.tree.alive(e),
        ({
            let old_rec = before.tree.rec(e);
            let new_rec = after.tree.rec(e);
            &&& patch.transform is Some && old_rec.transform is Some ==> new_rec.transform
                == patch.transform
            &&& patch.transform is None || old_rec.transform is None ==> new_rec.transform
                == old_rec.transform
            &&& patch.frame_name is Some && old_rec.frame is Some ==> new_rec.frame is Some
                && new_rec.frame->0.name@ == patch.frame_name->0@
            &&& patch.frame_name is None || old_rec.frame is None ==> new_rec.frame
                == old_rec.frame
            &&& patch.text_content is Some && old_rec.text is Some ==> new_rec.text is Some
                && new_rec.text->0.content@ == patch.text_content->0@
            &&& patch.text_content is None || old_rec.text is None ==> new_rec.text
                == old_rec.text
            &&& new_rec.scene_node == old_rec.scene_node
            &&& new_rec.scene_edge == old_rec.scene_edge
            &&& new_rec.kind == old_rec.kind
            &&& new_rec.rectangle == old_rec.rectangle
            &&& new_rec.order_key == old_rec.order_key
            &&& new_rec.parent == old_rec.parent
            &&& new_rec.children@ == old_rec.children@
            &&& new_rec.edge_from == old_rec.edge_from
            &&& new_rec.edge_to == old_rec.edge_to
            &&& new_rec.others == old_rec.others
        }),
        after.tree.slots@.len() == before.tree.slots@.len(),
        after.tree.alive(x) <==> before.tree.alive(x),
        x != e && before.tree.alive(x) ==> after.tree.rec(x) == before.tree.rec(x),
        after.crdt == before.crdt,
        after.registry == before.registry,
{
    assert(after.tree.alive(e) <==> before.tree.alive(e));
}

/// An update is refused exactly where the patch is empty, which comes first, or
/// the target does not resolve; then nothing changes.
pub proof fn update_refusals(
    r: Result<MutateResult, MutateError>,
    before: SceneWorld,
    after: SceneWorld,
    session: SessionId,
    found: Option<Entity>,
    patch: UpdatePatch,
)
    requires
        updated(r, before, after, session, found, patch),
    ensures
        ({
            let empty = patch.frame_name is None && patch.text_content is None && patch.transform
                is None;
            &&& empty ==> r == Err::<MutateResult, MutateError>(MutateError::EmptyPatch)
            &&& !empty && found is None ==> r == Err::<MutateResult, MutateError>(
                MutateError::TargetNotFound,
            )
            &&& !empty && found is Some ==> r is Ok
            &&& r is Err ==> after == before
        }),
{
}

/// A node created has the data that was given and no other, stands where it was
/// asked to stand, as the last child there, at the identity transform, and has
/// the order key that was given; without one it has the key `a` under a parent
/// and none as a root. Everything that was there stays as it was.
pub proof fn create_adds_what_was_given(
    r: Result<MutateResult, MutateError>,
    before: SceneWorld,
    after: SceneWorld,
    session: SessionId,
    spec: CreateSpec,
    x: Entity,
)
    requires
        created(r, before, after, session, spec),
        before.tree.slots@.len() < u32::MAX,
        r is Ok,
    ensures
        ({
            let e = before.tree.slots@.len() as Entity;
            let rec = after.tree.rec(e);
            let parent = match spec.parent {
                Some(t) => resolved_target(before, target_view(t), session),
                None => None,
            };
            &&& !before.tree.alive(e)
            &&& after.tree.alive(e)
            &&& rec.scene_node && !rec.scene_edge
            &&& spec.data matches NewNode::Frame(d) ==> rec.kind == Some(NodeKind::Frame)
                && rec.frame == Some(d.frame) && rec.rectangle is None && rec.text is None
            &&& spec.data matches NewNode::Rectangle(d) ==> rec.kind == Some(NodeKind::Rectangle)
                && rec.rectangle == Some(d.rectangle) && rec.frame is None && rec.text is None
            &&& spec.data matches NewNode::Text(d) ==> rec.kind == Some(NodeKind::Text) && rec.text
                == Some(d.text) && rec.frame is None && rec.rectangle is None
            &&& rec.transform is Some
            &&& forall|i: int| 0 <= i < 3 ==> #[trigger] rec.transform->0.translation@[i] == 0
            &&& forall|i: int| 0 <= i < 3 ==> #[trigger] rec.transform->0.scale@[i] == 0x3f80_0000
            &&& forall|i: int| 0 <= i < 3 ==> #[trigger] rec.transform->0.rotation@[i] == 0
            &&& rec.transform->0.rotation@[3] == 0x3f80_0000
            &&& rec.parent == parent
            &&& rec.children@.len() == 0
            &&& rec.edge_from is None && rec.edge_to is None
            &&& rec.others@.len() == 0
            &&& after.tree.slots@.len() == before.tree.slots@.len() + 1
            &&& x != e ==> (after.tree.alive(x) <==> before.tree.alive(x))
            &&& spec.position is Some ==> rec.order_key is Some && rec.order_key->0@
                == spec.position->0@
            &&& spec.position is None && spec.parent is Some ==> rec.order_key is Some
                && rec.order_key->0@ == seq!['a']
            &&& spec.position is None && spec.parent is None ==> rec.order_key is None
            &&& spec.parent is Some ==> parent is Some
            &&& before.tree.alive(x) ==> {
                let old_rec = before.tree.rec(x);
                let new_rec = after.tree.rec(x);
                &&& after.tree.alive(x)
                &&& new_rec.parent == old_rec.parent
                &&& new_rec.children@ == (if parent == Some(x) {
                    old_rec.children@.push(e)
                } else {
                    old_rec.children@
                })
                &&& new_rec.frame == old_rec.frame && new_rec.text == old_rec.text
                    && new_rec.rectangle == old_rec.rectangle && new_rec.kind == old_rec.kind
                    && new_rec.transform == old_rec.transform && new_rec.order_key
                    == old_rec.order_key
                &&& new_rec.scene_node == old_rec.scene_node && new_rec.scene_edge
                    == old_rec.scene_edge && new_rec.edge_from == old_rec.edge_from
                    && new_rec.edge_to == old_rec.edge_to
            }
            &&& after.crdt == before.crdt
            &&& after.registry == before.registry
        }),
{
    let e = before.tree.slots@.len() as Entity;
    assert(after.tree.parent(e) == after.tree.rec(e).parent);
    assert(after.tree.kids(e) == after.tree.rec(e).children@);
    if before.tree.alive(x) {
        assert(x != e);
        assert(after.tree.alive(x));
        assert(same_components(after.tree.rec(x), before.tree.rec(x)));
    }
}

/// A node is refused exactly where the given parent does not resolve; then
/// nothing changes.
pub proof fn create_refusals(
    r: Result<MutateResult, MutateError>,
    before: SceneWorld,
    after: SceneWorld,
    session: SessionId,
    spec: CreateSpec,
)
    requires
        created(r, before, after, session, spec),
    ensures
        r is Err <==> spec.parent is Some && resolved_target(
            before,
            target_view(spec.parent->0),
            session,
        ) is None,
        r is Err ==> r == Err::<MutateResult, MutateError>(MutateError::ParentNotFound) && after
            == before,
{
}

/// A node moved stands under the new parent, or is a root where none was given
/// or it was to stand under itself, is the last child there and no longer among
/// its old parent's children, and has the order key given. Its other components
/// stay, and so does everything else of every other entity.
pub proof fn move_puts_the_node(
    r: Result<MutateResult, MutateError>,
    before: SceneWorld,
    after: SceneWorld,
    session: SessionId,
    spec: MoveSpec,
    x: Entity,
)
    requires
        before.wf(),
        moved(r, before, after, session, spec),
        r is Ok,
    ensures
        ({
            let e = resolved_target(before, target_view(spec.target), session)->0;
            let named = match spec.new_parent {
                Some(t) => resolved_target(before, target_view(t), session),
                None => None,
            };
            let parent = if named == Some(e) {
                None
            } else {
                named
            };
            let old_rec = before.tree.rec(e);
            let new_rec = after.tree.rec(e);
            &&& resolved_target(before, target_view(spec.target), session) is Some
            &&& after.tree.alive(e)
            &&& new_rec.parent == parent
            &&& new_rec.order_key is Some
            &&& new_rec.order_key->0@ == spec.position@
            &&& new_rec.scene_node == old_rec.scene_node && new_rec.scene_edge
                == old_rec.scene_edge && new_rec.kind == old_rec.kind && new_rec.frame
                == old_rec.frame && new_rec.rectangle == old_rec.rectangle && new_rec.text
                == old_rec.text && new_rec.transform == old_rec.transform
            &&& after.tree.slots@.len() == before.tree.slots@.len()
            &&& after.tree.alive(x) <==> before.tree.alive(x)
            &&& before.tree.alive(x) && x != e ==> after.tree.rec(x).parent == before.tree.rec(
                x,
            ).parent && after.tree.rec(x).order_key == before.tree.rec(x).order_key
                && after.tree.rec(x).frame == before.tree.rec(x).frame && after.tree.rec(x).text
                == before.tree.rec(x).text && after.tree.rec(x).transform == before.tree.rec(
                x,
            ).transform
            &&& before.tree.alive(x) && parent == Some(x) ==> after.tree.rec(x).children@.len() > 0
                && after.tree.rec(x).children@.last() == e
            &&& before.tree.alive(x) && parent != Some(x) ==> !after.tree.rec(
                x,
            ).children@.contains(e)
            &&& after.crdt == before.crdt
            &&& after.registry == before.registry
        }),
{
    lemma_target_alive(before, spec.target, session);
    let e = resolved_target(before, target_view(spec.target), session)->0;
    assert(before.tree.alive(e));
    assert(after.tree.alive(e));
    assert(after.tree.key(e) == Some(spec.position@));
    assert(after.tree.alive(x) <==> before.tree.alive(x));
    if before.tree.alive(x) {
        assert(after.tree.kids(x) == after.tree.rec(x).children@);
        assert(after.tree.parent(x) == after.tree.rec(x).parent);
        lemma_filter_contains(before.tree.kids(x), other_than(e), e);
    }
}

/// A move is refused exactly where the node, which comes first, or the new
/// parent does not resolve; then nothing changes.
pub proof fn move_refusals(
    r: Result<MutateResult, MutateError>,
    before: SceneWorld,
    after: SceneWorld,
    session: SessionId,
    spec: MoveSpec,
)
    requires
        moved(r, before, after, session, spec),
    ensures
        ({
            let found = resolved_target(before, target_view(spec.target), session);
            let lost = spec.new_parent is Some && resolved_target(
                before,
                target_view(spec.new_parent->0),
                session,
            ) is None;
            &&& found is None ==> r == Err::<MutateResult, MutateError>(
                MutateError::TargetNotFound,
            )
            &&& found is Some && lost ==> r == Err::<MutateResult, MutateError>(
                MutateError::ParentNotFound,
            )
            &&& found is Some && !lost ==> r is Ok
            &&& r is Err ==> after == before
        }),
{
}

/// A deletion takes away the node and everything that stands below it, and
/// nothing else. What is left keeps its parent and its components, and loses
/// from its children only the deleted node. It is refused exactly where the
/// target does not resolve; then nothing changes.
pub proof fn delete_takes_the_subtree(
    r: Result<MutateResult, MutateError>,
    before: SceneWorld,
    after: SceneWorld,
    session: SessionId,
    found: Option<Entity>,
    x: Entity,
    c: Entity,
)
    requires
        before.wf(),
        found is Some ==> before.tree.alive(found->0),
        deleted(r, before, after, session, found),
    ensures
        r is Err <==> found is None,
        r is Err ==> r == Err::<MutateResult, MutateError>(MutateError::TargetNotFound) && after
            == before,
        found is Some ==> {
            let e = found->0;
            &&& after.tree.slots@.len() == before.tree.slots@.len()
            &&& !after.tree.alive(e)
            &&& after.tree.alive(x) <==> before.tree.alive(x) && !before.tree.under(x, e)
            &&& after.tree.alive(x) ==> after.tree.rec(x).parent == before.tree.rec(x).parent
                && same_components(after.tree.rec(x), before.tree.rec(x))
            &&& after.tree.alive(x) ==> (after.tree.rec(x).children@.contains(c)
                <==> before.tree.rec(x).children@.contains(c) && c != e)
            &&& after.crdt == before.crdt
            &&& after.registry == before.registry
        },
{
    if found is Some {
        let e = found->0;
        delete_cascades(before.tree, after.tree, e, x);
        assert(after.tree.alive(x) <==> before.tree.alive(x) && !before.tree.under(x, e));
        if after.tree.alive(x) {
            assert(after.tree.kids(x) == after.tree.rec(x).children@);
            assert(after.tree.parent(x) == after.tree.rec(x).parent);
            lemma_filter_contains(before.tree.kids(x), other_than(e), c);
        }
    }
}

/// Every change reports how far the change stream is once it has landed, in the
/// session that asked, and refers to the node: as it is now, or for a deletion
/// as it was.
pub proof fn mutations_report_the_node(
    r: MutateResult,
    before: SceneWorld,
    after: SceneWorld,
    session: SessionId,
    e: Entity,
    create: CreateSpec,
    patch: UpdatePatch,
    place: MoveSpec,
)
    ensures
        created(Ok(r), before, after, session, create) ==> r.node@ == node_ref_or_root(
            after,
            before.tree.slots@.len() as Entity,
            session,
        ),
        updated(Ok(r), before, after, session, Some(e), patch) ==> r.node@ == node_ref_or_root(
            after,
            e,
            session,
        ),
        moved(Ok(r), before, after, session, place) ==> r.node@ == node_ref_or_root(
            after,
            resolved_target(before, target_view(place.target), session)->0,
            session,
        ),
        deleted(Ok(r), before, after, session, Some(e)) ==> r.node@ == node_ref_or_root(
            before,
            e,
            session,
        ),
        created(Ok(r), before, after, session, create) || updated(
            Ok(r),
            before,
            after,
            session,
            Some(e),
            patch,
        ) || moved(Ok(r), before, after, session, place) || deleted(
            Ok(r),
            before,
            after,
            session,
            Some(e),
        ) ==> {
            &&& r.cursor.session == session
            &&& after.watch is Some ==> r.cursor.generation == after.watch->0.generation.0
                && r.cursor.last_replicated_op == after.watch->0.replicated_op.0
        },
{
}

/// The row of the change stream for the one message that a change sends, where
/// no message waited and the node had no row.
proof fn lemma_one_message(
    before: SceneWorld,
    after: SceneWorld,
    message: GraphMessage,
    e: Entity,
)
    requires
        before.watch is Some,
        before.pending@.len() == 0,
        no_row_for(before.watch->0.buffer.spec_rows(), e),
        before.watch->0.buffer.rows@.len() < before.watch->0.buffer.capacity,
        before.watch->0.generation.0 < u64::MAX,
        message_names(message, e),
        after.landed(before, seq![message]),
    ensures
        ({
            let rows = after.watch->0.buffer.spec_rows();
            &&& after.watch is Some
            &&& rows.len() == before.watch->0.buffer.spec_rows().len() + 1
            &&& rows.drop_last() == before.watch->0.buffer.spec_rows()
            &&& rows.last().entity == e
            &&& rows.last().change_count == 1
            &&& rows.last().last_generation == before.watch->0.generation.0 + 1
            &&& rows.last() == stream_step(
                before.watch->0.stream(),
                before.watch->0.buffer.capacity,
                message,
            ).rows.last()
        }),
{
    let s = before.watch->0.stream();
    let capacity = before.watch->0.buffer.capacity;
    assert(before.pending@ + seq![message] =~= seq![message]);
    assert(seq![message].drop_last() =~= seq![]);
    assert(stream_after(s, capacity, seq![]) == s);
    assert(stream_after(s, capacity, seq![message]) == stream_step(s, capacity, message));
    first_change_is_recorded(s, capacity, message, e);
}

/// What a single change does to a node that had no row is what the change stream
/// then says: a created node is added, an updated one modified, a moved one
/// moved, each with one new row at the end. An update that applies to nothing
/// leaves the rows alone.
pub proof fn single_changes_are_told(
    r: Result<MutateResult, MutateError>,
    before: SceneWorld,
    after: SceneWorld,
    session: SessionId,
    e: Entity,
    create: CreateSpec,
    patch: UpdatePatch,
    place: MoveSpec,
)
    requires
        r is Ok,
        before.watch is Some,
        before.pending@.len() == 0,
        no_row_for(before.watch->0.buffer.spec_rows(), e),
        before.watch->0.buffer.rows@.len() < before.watch->0.buffer.capacity,
        before.watch->0.generation.0 < u64::MAX,
    ensures
        created(r, before, after, session, create) && e == before.tree.slots@.len() as Entity
            ==> one_row_more(before, after, e, ChangeKind::Added),
        updated(r, before, after, session, Some(e), patch) ==> {
            let rec = before.tree.rec(e);
            if (patch.frame_name is Some && rec.frame is Some) || (patch.text_content is Some
                && rec.text is Some) || (patch.transform is Some && rec.transform is Some) {
                one_row_more(before, after, e, ChangeKind::Modified)
            } else {
                after.watch->0.buffer.spec_rows() == before.watch->0.buffer.spec_rows()
            }
        },
        moved(r, before, after, session, place) && resolved_target(
            before,
            target_view(place.target),
            session,
        ) == Some(e) ==> one_row_more(before, after, e, ChangeKind::Moved),
{
    let s = before.watch->0.stream();
    let capacity = before.watch->0.buffer.capacity;
    if created(r, before, after, session, create) && e == before.tree.slots@.len() as Entity {
        let message = GraphMessage::NodeAdded { entity: e };
        lemma_one_message(before, after, message, e);
        first_change_is_recorded(s, capacity, message, e);
    }
    if updated(r, before, after, session, Some(e), patch) {
        let message = GraphMessage::NodeChanged { entity: e };
        if patch_applies(before.tree.rec(e), patch) {
            lemma_one_message(before, after, message, e);
            first_change_is_recorded(s, capacity, message, e);
        } else {
            let none = Seq::<GraphMessage>::empty();
            assert(before.pending@ + none =~= none);
            assert(stream_after(s, capacity, none) == s);
        }
    }
    if moved(r, before, after, session, place) && resolved_target(
        before,
        target_view(place.target),
        session,
    ) == Some(e) {
        let message = GraphMessage::TreePositionChanged { entity: e };
        lemma_one_message(before, after, message, e);
        first_change_is_recorded(s, capacity, message, e);
    }
}

/// Whether the change stream of `after` is that of `before` with one more row at
/// the end, for a single change of the given kind to `e`.
pub open spec fn one_row_more(
    before: SceneWorld,
    after: SceneWorld,
    e: Entity,
    kind: ChangeKind,
) -> bool {
    let rows = after.watch->0.buffer.spec_rows();
    &&& after.watch is Some
    &&& rows.len() == before.watch->0.buffer.spec_rows().len() + 1
    &&& rows.drop_last() == before.watch->0.buffer.spec_rows()
    &&& rows.last().entity == e
    &&& rows.last().kind == kind
    &&& rows.last().change_count == 1
    &&& rows.last().last_generation == before.watch->0.generation.0 + 1
}

/// Where the buffer has room, a node that one of some messages says is gone, and
/// that no later message brings back or touches otherwise, has a row that says
/// so.
proof fn lemma_removals_told(
    s: StreamView,
    capacity: usize,
    messages: Seq<GraphMessage>,
    x: Entity,
)
    requires
        distinct_rows(s.rows),
        s.rows.len() + messages.len() <= capacity,
        forall|i: int|
            0 <= i < messages.len() ==> (#[trigger] messages[i]) matches GraphMessage::NodeRemoved {
                entity,
            },
    ensures
        ({
            let after = stream_after(s, capacity, messages);
            &&& distinct_rows(after.rows)
            &&& after.rows.len() <= s.rows.len() + messages.len()
            &&& messages.contains(GraphMessage::NodeRemoved { entity: x }) ==> exists|k: int|
                0 <= k < after.rows.len() && (#[trigger] after.rows[k]).entity == x
                    && after.rows[k].kind == ChangeKind::Removed
            &&& !messages.contains(GraphMessage::NodeRemoved { entity: x }) ==> lookup(
                after.removed,
                x,
            ) == lookup(s.removed, x)
            &&& messages.contains(GraphMessage::NodeRemoved { entity: x }) && messages.no_duplicates()
                && s.removed.dom().contains(x) ==> exists|k: int|
                0 <= k < after.rows.len() && (#[trigger] after.rows[k]).entity == x
                    && after.rows[k].kind == ChangeKind::Removed && after.rows[k].pre_resolved
                    == Some(s.removed[x])
        }),
    decreases messages.len(),
{
    if messages.len() > 0 {
        let init = messages.drop_last();
        let last = messages.last();
        let mid = stream_after(s, capacity, init);
        let after = stream_after(s, capacity, messages);
        let gone = GraphMessage::NodeRemoved { entity: x };
        assert forall|i: int| 0 <= i < init.len() implies (#[trigger] init[i]) matches
            GraphMessage::NodeRemoved { entity } by {
            assert(init[i] == messages[i]);
        }
        lemma_removals_told(s, capacity, init, x);
        let y = match messages[messages.len() - 1] {
            GraphMessage::NodeRemoved { entity } => entity,
            _ => 0,
        };
        assert(last == GraphMessage::NodeRemoved { entity: y });
        assert(after == stream_step(mid, capacity, last));
        let pre = lookup(mid.removed, y);
        let g = next_generation(mid.generation);
        lemma_recorded_distinct(mid.rows, capacity, y, ChangeKind::Removed, g, pre);
        lemma_row_index(mid.rows, y);
        assert(messages =~= init.push(last));
        lemma_push_contains(init, last, gone);
        if y == x {
            if let Some(k) = row_index(mid.rows, y) {
                assert(after.rows[k].entity == x && after.rows[k].kind == ChangeKind::Removed);
                if messages.no_duplicates() && s.removed.dom().contains(x) {
                    if init.contains(gone) {
                        let i = choose|i: int| 0 <= i < init.len() && init[i] == gone;
                        assert(messages[i] == messages[messages.len() - 1]);
                    }
                    assert(after.rows[k].pre_resolved == Some(s.removed[x]));
                }
            } else {
                let k = mid.rows.len() as int;
                assert(after.rows[k].entity == x && after.rows[k].kind == ChangeKind::Removed);
                if messages.no_duplicates() && s.removed.dom().contains(x) {
                    if init.contains(gone) {
                        let i = choose|i: int| 0 <= i < init.len() && init[i] == gone;
                        assert(messages[i] == messages[messages.len() - 1]);
                    }
                    assert(after.rows[k].pre_resolved == Some(s.removed[x]));
                }
            }
        } else if messages.contains(gone) {
            assert(init.contains(gone));
            let k = choose|k: int|
                0 <= k < mid.rows.len() && (#[trigger] mid.rows[k]).entity == x
                    && mid.rows[k].kind == ChangeKind::Removed;
            assert(after.rows[k] == mid.rows[k]);
            if messages.no_duplicates() && s.removed.dom().contains(x) {
                assert(init.no_duplicates()) by {
                    assert forall|i: int, j: int|
                        0 <= i < init.len() && 0 <= j < init.len() && i != j implies init[i]
                        != init[j] by {
                        assert(messages[i] != messages[j]);
                    }
                }
                let k = choose|k: int|
                    0 <= k < mid.rows.len() && (#[trigger] mid.rows[k]).entity == x
                        && mid.rows[k].kind == ChangeKind::Removed && mid.rows[k].pre_resolved
                        == Some(s.removed[x]);
                assert(after.rows[k] == mid.rows[k]);
            }
        }
    }
}

proof fn lemma_captured(
    w: SceneWorld,
    root: Entity,
    doomed: Seq<Entity>,
    session: SessionId,
    m: Map<Entity, NodeRefView>,
    x: Entity,
)
    requires
        doomed.contains(x),
        w.tree.scene(x),
    ensures
        captured(w, root, doomed, session, m).dom().contains(x),
        captured(w, root, doomed, session, m)[x] == removal_ref(w, x, x != root, session),
    decreases doomed.len(),
{
    let init = doomed.drop_last();
    assert(doomed =~= init.push(doomed.last()));
    lemma_push_contains(init, doomed.last(), x);
    if doomed.last() != x {
        lemma_captured(w, root, init, session, m, x);
    }
}

/// After a deletion the change stream says of the node, and of every scene node
/// that stood below it, that it was removed, where the buffer has room; and it
/// holds the reference that was captured before it went: for the node itself the
/// one with its whole path.
pub proof fn deletion_is_told(
    r: Result<MutateResult, MutateError>,
    before: SceneWorld,
    after: SceneWorld,
    session: SessionId,
    e: Entity,
    x: Entity,
)
    requires
        before.wf(),
        before.tree.alive(e),
        deleted(r, before, after, session, Some(e)),
        before.watch is Some,
        before.pending@.len() == 0,
        before.watch->0.buffer.rows@.len() + before.tree.subtree(e).len()
            <= before.watch->0.buffer.capacity,
        before.tree.alive(x),
        before.tree.rec(x).scene_node,
        before.tree.under(x, e),
    ensures
        exists|k: int|
            0 <= k < after.watch->0.buffer.spec_rows().len() && {
                let row = #[trigger] after.watch->0.buffer.spec_rows()[k];
                &&& row.entity == x
                &&& row.kind == ChangeKind::Removed
                &&& row.pre_resolved == Some(
                    removal_ref(before, x, x != e, before.watch->0.buffer.session),
                )
            },
{
    let tree = before.tree;
    let doomed = tree.subtree(e);
    let s = after_capture(before, e);
    let capacity = before.watch->0.buffer.capacity;
    let messages = removal_messages(tree, doomed);
    let pred = |y: Entity| tree.scene(y);
    let kept = doomed.filter(pred);
    assert(before.pending@ + messages =~= messages);
    tree.subtree_is_all_below(e, x);
    tree.subtree_names_each_once(e);
    lemma_filter_contains(doomed, pred, x);
    lemma_filter_no_duplicates(doomed, pred);
    assert(kept.len() <= doomed.len()) by {
        lemma_filter_len(doomed, pred);
    }
    let i = choose|i: int| 0 <= i < kept.len() && kept[i] == x;
    assert(messages[i] == GraphMessage::NodeRemoved { entity: x });
    assert(messages.no_duplicates()) by {
        assert forall|a: int, b: int|
            0 <= a < messages.len() && 0 <= b < messages.len() && a != b implies messages[a]
            != messages[b] by {
            assert(kept[a] != kept[b]);
        }
    }
    lemma_captured(
        before,
        e,
        doomed,
        before.watch->0.buffer.session,
        before.watch->0.stream().removed,
        x,
    );
    lemma_removals_told(s, capacity, messages, x);
    let rows = after.watch->0.buffer.spec_rows();
    let k = choose|k: int|
        0 <= k < rows.len() && (#[trigger] rows[k]).entity == x && rows[k].kind
            == ChangeKind::Removed && rows[k].pre_resolved == Some(s.removed[x]);
    assert(rows[k].entity == x);
}

/// An inspection tells of a live entity its reference, its handle, its data and
/// the names of its components; of a target that does not resolve, nothing.
pub proof fn inspection_tells_the_entity(
    r: EntityReport,
    w: SceneWorld,
    session: SessionId,
    e: Entity,
)
    requires
        w.tree.alive(e),
    ensures
        reports_entity(r, w, session, Some(e)) ==> {
            &&& r.entity_bits == Some(e)
            &&& r.node@ == node_ref_or_root(w, e, session)
            &&& w.tree.rec(e).frame is Some ==> (r.variant matches Some(Node::Frame(d))
                && Some(d.frame) == w.tree.rec(e).frame)
            &&& w.tree.rec(e).frame is None && w.tree.rec(e).rectangle is Some ==> (
            r.variant matches Some(Node::Rectangle(d)))
            &&& w.tree.rec(e).frame is None && w.tree.rec(e).rectangle is None && w.tree.rec(
                e,
            ).text is Some ==> (r.variant matches Some(Node::Text(d)) && Some(d.text)
                == w.tree.rec(e).text)
            &&& text_views(r.component_names@) == w.spec_component_names(e)
        },
        reports_entity(r, w, session, None) ==> r.entity_bits is None && r.variant is None
            && r.component_names@.len() == 0 && r.node@.path.len() == 0 && r.node@.entity is None
            && r.node@.session is None && r.node@.crdt_id is None,
{
}

/// A scan leaves the scene as it is and empties the change stream: no rows, no
/// overflow, with the position in the stream kept. A read after it has nothing
/// to tell and nothing lost.
pub proof fn scan_starts_the_stream_afresh(
    after: SceneWorld,
    before: SceneWorld,
    session: SessionId,
    since: Option<Cursor>,
    opts: WatchOpts,
)
    requires
        stream_emptied(after, before),
        before.watch is Some,
        since is Some ==> since->0.session == session,
    ensures
        after.tree == before.tree,
        after.watch is Some,
        after.crdt == before.crdt,
        after.registry == before.registry,
        after.pending == before.pending,
        after.watch->0.buffer.rows@.len() == 0,
        after.watch->0.buffer.capacity == before.watch->0.buffer.capacity,
        after.watch->0.buffer.session == before.watch->0.buffer.session,
        after.watch->0.removed_paths == before.watch->0.removed_paths,
        after.watch->0.generation == before.watch->0.generation,
        after.spec_cursor(session) == before.spec_cursor(session),
        !view_lost(after, session, since),
        page_changes(after, session, since, opts).len() == 0,
{
    let k = 0;
    assert(after.watch->0.buffer.spec_rows().len() == after.watch->0.buffer.rows@.len());
    if page_changes(after, session, since, opts).len() > 0 {
        page_tells_rows(after, session, since, opts, k);
    }
}

/// A walk from a live entity has as many rows as it found, or as the cap allows,
/// says whether it was cut off, and counts its rows; from a target that does not
/// resolve it has none.
pub proof fn walk_counts_its_rows(
    r: Walk,
    w: SceneWorld,
    session: SessionId,
    found: Option<Entity>,
    opts: WalkOpts,
)
    requires
        walks_from(r, w, session, found, opts),
    ensures
        r.cost.estimated_items == r.rows@.len(),
        opts.max_items != 0 ==> r.rows@.len() <= opts.max_items,
        found is None ==> r.rows@.len() == 0 && !r.truncated && r.cost.estimated_work == 0
            && r.root@.path.len() == 0 && r.root@.entity is None,
        found is Some ==> {
            let all = walk_matches(w, found->0, opts).len();
            &&& r.truncated <==> r.rows@.len() < all
            &&& opts.max_items == 0 ==> r.rows@.len() == all
            &&& !r.truncated ==> r.cost.estimated_work == w.tree.visits(
                found->0,
                opts.strategy.spec_order(),
                opts.depth_limit,
            ).len()
            &&& r.truncated ==> r.cost.estimated_work > r.rows@.len()
            &&& r.root@ == node_ref_or_root(w, found->0, session)
        },
{
    assert(walk_row_views(r.rows@).len() == r.rows@.len());
    if found is Some {
        walk_work_is_what_was_looked_at(w, found->0, opts);
    }
}

/// A change that succeeds leaves no message waiting, and leaves the change stream
/// its capacity, its session and its place among replicated operations.
pub proof fn changes_leave_nothing_waiting(
    r: MutateResult,
    before: SceneWorld,
    after: SceneWorld,
    session: SessionId,
    e: Entity,
    create: CreateSpec,
    patch: UpdatePatch,
    place: MoveSpec,
)
    requires
        created(Ok(r), before, after, session, create) || updated(
            Ok(r),
            before,
            after,
            session,
            Some(e),
            patch,
        ) || moved(Ok(r), before, after, session, place) || deleted(
            Ok(r),
            before,
            after,
            session,
            Some(e),
        ),
    ensures
        after.pending@.len() == 0,
        after.watch is Some <==> before.watch is Some,
        before.watch is Some ==> {
            &&& after.watch->0.replicated_op == before.watch->0.replicated_op
            &&& after.watch->0.buffer.capacity == before.watch->0.buffer.capacity
            &&& after.watch->0.buffer.session == before.watch->0.buffer.session
        },
{
}

} // verus!
