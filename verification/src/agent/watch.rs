//! The change stream: a coalescing buffer of changes, filled from graph
//! messages and read out in pages.
use std::collections::HashMap;

use vstd::prelude::*;

use crate::agent::handle::{
    node_ref, node_ref_for, path_ref, resolved_ref, Cursor, NodeRef, NodeRefView, SessionId,
};
use crate::agent::path::{part_views, OrderKey, PathPart, PathPartView, ScenePath};
use crate::agent::navigate::{kind_passes, passes_kinds};
use crate::agent::scene::{Entity, NodeKind, SceneTree};
use crate::agent::world::{entry_views, lookup, scene_types_registered, SceneWorld};
use crate::seqs::{lemma_filter_contains, lemma_filter_prefix, lemma_filter_step, limited};

verus! {

/// Session-local count of graph messages.
#[derive(Clone, Copy, Debug, PartialEq, Eq, Structural)]
pub struct WorldGeneration(pub u64);

/// Position in the stream of replicated operations, where replication is active.
#[derive(Clone, Copy, Debug, PartialEq, Eq, Structural)]
pub struct ReplicatedOpCursor(pub Option<u64>);

/// Default cap on the rows of a [`WatchBuffer`].
pub const DEFAULT_WATCH_CAPACITY: usize = 4096;

#[derive(Clone, Copy, Debug, PartialEq, Eq, Structural)]
pub enum ChangeKind {
    Added,
    Removed,
    Modified,
    Moved,
}

/// What the graph layer reports.
#[derive(Clone, Copy, Debug, PartialEq, Eq, Structural)]
pub enum GraphMessage {
    NodeAdded { entity: Entity },
    NodeRemoved { entity: Entity },
    NodeChanged { entity: Entity },
    TreePositionChanged { entity: Entity },
    EdgeAdded { entity: Entity },
    EdgeRemoved { entity: Entity },
    EdgeChanged { entity: Entity },
    NodeConnected { entity: Entity },
    NodeDisconnected { entity: Entity },
    PropagationTriggered { entity: Entity },
}

/// One coalesced row of the buffer.
#[derive(Debug)]
pub struct RawChange {
    pub entity: Entity,
    pub kind: ChangeKind,
    pub last_generation: u64,
    pub change_count: u32,
    /// For a removal, the reference as it was before.
    pub pre_resolved: Option<NodeRef>,
}

/// What a [`RawChange`] holds.
#[verifier::ext_equal]
pub struct RawChangeView {
    pub entity: Entity,
    pub kind: ChangeKind,
    pub last_generation: u64,
    pub change_count: u32,
    pub pre_resolved: Option<NodeRefView>,
}

pub open spec fn opt_ref_view(r: Option<NodeRef>) -> Option<NodeRefView> {
    match r {
        Some(r) => Some(r@),
        None => None,
    }
}

impl View for RawChange {
    type V = RawChangeView;

    open spec fn view(&self) -> RawChangeView {
        RawChangeView {
            entity: self.entity,
            kind: self.kind,
            last_generation: self.last_generation,
            change_count: self.change_count,
            pre_resolved: opt_ref_view(self.pre_resolved),
        }
    }
}

pub open spec fn row_views(rows: Seq<RawChange>) -> Seq<RawChangeView> {
    rows.map_values(|r: RawChange| r@)
}

/// Coalesced changes since the last drain, one row per entity. Once a row does
/// not fit, `overflowed` stays set until the buffer is reset.
#[derive(Debug)]
pub struct WatchBuffer {
    pub capacity: usize,
    pub session: SessionId,
    pub rows: Vec<RawChange>,
    pub overflowed: bool,
}

/// References captured before removal, by entity.
#[derive(Debug)]
pub struct RemovedPaths {
    pub paths: HashMap<Entity, NodeRef>,
}

// ---------------------------------------------------------------------------
// Recording
// ---------------------------------------------------------------------------

/// The kind of a row after one more change. What ends removed is removed; what
/// was added, or is added now, counts as added; the rest is modified.
pub open spec fn coalesced(prev: ChangeKind, next: ChangeKind) -> ChangeKind {
    if next == ChangeKind::Removed {
        ChangeKind::Removed
    } else if prev == ChangeKind::Added || next == ChangeKind::Added {
        ChangeKind::Added
    } else {
        ChangeKind::Modified
    }
}

/// Folds one more change of an entity into the kind of its row.
pub fn coalesce(prev: ChangeKind, next: ChangeKind) -> (r: ChangeKind)
    ensures
        r == coalesced(prev, next),
{
    match (prev, next) {
        (_, ChangeKind::Removed) => ChangeKind::Removed,
        (ChangeKind::Added, _) => ChangeKind::Added,
        (_, ChangeKind::Added) => ChangeKind::Added,
        (_, ChangeKind::Modified) | (_, ChangeKind::Moved) => ChangeKind::Modified,
    }
}

/// The position of the row for `e`, where there is one.
pub open spec fn row_index(rows: Seq<RawChangeView>, e: Entity) -> Option<int>
    decreases rows.len(),
{
    if rows.len() == 0 {
        None
    } else if rows.last().entity == e {
        Some(rows.len() - 1)
    } else {
        row_index(rows.drop_last(), e)
    }
}

/// No entity has two rows.
pub open spec fn distinct_rows(rows: Seq<RawChangeView>) -> bool {
    forall|i: int, j: int|
        0 <= i < j < rows.len() ==> (#[trigger] rows[i]).entity != (#[trigger] rows[j]).entity
}

pub open spec fn saturating_succ(n: u32) -> u32 {
    if n == u32::MAX {
        n
    } else {
        (n + 1) as u32
    }
}

/// A row with one more change folded in.
pub open spec fn folded(
    row: RawChangeView,
    kind: ChangeKind,
    generation: u64,
    pre: Option<NodeRefView>,
) -> RawChangeView {
    RawChangeView {
        entity: row.entity,
        kind: coalesced(row.kind, kind),
        last_generation: generation,
        change_count: saturating_succ(row.change_count),
        pre_resolved: if pre is Some {
            pre
        } else {
            row.pre_resolved
        },
    }
}

/// The first row for an entity.
pub open spec fn fresh_row(
    entity: Entity,
    kind: ChangeKind,
    generation: u64,
    pre: Option<NodeRefView>,
) -> RawChangeView {
    RawChangeView {
        entity,
        kind,
        last_generation: generation,
        change_count: 1,
        pre_resolved: pre,
    }
}

/// The rows after a change was recorded.
pub open spec fn recorded_rows(
    rows: Seq<RawChangeView>,
    capacity: usize,
    entity: Entity,
    kind: ChangeKind,
    generation: u64,
    pre: Option<NodeRefView>,
) -> Seq<RawChangeView> {
    match row_index(rows, entity) {
        Some(i) => rows.update(i, folded(rows[i], kind, generation, pre)),
        None => if rows.len() >= capacity {
            rows
        } else {
            rows.push(fresh_row(entity, kind, generation, pre))
        },
    }
}

/// Whether a change has no room.
pub open spec fn overflows(rows: Seq<RawChangeView>, capacity: usize, entity: Entity) -> bool {
    row_index(rows, entity) is None && rows.len() >= capacity
}

pub proof fn lemma_row_index(rows: Seq<RawChangeView>, e: Entity)
    ensures
        match row_index(rows, e) {
            Some(i) => 0 <= i < rows.len() && rows[i].entity == e,
            None => forall|i: int| 0 <= i < rows.len() ==> (#[trigger] rows[i]).entity != e,
        },
    decreases rows.len(),
{
    if rows.len() > 0 {
        let init = rows.drop_last();
        lemma_row_index(init, e);
        assert forall|i: int| 0 <= i < init.len() implies init[i] == #[trigger] rows[i] by {}
    }
}

proof fn lemma_row_index_at(rows: Seq<RawChangeView>, i: int)
    requires
        distinct_rows(rows),
        0 <= i < rows.len(),
    ensures
        row_index(rows, rows[i].entity) == Some(i),
{
    lemma_row_index(rows, rows[i].entity);
    match row_index(rows, rows[i].entity) {
        Some(j) => {
            if i < j {
                assert(rows[i].entity != rows[j].entity);
            } else if j < i {
                assert(rows[j].entity != rows[i].entity);
            }
        },
        None => {
            assert(rows[i].entity != rows[i].entity);
        },
    }
}

pub proof fn lemma_recorded_distinct(
    rows: Seq<RawChangeView>,
    capacity: usize,
    entity: Entity,
    kind: ChangeKind,
    generation: u64,
    pre: Option<NodeRefView>,
)
    requires
        distinct_rows(rows),
    ensures
        distinct_rows(recorded_rows(rows, capacity, entity, kind, generation, pre)),
        rows.len() <= capacity ==> recorded_rows(
            rows,
            capacity,
            entity,
            kind,
            generation,
            pre,
        ).len() <= capacity,
{
    lemma_row_index(rows, entity);
    let next = recorded_rows(rows, capacity, entity, kind, generation, pre);
    assert forall|i: int, j: int| 0 <= i < j < next.len() implies (#[trigger] next[i]).entity != (
    #[trigger] next[j]).entity by {
        if j < rows.len() {
            assert(next[i].entity == rows[i].entity);
            assert(next[j].entity == rows[j].entity);
        } else {
            assert(next[i].entity == rows[i].entity);
        }
    }
}

impl WatchBuffer {
    /// The rows, by what they hold.
    pub open spec fn spec_rows(self) -> Seq<RawChangeView> {
        row_views(self.rows@)
    }

    /// No entity has two rows, and the rows fit.
    pub open spec fn wf(self) -> bool {
        &&& distinct_rows(self.spec_rows())
        &&& self.rows@.len() <= self.capacity
    }

    pub fn new(capacity: usize, session: SessionId) -> (r: Self)
        ensures
            r.wf(),
            r.capacity == capacity,
            r.session == session,
            r.spec_rows() == Seq::<RawChangeView>::empty(),
            !r.overflowed,
    {
        let r = WatchBuffer { capacity, session, rows: Vec::new(), overflowed: false };
        assert(r.spec_rows() =~= Seq::<RawChangeView>::empty());
        r
    }

    /// Drops all rows and clears the overflow flag.
    pub fn reset(&mut self)
        ensures
            final(self).wf(),
            final(self).capacity == old(self).capacity,
            final(self).session == old(self).session,
            final(self).spec_rows() == Seq::<RawChangeView>::empty(),
            !final(self).overflowed,
    {
        self.rows = Vec::new();
        self.overflowed = false;
        assert(self.spec_rows() =~= Seq::<RawChangeView>::empty());
    }

    /// The position of the row for `e`.
    fn find(&self, e: Entity) -> (r: Option<usize>)
        requires
            self.wf(),
        ensures
            match r {
                Some(i) => i < self.rows@.len() && row_index(self.spec_rows(), e) == Some(i as int),
                None => row_index(self.spec_rows(), e) is None,
            },
    {
        let mut i: usize = 0;
        while i < self.rows.len()
            invariant
                self.wf(),
                i <= self.rows@.len(),
                forall|k: int| 0 <= k < i ==> (#[trigger] self.spec_rows()[k]).entity != e,
            decreases self.rows@.len() - i,
        {
            if self.rows[i].entity == e {
                proof {
                    assert(self.spec_rows()[i as int] == self.rows@[i as int]@);
                    lemma_row_index_at(self.spec_rows(), i as int);
                }
                return Some(i);
            }
            assert(self.spec_rows()[i as int] == self.rows@[i as int]@);
            i = i + 1;
        }
        proof {
            lemma_row_index(self.spec_rows(), e);
        }
        None
    }

    /// Folds a change into the buffer. A change of an entity that has no row
    /// yet and finds the buffer full sets the overflow flag instead.
    pub fn record(
        &mut self,
        entity: Entity,
        kind: ChangeKind,
        generation: u64,
        pre_resolved: Option<NodeRef>,
    )
        requires
            old(self).wf(),
        ensures
            final(self).wf(),
            final(self).capacity == old(self).capacity,
            final(self).session == old(self).session,
            final(self).spec_rows() == recorded_rows(
                old(self).spec_rows(),
                old(self).capacity,
                entity,
                kind,
                generation,
                opt_ref_view(pre_resolved),
            ),
            final(self).overflowed == (old(self).overflowed || overflows(
                old(self).spec_rows(),
                old(self).capacity,
                entity,
            )),
    {
        let ghost before = self.spec_rows();
        proof {
            lemma_recorded_distinct(
                before,
                self.capacity,
                entity,
                kind,
                generation,
                opt_ref_view(pre_resolved),
            );
        }
        match self.find(entity) {
            Some(i) => {
                let ghost old_row = self.rows@[i as int]@;
                assert(before[i as int] == old_row);
                let row = &mut self.rows[i];
                row.kind = coalesce(row.kind, kind);
                row.last_generation = generation;
                row.change_count = row.change_count.saturating_add(1);
                if pre_resolved.is_some() {
                    row.pre_resolved = pre_resolved;
                }
                assert(self.rows@[i as int]@ == folded(
                    old_row,
                    kind,
                    generation,
                    opt_ref_view(pre_resolved),
                ));
                assert(self.spec_rows() =~= before.update(
                    i as int,
                    folded(old_row, kind, generation, opt_ref_view(pre_resolved)),
                ));
            },
            None => {
                if self.rows.len() >= self.capacity {
                    self.overflowed = true;
                    return;
                }
                let row = RawChange {
                    entity,
                    kind,
                    last_generation: generation,
                    change_count: 1,
                    pre_resolved,
                };
                self.rows.push(row);
                assert(self.spec_rows() =~= before.push(row@));
            },
        }
    }
}

// ---------------------------------------------------------------------------
// Draining
// ---------------------------------------------------------------------------

/// The change stream of a world.
#[derive(Debug)]
pub struct WatchState {
    pub generation: WorldGeneration,
    pub replicated_op: ReplicatedOpCursor,
    pub buffer: WatchBuffer,
    pub removed_paths: RemovedPaths,
}

/// What the messages act on.
#[verifier::ext_equal]
pub struct StreamView {
    pub rows: Seq<RawChangeView>,
    pub overflowed: bool,
    pub generation: u64,
    pub removed: Map<Entity, NodeRefView>,
}

/// The row that a message calls for.
pub open spec fn message_change(message: GraphMessage) -> Option<(Entity, ChangeKind)> {
    match message {
        GraphMessage::NodeAdded { entity } => Some((entity, ChangeKind::Added)),
        GraphMessage::NodeRemoved { entity } => Some((entity, ChangeKind::Removed)),
        GraphMessage::NodeChanged { entity } => Some((entity, ChangeKind::Modified)),
        GraphMessage::TreePositionChanged { entity } => Some((entity, ChangeKind::Moved)),
        _ => None,
    }
}

/// The node that a message is about, where its change is recorded.
pub open spec fn message_entity(message: GraphMessage) -> Option<Entity> {
    match message_change(message) {
        Some((entity, _)) => Some(entity),
        None => None,
    }
}

pub open spec fn next_generation(g: u64) -> u64 {
    if g == u64::MAX {
        g
    } else {
        (g + 1) as u64
    }
}

/// The stream after one message. Every message counts; those about nodes are
/// recorded, a removal with the reference that was captured for it.
pub open spec fn stream_step(s: StreamView, capacity: usize, message: GraphMessage) -> StreamView {
    let g = next_generation(s.generation);
    match message_change(message) {
        None => StreamView { generation: g, ..s },
        Some((entity, kind)) => {
            let pre = if kind == ChangeKind::Removed {
                lookup(s.removed, entity)
            } else {
                None
            };
            StreamView {
                rows: recorded_rows(s.rows, capacity, entity, kind, g, pre),
                overflowed: s.overflowed || overflows(s.rows, capacity, entity),
                generation: g,
                removed: if kind == ChangeKind::Removed {
                    s.removed.remove(entity)
                } else {
                    s.removed
                },
            }
        },
    }
}

/// The stream after some messages, in order.
pub open spec fn stream_after(
    s: StreamView,
    capacity: usize,
    messages: Seq<GraphMessage>,
) -> StreamView
    decreases messages.len(),
{
    if messages.len() == 0 {
        s
    } else {
        stream_step(
            stream_after(s, capacity, messages.drop_last()),
            capacity,
            messages.last(),
        )
    }
}

/// What captured references hold.
pub open spec fn removed_views(m: Map<Entity, NodeRef>) -> Map<Entity, NodeRefView> {
    m.map_values(|r: NodeRef| r@)
}

impl WatchState {
    pub open spec fn wf(self) -> bool {
        self.buffer.wf()
    }

    pub open spec fn stream(self) -> StreamView {
        StreamView {
            rows: self.buffer.spec_rows(),
            overflowed: self.buffer.overflowed,
            generation: self.generation.0,
            removed: removed_views(self.removed_paths.paths@),
        }
    }

    /// Whether `self` is `before` after the given messages.
    pub open spec fn after(self, before: WatchState, messages: Seq<GraphMessage>) -> bool {
        &&& self.buffer.capacity == before.buffer.capacity
        &&& self.buffer.session == before.buffer.session
        &&& self.replicated_op == before.replicated_op
        &&& self.stream() == stream_after(before.stream(), before.buffer.capacity, messages)
    }

    /// Takes in one message.
    fn apply(&mut self, message: GraphMessage)
        requires
            old(self).wf(),
        ensures
            final(self).wf(),
            final(self).buffer.capacity == old(self).buffer.capacity,
            final(self).buffer.session == old(self).buffer.session,
            final(self).replicated_op == old(self).replicated_op,
            final(self).stream() == stream_step(
                old(self).stream(),
                old(self).buffer.capacity,
                message,
            ),
    {
        let ghost before = self.removed_paths.paths@;
        let g = self.generation.0.saturating_add(1);
        self.generation = WorldGeneration(g);
        match message {
            GraphMessage::NodeAdded { entity } => {
                self.buffer.record(entity, ChangeKind::Added, g, None);
            },
            GraphMessage::NodeRemoved { entity } => {
                let snapshot = self.removed_paths.paths.remove(&entity);
                assert(removed_views(self.removed_paths.paths@) =~= removed_views(before).remove(
                    entity,
                ));
                assert(opt_ref_view(snapshot) == lookup(removed_views(before), entity));
                self.buffer.record(entity, ChangeKind::Removed, g, snapshot);
            },
            GraphMessage::NodeChanged { entity } => {
                self.buffer.record(entity, ChangeKind::Modified, g, None);
            },
            GraphMessage::TreePositionChanged { entity } => {
                self.buffer.record(entity, ChangeKind::Moved, g, None);
            },
            GraphMessage::EdgeAdded { .. }
            | GraphMessage::EdgeRemoved { .. }
            | GraphMessage::EdgeChanged { .. }
            | GraphMessage::NodeConnected { .. }
            | GraphMessage::NodeDisconnected { .. }
            | GraphMessage::PropagationTriggered { .. } => {},
        }
    }

    /// Takes in the messages, in order.
    pub fn drain_messages(&mut self, messages: &Vec<GraphMessage>)
        requires
            old(self).wf(),
        ensures
            final(self).wf(),
            final(self).after(*old(self), messages@),
    {
        let ghost before = *self;
        let mut i: usize = 0;
        assert(messages@.take(0) =~= seq![]);
        while i < messages.len()
            invariant
                self.wf(),
                i <= messages@.len(),
                self.after(before, messages@.take(i as int)),
            decreases messages@.len() - i,
        {
            self.apply(messages[i]);
            i = i + 1;
            assert(messages@.take(i as int).drop_last() =~= messages@.take(i - 1));
        }
        assert(messages@.take(i as int) =~= messages@);
    }
}

// ---------------------------------------------------------------------------
// Capturing references before removal
// ---------------------------------------------------------------------------

/// The segment that labels an entity about to be removed. Same-named siblings
/// are not told apart; an entity without name and key gets an empty key.
pub open spec fn label(tree: SceneTree, e: Entity) -> PathPartView {
    match tree.title(e) {
        Some(name) => PathPartView::Named { name, index: 0 },
        None => match tree.key(e) {
            Some(key) => PathPartView::Ordered { key },
            None => PathPartView::Ordered { key: seq![] },
        },
    }
}

/// The reference captured for an entity about to be removed. One whose parent
/// went first stands alone.
pub open spec fn removal_ref(
    w: SceneWorld,
    e: Entity,
    orphaned: bool,
    session: SessionId,
) -> NodeRefView {
    let chain = if orphaned {
        seq![e]
    } else {
        w.tree.chain(e)
    };
    NodeRefView {
        path: chain.map_values(|x: Entity| label(w.tree, x)),
        crdt_id: w.entity_node(e),
        entity: Some(e),
        session: Some(session),
    }
}

fn label_of(tree: &SceneTree, e: Entity) -> (r: PathPart)
    ensures
        r@ == label(*tree, e),
{
    match tree.display_name_of(e) {
        Some(name) => PathPart::Named { name, index: 0 },
        None => match tree.order_key_of(e) {
            Some(key) => PathPart::Ordered { key },
            None => PathPart::Ordered { key: OrderKey(String::new()) },
        },
    }
}

/// The reference to keep for `entity`, which is about to be removed.
pub fn capture_removal_path(
    sw: &SceneWorld,
    entity: Entity,
    orphaned: bool,
    session: SessionId,
) -> (r: NodeRef)
    requires
        sw.wf(),
    ensures
        r@ == removal_ref(*sw, entity, orphaned, session),
{
    let chain = if orphaned {
        let mut only: Vec<Entity> = Vec::new();
        only.push(entity);
        assert(only@ =~= seq![entity]);
        only
    } else {
        sw.tree.chain_of(entity)
    };
    let mut parts: Vec<PathPart> = Vec::new();
    let mut i: usize = 0;
    while i < chain.len()
        invariant
            i <= chain@.len(),
            parts@.len() == i,
            forall|k: int| 0 <= k < i ==> (#[trigger] parts@[k])@ == label(sw.tree, chain@[k]),
        decreases chain@.len() - i,
    {
        parts.push(label_of(&sw.tree, chain[i]));
        i = i + 1;
    }
    assert(part_views(parts@) =~= chain@.map_values(|x: Entity| label(sw.tree, x)));
    let r = NodeRef::from_path(ScenePath::from_parts(parts)).with_cached(entity, session);
    match sw.node_id(entity) {
        Some(id) => r.with_crdt_id(id),
        None => r,
    }
}

// ---------------------------------------------------------------------------
// Reading
// ---------------------------------------------------------------------------

/// One change as the agent sees it.
#[derive(Debug)]
pub struct Change {
    pub node: NodeRef,
    pub kind: ChangeKind,
    /// How many changes were folded into this one.
    pub change_count: u32,
    pub generation: u64,
    /// The node's variant, where the entity still exists. A removal has none.
    pub node_kind: Option<NodeKind>,
}

/// What a [`Change`] holds.
#[verifier::ext_equal]
pub struct ChangeView {
    pub node: NodeRefView,
    pub kind: ChangeKind,
    pub change_count: u32,
    pub generation: u64,
    pub node_kind: Option<NodeKind>,
}

impl View for Change {
    type V = ChangeView;

    open spec fn view(&self) -> ChangeView {
        ChangeView {
            node: self.node@,
            kind: self.kind,
            change_count: self.change_count,
            generation: self.generation,
            node_kind: self.node_kind,
        }
    }
}

pub open spec fn change_views(changes: Seq<Change>) -> Seq<ChangeView> {
    changes.map_values(|c: Change| c@)
}

/// What to read from the change stream.
#[derive(Debug)]
pub struct WatchOpts {
    /// Confine to changes under this node. `None` is the whole scene.
    pub under: Option<NodeRef>,
    /// Confine to these variants. Empty is all of them.
    pub kinds: Vec<NodeKind>,
    /// Confine to these kinds of change. Empty is all of them.
    pub events: Vec<ChangeKind>,
    /// The most changes to return. 0 is all of them.
    pub max_items: u32,
}

impl Default for WatchOpts {
    fn default() -> (r: Self)
        ensures
            r.under is None,
            r.kinds@.len() == 0,
            r.events@.len() == 0,
            r.max_items == 0,
    {
        WatchOpts { under: None, kinds: Vec::new(), events: Vec::new(), max_items: 0 }
    }
}

/// A page of the change stream.
#[derive(Debug)]
pub struct WatchPage {
    pub changes: Vec<Change>,
    /// Where to read on from.
    pub next_cursor: Cursor,
    pub has_more: bool,
    /// Changes were lost: scan the scene anew.
    pub buffer_overflow: bool,
}

/// The variant that a row is reported with; a removal has none.
pub open spec fn row_kind(w: SceneWorld, row: RawChangeView) -> Option<NodeKind> {
    if row.kind == ChangeKind::Removed {
        None
    } else {
        w.tree.kind(row.entity)
    }
}

/// Whether a row passes the filters of `opts`, where `root` is what the node
/// that the changes must stand under resolves to. Nothing stands under a node
/// that does not resolve. A row with a captured reference counts as standing
/// under every node.
pub open spec fn row_passes(
    w: SceneWorld,
    opts: WatchOpts,
    root: Option<Entity>,
    row: RawChangeView,
) -> bool {
    &&& opts.events@.len() == 0 || opts.events@.contains(row.kind)
    &&& kind_passes(opts.kinds@, row_kind(w, row))
    &&& opts.under is Some ==> row.pre_resolved is Some || (root is Some && w.tree.under(
        row.entity,
        root->0,
    ))
}

/// The node that `opts` confines the changes to.
pub open spec fn watch_root(w: SceneWorld, session: SessionId, opts: WatchOpts) -> Option<Entity> {
    match opts.under {
        Some(r) => resolved_ref(w, r@, session),
        None => None,
    }
}

/// The reference that a row is reported with: a removal goes by the reference
/// captured for it; else the live one, else the captured one, else a stub that
/// holds the entity alone.
pub open spec fn row_ref(w: SceneWorld, session: SessionId, row: RawChangeView) -> NodeRefView {
    if row.pre_resolved is Some && row.kind == ChangeKind::Removed {
        row.pre_resolved->0
    } else {
        match node_ref(w, row.entity, session) {
            Some(r) => r,
            None => match row.pre_resolved {
                Some(r) => r,
                None => NodeRefView {
                    entity: Some(row.entity),
                    session: Some(session),
                    ..path_ref(seq![])
                },
            },
        }
    }
}

/// A row as it is reported.
pub open spec fn row_change(w: SceneWorld, session: SessionId, row: RawChangeView) -> ChangeView {
    ChangeView {
        node: row_ref(w, session, row),
        kind: row.kind,
        change_count: row.change_count,
        generation: row.last_generation,
        node_kind: row_kind(w, row),
    }
}

/// The generation to read from; 0 without a cursor.
pub open spec fn since_generation(since: Option<Cursor>) -> u64 {
    match since {
        Some(c) => c.generation,
        None => 0,
    }
}

/// Whether a read can only say that changes were lost: the cursor is of another
/// session, or the buffer overflowed.
pub open spec fn view_lost(w: SceneWorld, session: SessionId, since: Option<Cursor>) -> bool {
    (since is Some && since->0.session != session) || w.watch->0.buffer.overflowed
}

/// The rows changed after `since` that pass the filters.
pub open spec fn passing_rows(
    w: SceneWorld,
    session: SessionId,
    since: Option<Cursor>,
    opts: WatchOpts,
) -> Seq<RawChangeView> {
    let root = watch_root(w, session, opts);
    w.watch->0.buffer.spec_rows().filter(
        |row: RawChangeView|
            row.last_generation > since_generation(since) && row_passes(w, opts, root, row),
    )
}

/// The rows that a read returns.
pub open spec fn returned_rows(
    w: SceneWorld,
    session: SessionId,
    since: Option<Cursor>,
    opts: WatchOpts,
) -> Seq<RawChangeView> {
    if view_lost(w, session, since) {
        seq![]
    } else {
        limited(passing_rows(w, session, since, opts), opts.max_items)
    }
}

/// The changes that a read returns.
pub open spec fn page_changes(
    w: SceneWorld,
    session: SessionId,
    since: Option<Cursor>,
    opts: WatchOpts,
) -> Seq<ChangeView> {
    returned_rows(w, session, since, opts).map_values(
        |row: RawChangeView| row_change(w, session, row),
    )
}

/// Whether a row is not among the given ones.
pub open spec fn not_among(rows: Seq<RawChangeView>) -> spec_fn(RawChangeView) -> bool {
    |row: RawChangeView| !rows.contains(row)
}

/// The rows that a read leaves in the buffer: those that it did not return.
pub open spec fn rows_left(
    w: SceneWorld,
    session: SessionId,
    since: Option<Cursor>,
    opts: WatchOpts,
) -> Seq<RawChangeView> {
    w.watch->0.buffer.spec_rows().filter(not_among(returned_rows(w, session, since, opts)))
}

fn holds_event(list: &Vec<ChangeKind>, k: ChangeKind) -> (r: bool)
    ensures
        r == list@.contains(k),
{
    let mut i: usize = 0;
    while i < list.len()
        invariant
            i <= list@.len(),
            forall|j: int| 0 <= j < i ==> list@[j] != k,
        decreases list@.len() - i,
    {
        if list[i] == k {
            return true;
        }
        i = i + 1;
    }
    false
}

/// Whether `e` is `ancestor` or stands below it.
pub fn is_descendant_of(sw: &SceneWorld, e: Entity, ancestor: Entity) -> (r: bool)
    requires
        sw.wf(),
    ensures
        r == sw.tree.under(e, ancestor),
{
    let chain = sw.tree.chain_of(e);
    crate::agent::scene::holds(&chain, ancestor)
}

fn kind_for(sw: &SceneWorld, row: &RawChange) -> (r: Option<NodeKind>)
    ensures
        r == row_kind(*sw, row@),
{
    match row.kind {
        ChangeKind::Removed => None,
        _ => sw.tree.kind_of(row.entity),
    }
}

fn passes(sw: &SceneWorld, opts: &WatchOpts, root: Option<Entity>, row: &RawChange) -> (r: bool)
    requires
        sw.wf(),
    ensures
        r == row_passes(*sw, *opts, root, row@),
{
    if opts.events.len() != 0 && !holds_event(&opts.events, row.kind) {
        return false;
    }
    if !passes_kinds(&opts.kinds, kind_for(sw, row)) {
        return false;
    }
    if opts.under.is_none() || row.pre_resolved.is_some() {
        return true;
    }
    match root {
        Some(root) => is_descendant_of(sw, row.entity, root),
        None => false,
    }
}

fn clone_ref(r: &Option<NodeRef>) -> (c: Option<NodeRef>)
    ensures
        opt_ref_view(c) == opt_ref_view(*r),
{
    match r {
        Some(r) => Some(r.clone()),
        None => None,
    }
}

fn change_for(sw: &SceneWorld, session: SessionId, row: &RawChange) -> (r: Change)
    requires
        sw.wf(),
    ensures
        r@ == row_change(*sw, session, row@),
{
    let captured = clone_ref(&row.pre_resolved);
    let node = match (captured, row.kind) {
        (Some(snapshot), ChangeKind::Removed) => snapshot,
        (captured, _) => match node_ref_for(sw, row.entity, session) {
            Some(r) => r,
            None => match captured {
                Some(r) => r,
                None => NodeRef::from_path(ScenePath::root()).with_cached(row.entity, session),
            },
        },
    };
    Change {
        node,
        kind: row.kind,
        change_count: row.change_count,
        generation: row.last_generation,
        node_kind: kind_for(sw, row),
    }
}

fn clone_row(row: &RawChange) -> (r: RawChange)
    ensures
        r@ == row@,
{
    RawChange {
        entity: row.entity,
        kind: row.kind,
        last_generation: row.last_generation,
        change_count: row.change_count,
        pre_resolved: clone_ref(&row.pre_resolved),
    }
}

/// The rows changed after `since_gen` that pass the filters.
pub open spec fn fresh_rows(
    w: SceneWorld,
    session: SessionId,
    since_gen: u64,
    opts: WatchOpts,
) -> spec_fn(RawChangeView) -> bool {
    |row: RawChangeView|
        row.last_generation > since_gen && row_passes(
            w,
            opts,
            watch_root(w, session, opts),
            row,
        )
}

/// Among distinct rows, the one at `i` is returned if and only if it passes and
/// the page is not full when it is reached.
proof fn lemma_returned(
    all: Seq<RawChangeView>,
    pred: spec_fn(RawChangeView) -> bool,
    max: u32,
    i: int,
)
    requires
        distinct_rows(all),
        0 <= i < all.len(),
    ensures
        limited(all.filter(pred), max).contains(all[i]) <==> pred(all[i]) && (max == 0 || all.take(
            i,
        ).filter(pred).len() < max),
{
    let whole = all.filter(pred);
    let before = all.take(i).filter(pred);
    let page = limited(whole, max);
    lemma_filter_prefix(all, i, pred);
    lemma_filter_prefix(all, i + 1, pred);
    lemma_filter_step(all, i, pred);
    lemma_filter_contains(all, pred, all[i]);
    let n = before.len() as int;
    if pred(all[i]) {
        assert(whole.take(n + 1)[n] == all[i]);
        assert(whole[n] == all[i]);
        if max == 0 || n < max {
            assert(page[n] == all[i]);
        } else if page.contains(all[i]) {
            let k = choose|k: int| 0 <= k < page.len() && page[k] == all[i];
            assert(whole.take(n)[k] == all[i]);
            assert(before.contains(all[i]));
            lemma_filter_contains(all.take(i), pred, all[i]);
            let j = choose|j: int| 0 <= j < i && all.take(i)[j] == all[i];
            assert(all[j].entity != all[i].entity);
        }
    } else if page.contains(all[i]) {
        let k = choose|k: int| 0 <= k < page.len() && page[k] == all[i];
        assert(whole[k] == all[i]);
        assert(whole.contains(all[i]));
    }
}

/// Parts the rows: the changes after `since_gen` that pass the filters, up to
/// `opts.max_items`, and copies of the rows that are left.
fn collect_changes(
    sw: &SceneWorld,
    session: SessionId,
    rows: &Vec<RawChange>,
    since_gen: u64,
    opts: &WatchOpts,
) -> (r: (Vec<Change>, Vec<RawChange>))
    requires
        sw.wf(),
        distinct_rows(row_views(rows@)),
    ensures
        ({
            let page = limited(
                row_views(rows@).filter(fresh_rows(*sw, session, since_gen, *opts)),
                opts.max_items,
            );
            &&& change_views(r.0@) == page.map_values(
                |row: RawChangeView| row_change(*sw, session, row),
            )
            &&& row_views(r.1@) == row_views(rows@).filter(not_among(page))
        }),
        r.1@.len() <= rows@.len(),
{
    let root = match &opts.under {
        Some(r) => r.resolve(sw, session),
        None => None,
    };
    let ghost pred = fresh_rows(*sw, session, since_gen, *opts);
    let ghost all = row_views(rows@);
    let ghost page = limited(all.filter(pred), opts.max_items);
    let ghost report = |row: RawChangeView| row_change(*sw, session, row);
    let ghost keep = not_among(page);
    let mut changes: Vec<Change> = Vec::new();
    let mut kept: Vec<RawChange> = Vec::new();
    let mut i: usize = 0;
    proof {
        reveal(Seq::filter);
        assert(all.take(0) =~= seq![]);
        assert(change_views(changes@) =~= limited(
            all.take(0).filter(pred),
            opts.max_items,
        ).map_values(report));
        assert(row_views(kept@) =~= all.take(0).filter(keep));
    }
    while i < rows.len()
        invariant
            sw.wf(),
            distinct_rows(all),
            root == watch_root(*sw, session, *opts),
            all == row_views(rows@),
            pred == fresh_rows(*sw, session, since_gen, *opts),
            page == limited(all.filter(pred), opts.max_items),
            keep == not_among(page),
            report == (|row: RawChangeView| row_change(*sw, session, row)),
            i <= rows@.len(),
            kept@.len() <= i,
            change_views(changes@) == limited(
                all.take(i as int).filter(pred),
                opts.max_items,
            ).map_values(report),
            row_views(kept@) == all.take(i as int).filter(keep),
        decreases rows@.len() - i,
    {
        let row = &rows[i];
        let ghost before = all.take(i as int).filter(pred);
        proof {
            lemma_filter_step(all, i as int, pred);
            lemma_filter_step(all, i as int, keep);
            lemma_returned(all, pred, opts.max_items, i as int);
            assert(all[i as int] == row@);
            assert(change_views(changes@).len() == changes@.len());
        }
        let full = opts.max_items != 0 && changes.len() >= opts.max_items as usize;
        if !full && row.last_generation > since_gen && passes(sw, opts, root, row) {
            let ghost old_changes = changes@;
            changes.push(change_for(sw, session, row));
            assert(change_views(changes@) =~= change_views(old_changes).push(report(row@)));
            assert(limited(before.push(row@), opts.max_items) =~= limited(
                before,
                opts.max_items,
            ).push(row@));
            assert(change_views(changes@) =~= limited(
                before.push(row@),
                opts.max_items,
            ).map_values(report));
        } else {
            let ghost old_kept = kept@;
            let copy = clone_row(row);
            kept.push(copy);
            assert(row_views(kept@) =~= row_views(old_kept).push(copy@));
            if full {
                assert(limited(before.push(row@), opts.max_items) =~= limited(
                    before,
                    opts.max_items,
                ));
            }
        }
        i = i + 1;
    }
    assert(all.take(i as int) =~= all);
    (changes, kept)
}

/// Reads the changes after `since` that pass the filters and drops those that it
/// returns from the buffer; what was filtered out or did not fit the page stays.
/// A cursor of another session, or an overflowed buffer, gives an empty page
/// that says so and drops nothing.
pub fn read_page(
    sw: &mut SceneWorld,
    session: SessionId,
    since: Option<Cursor>,
    opts: &WatchOpts,
) -> (r: WatchPage)
    requires
        old(sw).wf(),
        old(sw).watch is Some,
    ensures
        final(sw).wf(),
        final(sw).same_scene(*old(sw)),
        final(sw).pending == old(sw).pending,
        final(sw).watch is Some,
        final(sw).watch->0.generation == old(sw).watch->0.generation,
        final(sw).watch->0.replicated_op == old(sw).watch->0.replicated_op,
        final(sw).watch->0.removed_paths == old(sw).watch->0.removed_paths,
        final(sw).watch->0.buffer.capacity == old(sw).watch->0.buffer.capacity,
        final(sw).watch->0.buffer.session == old(sw).watch->0.buffer.session,
        final(sw).watch->0.buffer.overflowed == old(sw).watch->0.buffer.overflowed,
        final(sw).watch->0.buffer.spec_rows() == rows_left(*old(sw), session, since, *opts),
        r.buffer_overflow == view_lost(*old(sw), session, since),
        change_views(r.changes@) == page_changes(*old(sw), session, since, *opts),
        r.next_cursor == old(sw).spec_cursor(session),
        !r.has_more,
{
    let next_cursor = sw.current_cursor(session);
    let mismatch = match &since {
        Some(c) => !c.matches(session),
        None => false,
    };
    let since_gen = match &since {
        Some(c) => c.generation,
        None => 0,
    };
    let overflowed = match &sw.watch {
        Some(state) => state.buffer.overflowed,
        None => false,
    };
    if mismatch || overflowed {
        let r = WatchPage {
            changes: Vec::new(),
            next_cursor,
            has_more: false,
            buffer_overflow: true,
        };
        proof {
            let rows = sw.watch->0.buffer.spec_rows();
            assert(change_views(r.changes@) =~= page_changes(*sw, session, since, *opts));
            lemma_filter_all(rows, not_among(seq![]));
        }
        return r;
    }
    let (changes, kept) = match &sw.watch {
        Some(state) => collect_changes(sw, session, &state.buffer.rows, since_gen, opts),
        None => (Vec::new(), Vec::new()),
    };
    proof {
        let rows = sw.watch->0.buffer.spec_rows();
        let root = watch_root(*sw, session, *opts);
        assert(fresh_rows(*sw, session, since_gen, *opts) =~= (|row: RawChangeView|
            row.last_generation > since_generation(since) && row_passes(*sw, *opts, root, row)));
        lemma_filter_distinct_rows(rows, not_among(returned_rows(*sw, session, since, *opts)));
    }
    if let Some(state) = &mut sw.watch {
        state.buffer.rows = kept;
    }
    WatchPage { changes, next_cursor, has_more: false, buffer_overflow: false }
}

/// A filter that every element passes keeps the sequence.
proof fn lemma_filter_all(rows: Seq<RawChangeView>, pred: spec_fn(RawChangeView) -> bool)
    requires
        forall|row: RawChangeView| #[trigger] pred(row),
    ensures
        rows.filter(pred) == rows,
    decreases rows.len(),
{
    reveal(Seq::filter);
    if rows.len() > 0 {
        lemma_filter_all(rows.drop_last(), pred);
        assert(rows.drop_last().push(rows.last()) =~= rows);
    }
}

proof fn lemma_filter_distinct_rows(
    rows: Seq<RawChangeView>,
    pred: spec_fn(RawChangeView) -> bool,
)
    requires
        distinct_rows(rows),
    ensures
        distinct_rows(rows.filter(pred)),
    decreases rows.len(),
{
    reveal(Seq::filter);
    if rows.len() > 0 {
        let init = rows.drop_last();
        assert(distinct_rows(init));
        lemma_filter_distinct_rows(init, pred);
        let f = init.filter(pred);
        assert forall|i: int| 0 <= i < f.len() implies (#[trigger] f[i]).entity
            != rows.last().entity by {
            lemma_filter_contains(init, pred, f[i]);
            assert(f.contains(f[i]));
            let j = choose|j: int| 0 <= j < init.len() && init[j] == f[i];
            assert(rows[j].entity != rows[rows.len() - 1].entity);
        }
    }
}

/// Switches the change stream on.
pub struct WatchPlugin {
    pub session: SessionId,
    pub capacity: usize,
}

impl WatchPlugin {
    pub fn new(session: SessionId) -> (r: Self)
        ensures
            r.session == session,
            r.capacity == DEFAULT_WATCH_CAPACITY,
    {
        WatchPlugin { session, capacity: DEFAULT_WATCH_CAPACITY }
    }

    pub fn with_capacity(self, capacity: usize) -> (r: Self)
        ensures
            r.session == self.session,
            r.capacity == capacity,
    {
        WatchPlugin { session: self.session, capacity }
    }

    /// Gives the world a fresh change stream, and makes the scene's component
    /// types known by name.
    pub fn build(&self, sw: &mut SceneWorld)
        requires
            old(sw).wf(),
        ensures
            final(sw).wf(),
            final(sw).tree == old(sw).tree,
            final(sw).crdt == old(sw).crdt,
            final(sw).pending == old(sw).pending,
            entry_views(final(sw).registry@) == scene_types_registered(
                entry_views(old(sw).registry@),
            ),
            final(sw).watch is Some,
            final(sw).watch->0.stream() == (StreamView {
                rows: seq![],
                overflowed: false,
                generation: 0,
                removed: Map::empty(),
            }),
            final(sw).watch->0.replicated_op.0 is None,
            final(sw).watch->0.buffer.capacity == self.capacity,
            final(sw).watch->0.buffer.session == self.session,
    {
        sw.register_scene_types();
        let state = WatchState {
            generation: WorldGeneration(0),
            replicated_op: ReplicatedOpCursor(None),
            buffer: WatchBuffer::new(self.capacity, self.session),
            removed_paths: RemovedPaths { paths: HashMap::new() },
        };
        assert(state.stream().removed =~= Map::empty());
        sw.watch = Some(state);
    }
}

// ---------------------------------------------------------------------------
// Laws
// ---------------------------------------------------------------------------

/// What a read returned, no later read returns again: where the buffer of the
/// second world holds what a read of the first left, no row that the second read
/// returns was returned by the first.
pub proof fn no_row_is_returned_twice(
    first: SceneWorld,
    second: SceneWorld,
    session: SessionId,
    since: Option<Cursor>,
    opts: WatchOpts,
    later: Option<Cursor>,
    later_opts: WatchOpts,
    row: RawChangeView,
)
    requires
        second.watch->0.buffer.spec_rows() == rows_left(first, session, since, opts),
        returned_rows(first, session, since, opts).contains(row),
    ensures
        !returned_rows(second, session, later, later_opts).contains(row),
{
    lemma_returned_row(second, session, later, later_opts, row);
    lemma_filter_contains(
        first.watch->0.buffer.spec_rows(),
        not_among(returned_rows(first, session, since, opts)),
        row,
    );
}

/// Every row that a read returns was in the buffer, is newer than the cursor and
/// passes the filters.
proof fn lemma_returned_row(
    w: SceneWorld,
    session: SessionId,
    since: Option<Cursor>,
    opts: WatchOpts,
    row: RawChangeView,
)
    ensures
        returned_rows(w, session, since, opts).contains(row) ==> {
            &&& w.watch->0.buffer.spec_rows().contains(row)
            &&& row.last_generation > since_generation(since)
            &&& row_passes(w, opts, watch_root(w, session, opts), row)
        },
{
    let page = returned_rows(w, session, since, opts);
    if page.contains(row) {
        let root = watch_root(w, session, opts);
        let pred = |row: RawChangeView|
            row.last_generation > since_generation(since) && row_passes(w, opts, root, row);
        let k = choose|k: int| 0 <= k < page.len() && page[k] == row;
        assert(passing_rows(w, session, since, opts)[k] == row);
        assert(passing_rows(w, session, since, opts).contains(row));
        lemma_filter_contains(w.watch->0.buffer.spec_rows(), pred, row);
    }
}

/// Reading again with the same cursor and filters gives nothing, where the first
/// read had no limit and the scene is still the same: what was read is drained.
pub proof fn read_again_gives_nothing(
    first: SceneWorld,
    second: SceneWorld,
    session: SessionId,
    since: Option<Cursor>,
    opts: WatchOpts,
)
    requires
        !view_lost(first, session, since),
        opts.max_items == 0,
        second.same_scene(first),
        second.watch->0.buffer.spec_rows() == rows_left(first, session, since, opts),
    ensures
        page_changes(second, session, since, opts).len() == 0,
{
    let page = returned_rows(second, session, since, opts);
    if page.len() > 0 {
        let x = page[0];
        assert(page.contains(x));
        lemma_returned_row(second, session, since, opts, x);
        let rows = first.watch->0.buffer.spec_rows();
        let out = returned_rows(first, session, since, opts);
        lemma_filter_contains(rows, not_among(out), x);
        let root = watch_root(first, session, opts);
        let pred = |row: RawChangeView|
            row.last_generation > since_generation(since) && row_passes(first, opts, root, row);
        lemma_filter_contains(rows, pred, x);
    }
}

/// No change is lost by a read: each row is returned or stays.
pub proof fn read_loses_nothing(
    w: SceneWorld,
    session: SessionId,
    since: Option<Cursor>,
    opts: WatchOpts,
    row: RawChangeView,
)
    requires
        w.watch->0.buffer.spec_rows().contains(row),
    ensures
        returned_rows(w, session, since, opts).contains(row) != rows_left(
            w,
            session,
            since,
            opts,
        ).contains(row),
{
    lemma_filter_contains(
        w.watch->0.buffer.spec_rows(),
        not_among(returned_rows(w, session, since, opts)),
        row,
    );
}

/// A refused read says that changes were lost and loses none of what is there.
pub proof fn refused_read_keeps_rows(
    w: SceneWorld,
    session: SessionId,
    since: Option<Cursor>,
    opts: WatchOpts,
)
    requires
        view_lost(w, session, since),
    ensures
        rows_left(w, session, since, opts) == w.watch->0.buffer.spec_rows(),
{
    lemma_filter_all(w.watch->0.buffer.spec_rows(), not_among(seq![]));
}

/// Overflow stays once it is there, whatever messages come.
pub proof fn overflow_is_sticky(s: StreamView, capacity: usize, messages: Seq<GraphMessage>)
    requires
        s.overflowed,
    ensures
        stream_after(s, capacity, messages).overflowed,
    decreases messages.len(),
{
    if messages.len() > 0 {
        overflow_is_sticky(s, capacity, messages.drop_last());
    }
}

/// Whether one of the messages is about the node `e`.
pub open spec fn touches(messages: Seq<GraphMessage>, e: Entity) -> bool {
    exists|i: int|
        0 <= i < messages.len() && message_entity(#[trigger] messages[i]) == Some(e)
}

/// Messages raise the generation by one each.
pub proof fn lemma_generation(s: StreamView, capacity: usize, messages: Seq<GraphMessage>)
    requires
        s.generation + messages.len() <= u64::MAX,
    ensures
        stream_after(s, capacity, messages).generation == s.generation + messages.len(),
    decreases messages.len(),
{
    if messages.len() > 0 {
        lemma_generation(s, capacity, messages.drop_last());
    }
}

/// A cursor taken now separates what comes later: of the rows after some more
/// messages, those beyond the cursor's generation are exactly those of the
/// nodes that the messages are about.
pub proof fn later_changes_are_beyond_the_cursor(
    s: StreamView,
    capacity: usize,
    messages: Seq<GraphMessage>,
    i: int,
)
    requires
        distinct_rows(s.rows),
        s.generation + messages.len() <= u64::MAX,
        forall|k: int|
            0 <= k < s.rows.len() ==> (#[trigger] s.rows[k]).last_generation <= s.generation,
        0 <= i < stream_after(s, capacity, messages).rows.len(),
    ensures
        distinct_rows(stream_after(s, capacity, messages).rows),
        stream_after(s, capacity, messages).rows[i].last_generation > s.generation <==> touches(
            messages,
            stream_after(s, capacity, messages).rows[i].entity,
        ),
    decreases messages.len(),
{
    if messages.len() > 0 {
        let init = messages.drop_last();
        let prev = stream_after(s, capacity, init);
        let next = stream_after(s, capacity, messages);
        lemma_generation(s, capacity, init);
        if prev.rows.len() > 0 {
            later_changes_are_beyond_the_cursor(s, capacity, init, 0);
        }
        let e = next.rows[i].entity;
        lemma_touches_last(messages, e);
        match message_change(messages.last()) {
            None => {
                later_changes_are_beyond_the_cursor(s, capacity, init, i);
            },
            Some((entity, kind)) => {
                let pre = if kind == ChangeKind::Removed {
                    lookup(prev.removed, entity)
                } else {
                    None
                };
                lemma_row_index(prev.rows, entity);
                lemma_recorded_distinct(
                    prev.rows,
                    capacity,
                    entity,
                    kind,
                    next.generation,
                    pre,
                );
                if i < prev.rows.len() {
                    later_changes_are_beyond_the_cursor(s, capacity, init, i);
                    assert(next.rows[i].entity == prev.rows[i].entity);
                    match row_index(prev.rows, entity) {
                        Some(j) => {
                            if i < j {
                                assert(prev.rows[i].entity != prev.rows[j].entity);
                            } else if j < i {
                                assert(prev.rows[j].entity != prev.rows[i].entity);
                            }
                        },
                        None => {
                            assert(prev.rows[i].entity != entity);
                        },
                    }
                }
            },
        }
    }
}

proof fn lemma_touches_last(messages: Seq<GraphMessage>, e: Entity)
    requires
        messages.len() > 0,
    ensures
        touches(messages, e) <==> touches(messages.drop_last(), e) || message_entity(
            messages.last(),
        ) == Some(e),
{
    let init = messages.drop_last();
    if touches(init, e) {
        let i = choose|i: int|
            0 <= i < init.len() && message_entity(#[trigger] init[i]) == Some(e);
        assert(messages[i] == init[i]);
    }
    if touches(messages, e) {
        let i = choose|i: int|
            0 <= i < messages.len() && message_entity(#[trigger] messages[i]) == Some(e);
        if i < init.len() {
            assert(init[i] == messages[i]);
        }
    }
    assert(messages[messages.len() - 1] == messages.last());
}

/// Whether no row is about `e`.
pub open spec fn no_row_for(rows: Seq<RawChangeView>, e: Entity) -> bool {
    forall|i: int| 0 <= i < rows.len() ==> (#[trigger] rows[i]).entity != e
}

/// The first change of a node gets a row of its own at the end, which says what
/// happened: a new node is added, a node that is gone is removed, one whose data
/// changed is modified, one whose place changed is moved. The row counts one
/// change and has the generation that the message brings.
pub proof fn first_change_is_recorded(s: StreamView, capacity: usize, message: GraphMessage, e: Entity)
    requires
        no_row_for(s.rows, e),
        s.rows.len() < capacity,
        s.generation < u64::MAX,
    ensures
        ({
            let after = stream_step(s, capacity, message);
            let row = after.rows.last();
            &&& message == (GraphMessage::NodeAdded { entity: e }) ==> row.kind == ChangeKind::Added
            &&& message == (GraphMessage::NodeRemoved { entity: e }) ==> row.kind
                == ChangeKind::Removed
            &&& message == (GraphMessage::NodeChanged { entity: e }) ==> row.kind
                == ChangeKind::Modified
            &&& message == (GraphMessage::TreePositionChanged { entity: e }) ==> row.kind
                == ChangeKind::Moved
            &&& message == (GraphMessage::NodeAdded { entity: e }) || message == (
            GraphMessage::NodeRemoved { entity: e }) || message == (GraphMessage::NodeChanged {
                entity: e,
            }) || message == (GraphMessage::TreePositionChanged { entity: e }) ==> {
                &&& after.rows.len() == s.rows.len() + 1
                &&& after.rows.drop_last() == s.rows
                &&& row.entity == e
                &&& row.change_count == 1
                &&& row.last_generation == s.generation + 1
                &&& after.overflowed == s.overflowed
            }
            &&& message == (GraphMessage::NodeRemoved { entity: e }) ==> {
                &&& s.removed.dom().contains(e) ==> row.pre_resolved == Some(s.removed[e])
                &&& !s.removed.dom().contains(e) ==> row.pre_resolved is None
                &&& !after.removed.dom().contains(e)
            }
        }),
{
    lemma_row_index(s.rows, e);
    if let Some(i) = row_index(s.rows, e) {
        assert(s.rows[i].entity == e);
    }
    assert(stream_step(s, capacity, message).rows.drop_last() =~= s.rows || message_entity(message)
        != Some(e));
}

/// A further change of a node folds into its row: the row counts one more change
/// and has the new generation; what is removed is removed; what was removed or
/// changed and is added again is added; what is new stays new however it is
/// changed or moved; any other mixture is a modification. Every other row stays.
pub proof fn further_change_is_folded(
    s: StreamView,
    capacity: usize,
    message: GraphMessage,
    i: int,
    j: int,
)
    requires
        distinct_rows(s.rows),
        0 <= i < s.rows.len(),
        s.generation < u64::MAX,
        s.rows[i].change_count < u32::MAX,
        message_names(message, s.rows[i].entity),
    ensures
        ({
            let e = s.rows[i].entity;
            let after = stream_step(s, capacity, message);
            let row = after.rows[i];
            &&& after.rows.len() == s.rows.len()
            &&& 0 <= j < s.rows.len() && j != i ==> after.rows[j] == s.rows[j]
            &&& after.overflowed == s.overflowed
            &&& row.entity == e
            &&& row.change_count == s.rows[i].change_count + 1
            &&& row.last_generation == s.generation + 1
            &&& message == (GraphMessage::NodeRemoved { entity: e }) ==> row.kind
                == ChangeKind::Removed
            &&& message == (GraphMessage::NodeAdded { entity: e }) ==> row.kind == ChangeKind::Added
            &&& message == (GraphMessage::NodeChanged { entity: e }) || message == (
            GraphMessage::TreePositionChanged { entity: e }) ==> row.kind == (if s.rows[i].kind
                == ChangeKind::Added {
                ChangeKind::Added
            } else {
                ChangeKind::Modified
            })
            &&& message == (GraphMessage::NodeRemoved { entity: e }) && s.removed.dom().contains(e)
                ==> row.pre_resolved == Some(s.removed[e])
            &&& message != (GraphMessage::NodeRemoved { entity: e }) || !s.removed.dom().contains(e)
                ==> row.pre_resolved == s.rows[i].pre_resolved
        }),
{
    lemma_row_index_at(s.rows, i);
}

/// Whether a message says that the node `e` came, went, changed or moved.
pub open spec fn message_names(message: GraphMessage, e: Entity) -> bool {
    ||| message == (GraphMessage::NodeAdded { entity: e })
    ||| message == (GraphMessage::NodeRemoved { entity: e })
    ||| message == (GraphMessage::NodeChanged { entity: e })
    ||| message == (GraphMessage::TreePositionChanged { entity: e })
}

/// A change that finds the buffer full and has no row yet is lost: the rows stay
/// and the overflow is flagged. Nothing else flags it.
pub proof fn full_buffer_overflows(s: StreamView, capacity: usize, message: GraphMessage, e: Entity)
    requires
        message_names(message, e),
    ensures
        no_row_for(s.rows, e) && s.rows.len() >= capacity ==> {
            &&& stream_step(s, capacity, message).overflowed
            &&& stream_step(s, capacity, message).rows == s.rows
        },
        !no_row_for(s.rows, e) || s.rows.len() < capacity ==> stream_step(
            s,
            capacity,
            message,
        ).overflowed == s.overflowed,
{
    lemma_row_index(s.rows, e);
    if let Some(i) = row_index(s.rows, e) {
        assert(s.rows[i].entity == e);
    }
}

/// Messages about edges, links and propagation raise the generation and leave
/// the rows as they are.
pub proof fn other_messages_only_count(s: StreamView, capacity: usize, message: GraphMessage)
    requires
        forall|e: Entity| !message_names(message, e),
        s.generation < u64::MAX,
    ensures
        stream_step(s, capacity, message) == (StreamView {
            generation: (s.generation + 1) as u64,
            ..s
        }),
{
    match message {
        GraphMessage::NodeAdded { entity } => {
            assert(message_names(message, entity));
        },
        GraphMessage::NodeRemoved { entity } => {
            assert(message_names(message, entity));
        },
        GraphMessage::NodeChanged { entity } => {
            assert(message_names(message, entity));
        },
        GraphMessage::TreePositionChanged { entity } => {
            assert(message_names(message, entity));
        },
        _ => {},
    }
}

/// Whether a row passes the filters of a read, told by what they are for: the
/// change is of a kind asked for; the node is of a variant asked for, which a
/// node that is gone never is; and the node stands under the one asked for, or
/// is gone with a reference captured.
pub open spec fn row_is_asked_for(
    w: SceneWorld,
    session: SessionId,
    opts: WatchOpts,
    row: RawChangeView,
) -> bool {
    &&& opts.events@.len() > 0 ==> exists|i: int|
        0 <= i < opts.events@.len() && #[trigger] opts.events@[i] == row.kind
    &&& opts.kinds@.len() > 0 ==> row.kind != ChangeKind::Removed && w.tree.alive(row.entity)
        && exists|i: int|
        0 <= i < opts.kinds@.len() && Some(#[trigger] opts.kinds@[i]) == w.tree.rec(row.entity).kind
    &&& opts.under is Some ==> row.pre_resolved is Some || (resolved_ref(
        w,
        opts.under->0@,
        session,
    ) is Some && w.tree.under(row.entity, resolved_ref(w, opts.under->0@, session)->0))
}

proof fn lemma_asked_for(w: SceneWorld, session: SessionId, opts: WatchOpts, row: RawChangeView)
    ensures
        row_passes(w, opts, watch_root(w, session, opts), row) <==> row_is_asked_for(
            w,
            session,
            opts,
            row,
        ),
{
    let events = opts.events@;
    let kinds = opts.kinds@;
    if events.contains(row.kind) {
        let i = choose|i: int| 0 <= i < events.len() && events[i] == row.kind;
        assert(events[i] == row.kind);
    }
    if row_kind(w, row) is Some && kinds.contains(row_kind(w, row)->0) {
        let i = choose|i: int| 0 <= i < kinds.len() && kinds[i] == row_kind(w, row)->0;
        assert(Some(kinds[i]) == w.tree.rec(row.entity).kind);
    }
    if w.tree.alive(row.entity) && exists|i: int|
        0 <= i < kinds.len() && Some(#[trigger] kinds[i]) == w.tree.rec(row.entity).kind {
        let i = choose|i: int|
            0 <= i < kinds.len() && Some(#[trigger] kinds[i]) == w.tree.rec(row.entity).kind;
        assert(kinds.contains(kinds[i]));
    }
}

/// Every change on a page tells a row of the buffer that is newer than the
/// cursor and was asked for, as it is: with its kind, its count and its
/// generation. A page has no more changes than were asked for, and none at all
/// where changes were lost.
pub proof fn page_tells_rows(
    w: SceneWorld,
    session: SessionId,
    since: Option<Cursor>,
    opts: WatchOpts,
    k: int,
)
    requires
        0 <= k < page_changes(w, session, since, opts).len(),
    ensures
        !w.watch->0.buffer.overflowed,
        since matches Some(c) ==> c.session == session,
        opts.max_items != 0 ==> page_changes(w, session, since, opts).len() <= opts.max_items,
        exists|j: int|
            #![trigger w.watch->0.buffer.rows@[j]]
            0 <= j < w.watch->0.buffer.rows@.len() && {
                let row = w.watch->0.buffer.rows@[j];
                let told = page_changes(w, session, since, opts)[k];
                &&& told.kind == row.kind
                &&& told.change_count == row.change_count
                &&& told.generation == row.last_generation
                &&& told.node == row_ref(w, session, row@)
                &&& told.node_kind == (if row.kind == ChangeKind::Removed || !w.tree.alive(
                    row.entity,
                ) {
                    None
                } else {
                    w.tree.rec(row.entity).kind
                })
                &&& since matches Some(c) ==> row.last_generation > c.generation
                &&& since is None ==> row.last_generation > 0
                &&& row_is_asked_for(w, session, opts, row@)
            },
{
    let rows = w.watch->0.buffer.spec_rows();
    let row = returned_rows(w, session, since, opts)[k];
    assert(returned_rows(w, session, since, opts).contains(row));
    lemma_returned_row(w, session, since, opts, row);
    lemma_asked_for(w, session, opts, row);
    let j = choose|j: int| 0 <= j < rows.len() && rows[j] == row;
    assert(w.watch->0.buffer.rows@[j]@ == row);
}

/// Without a cap a page leaves nothing out: every row that is newer than the
/// cursor and was asked for is told, provided that no changes were lost.
pub proof fn page_leaves_nothing_out(
    w: SceneWorld,
    session: SessionId,
    since: Option<Cursor>,
    opts: WatchOpts,
    j: int,
)
    requires
        opts.max_items == 0,
        !w.watch->0.buffer.overflowed,
        since matches Some(c) ==> c.session == session,
        0 <= j < w.watch->0.buffer.rows@.len(),
        w.watch->0.buffer.rows@[j].last_generation > 0,
        since matches Some(c) ==> w.watch->0.buffer.rows@[j].last_generation > c.generation,
        row_is_asked_for(w, session, opts, w.watch->0.buffer.rows@[j]@),
    ensures
        exists|k: int|
            0 <= k < page_changes(w, session, since, opts).len() && (#[trigger] page_changes(
                w,
                session,
                since,
                opts,
            )[k]).kind == w.watch->0.buffer.rows@[j].kind && page_changes(
                w,
                session,
                since,
                opts,
            )[k].node == row_ref(w, session, w.watch->0.buffer.rows@[j]@),
{
    let rows = w.watch->0.buffer.spec_rows();
    let row = rows[j];
    let root = watch_root(w, session, opts);
    assert(row == w.watch->0.buffer.rows@[j]@);
    lemma_asked_for(w, session, opts, row);
    assert(rows.contains(row));
    lemma_filter_contains(
        rows,
        |r: RawChangeView|
            r.last_generation > since_generation(since) && row_passes(w, opts, root, r),
        row,
    );
    let told = returned_rows(w, session, since, opts);
    let k = choose|k: int| 0 <= k < told.len() && told[k] == row;
    assert(page_changes(w, session, since, opts)[k] == row_change(w, session, row));
}

/// A read says that changes were lost exactly where its cursor is of another
/// session or the buffer has overflowed.
pub proof fn loss_is_told(w: SceneWorld, session: SessionId, since: Option<Cursor>, opts: WatchOpts)
    ensures
        view_lost(w, session, since) <==> w.watch->0.buffer.overflowed || (since is Some
            && since->0.session != session),
        view_lost(w, session, since) ==> page_changes(w, session, since, opts).len() == 0,
{
}

/// A change is told by a reference that helps: a live node by its own reference;
/// a node that is gone by the one captured before it went; where there is
/// neither, by one that names the entity and the session.
pub proof fn change_is_told_by_reference(w: SceneWorld, session: SessionId, row: RawChangeView)
    ensures
        row.kind != ChangeKind::Removed && node_ref(w, row.entity, session) is Some ==> row_ref(
            w,
            session,
            row,
        ) == node_ref(w, row.entity, session)->0,
        row.kind == ChangeKind::Removed && row.pre_resolved is Some ==> row_ref(w, session, row)
            == row.pre_resolved->0,
        node_ref(w, row.entity, session) is None && row.pre_resolved is Some ==> row_ref(
            w,
            session,
            row,
        ) == row.pre_resolved->0,
        node_ref(w, row.entity, session) is None && row.pre_resolved is None ==> {
            let r = row_ref(w, session, row);
            r.entity == Some(row.entity) && r.session == Some(session) && r.path.len() == 0
                && r.crdt_id is None
        },
{
}

/// The reference captured for a node about to go names its entity and its
/// replicated identity, and its path has one segment for each entity from the
/// outermost ancestor down to it: the name of the entity where it has one, else
/// its order key.
pub proof fn captured_path_labels_the_way(w: SceneWorld, e: Entity, session: SessionId, i: int)
    requires
        w.wf(),
        0 <= i < w.tree.chain(e).len(),
    ensures
        ({
            let r = removal_ref(w, e, false, session);
            let x = w.tree.chain(e)[i];
            &&& r.entity == Some(e)
            &&& r.session == Some(session)
            &&& r.crdt_id == w.entity_node(e)
            &&& r.path.len() == w.tree.chain(e).len()
            &&& w.tree.title(x) matches Some(name) ==> r.path[i] == (PathPartView::Named {
                name,
                index: 0,
            })
            &&& w.tree.title(x) is None && w.tree.key(x) is Some ==> r.path[i] == (
            PathPartView::Ordered { key: w.tree.key(x)->0 })
        }),
        removal_ref(w, e, true, session).path.len() == 1,
        removal_ref(w, e, true, session).path[0] == removal_ref(w, e, false, session).path.last(),
        removal_ref(w, e, true, session).entity == Some(e),
{
    w.tree.lemma_chain_last(e);
}

/// Messages are taken in one after the other, in the order in which they came,
/// and each raises the generation by one.
pub proof fn messages_are_taken_in_order(
    s: StreamView,
    capacity: usize,
    messages: Seq<GraphMessage>,
    last: GraphMessage,
)
    ensures
        stream_after(s, capacity, Seq::<GraphMessage>::empty()) == s,
        stream_after(s, capacity, messages.push(last)) == stream_step(
            stream_after(s, capacity, messages),
            capacity,
            last,
        ),
        s.generation < u64::MAX ==> stream_step(s, capacity, last).generation == s.generation + 1,
        s.generation == u64::MAX ==> stream_step(s, capacity, last).generation == u64::MAX,
{
    assert(messages.push(last).drop_last() =~= messages);
}

/// A cap cuts off the end of a page and nothing else: what a page tells with one
/// is the beginning of what it tells without.
pub proof fn page_cap_cuts_the_end(
    w: SceneWorld,
    session: SessionId,
    since: Option<Cursor>,
    opts: WatchOpts,
    i: int,
)
    ensures
        ({
            let all = page_changes(w, session, since, WatchOpts { max_items: 0, ..opts });
            let some = page_changes(w, session, since, opts);
            &&& opts.max_items == 0 || all.len() <= opts.max_items ==> some.len() == all.len()
            &&& opts.max_items != 0 && all.len() > opts.max_items ==> some.len() == opts.max_items
            &&& 0 <= i < some.len() ==> some[i] == all[i]
        }),
{
    let free = WatchOpts { max_items: 0, ..opts };
    let root = watch_root(w, session, opts);
    let rows = w.watch->0.buffer.spec_rows();
    let a = |row: RawChangeView|
        row.last_generation > since_generation(since) && row_passes(w, opts, root, row);
    let b = |row: RawChangeView|
        row.last_generation > since_generation(since) && row_passes(w, free, root, row);
    assert(watch_root(w, session, free) == root);
    crate::seqs::lemma_filter_agrees(rows, a, b);
    assert(passing_rows(w, session, since, free) == passing_rows(w, session, since, opts));
}

/// Changes are told in the order in which the nodes first changed since the
/// buffer was last read: a page keeps the order of the rows.
pub proof fn page_keeps_the_order(
    w: SceneWorld,
    session: SessionId,
    since: Option<Cursor>,
    opts: WatchOpts,
    i: int,
    j: int,
)
    requires
        0 <= i < j < returned_rows(w, session, since, opts).len(),
    ensures
        exists|a: int, b: int|
            0 <= a < b < w.watch->0.buffer.rows@.len() && #[trigger] w.watch->0.buffer.rows@[a]@
                == returned_rows(w, session, since, opts)[i] && #[trigger] w.watch->0.buffer.rows@[b]@
                == returned_rows(w, session, since, opts)[j],
{
    let rows = w.watch->0.buffer.spec_rows();
    let root = watch_root(w, session, opts);
    let pred = |row: RawChangeView|
        row.last_generation > since_generation(since) && row_passes(w, opts, root, row);
    let (a, b) = lemma_filter_order(rows, pred, i, j);
    assert(w.watch->0.buffer.rows@[a]@ == rows[a]);
    assert(w.watch->0.buffer.rows@[b]@ == rows[b]);
}

/// Where two rows that pass a filter come from.
proof fn lemma_filter_order(
    rows: Seq<RawChangeView>,
    pred: spec_fn(RawChangeView) -> bool,
    i: int,
    j: int,
) -> (r: (int, int))
    requires
        0 <= i < j < rows.filter(pred).len(),
    ensures
        0 <= r.0 < r.1 < rows.len(),
        rows[r.0] == rows.filter(pred)[i],
        rows[r.1] == rows.filter(pred)[j],
    decreases rows.len(),
{
    reveal(Seq::filter);
    let init = rows.drop_last();
    let kept = init.filter(pred);
    if j < kept.len() {
        lemma_filter_order(init, pred, i, j)
    } else {
        assert(kept.contains(kept[i]));
        lemma_filter_contains(init, pred, kept[i]);
        let a = choose|a: int| 0 <= a < init.len() && init[a] == kept[i];
        (a, rows.len() - 1)
    }
}

/// A row counts its changes up to what 32 bits hold, and stays there.
pub proof fn count_stops_at_its_limit(s: StreamView, capacity: usize, message: GraphMessage, i: int)
    requires
        distinct_rows(s.rows),
        0 <= i < s.rows.len(),
        s.rows[i].change_count == u32::MAX,
        message_names(message, s.rows[i].entity),
    ensures
        stream_step(s, capacity, message).rows[i].change_count == u32::MAX,
{
    lemma_row_index_at(s.rows, i);
}

} // verus!
