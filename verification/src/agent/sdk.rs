//! The agent: a world and a session, with the verbs that read and change it.
use vstd::prelude::*;

use crate::agent::descriptor::{scene_descriptor, SceneGraphDescriptor};
use crate::agent::handle::{
    is_random_uuid, node_ref, node_ref_for, node_ref_or_root, node_ref_or_root_for, ref_views,
    resolved_target, target_view, Cursor, NodeRef, NodeTarget, SessionId,
};
use crate::agent::mutate::{
    create, delete, lemma_target_alive, move_node, update, CreateSpec, MoveSpec, MutateError,
    MutateResult, UpdatePatch,
};
use crate::agent::navigate::{nav_result, run_navigate, NavOpts};
use crate::agent::path::ScenePath;
use crate::agent::pattern::{
    match_refs, match_refs_views, match_views, run_match, spec_match_refs, spec_matches, Match,
    MatchRefs, MatchView, Pattern, PatternBuilder, PatternSpec,
};
use crate::agent::query::{query_matches, run_query, unknown_names, QueryResult, QuerySpec};
use crate::agent::scan::{
    build_scene_index, outline_starts, outlines_starts, ScanOpts, SceneIndex, SubtreeCost,
};
use crate::agent::scene::{
    ComponentKind, Entity, FrameData, Node, RectangleData, SceneTree, TextData,
};
use crate::agent::tools::{
    can_move, created, deleted, moved, reports_entity, stream_emptied, updated, walks_from,
    EntityReport, SceneMutate, SceneRead,
};
use crate::agent::walk::{
    entity_ref, run_traversal, run_walk, TraversalQuery, Visit, Walk, WalkOpts, WorldEntityRef,
};
use crate::agent::watch::{
    change_views, page_changes, page_tells_rows, read_page, rows_left, view_lost, StreamView,
    WatchOpts, WatchPage, WatchPlugin, DEFAULT_WATCH_CAPACITY,
};
use crate::agent::world::{
    component_named, entry_views, scene_types_are_known, scene_types_registered, SceneWorld,
};
use crate::seqs::{
    lemma_filter_ascends, lemma_filter_contains, lemma_filter_step, limited,
};
use crate::text::text_views;

verus! {

/// A world scoped to one session.
#[derive(Debug)]
pub struct SceneAgent {
    pub sw: SceneWorld,
    pub session: SessionId,
}

/// Read access to the tree and the edges at once.
pub struct SceneView<'a> {
    pub world: &'a SceneWorld,
}

impl SceneTree {
    /// The edges with both their ends set.
    pub open spec fn edge_ids(self) -> Seq<Entity> {
        self.ids().filter(|e: Entity| self.is_edge(e))
    }

    /// The entities that carry a frame.
    pub open spec fn frame_ids(self) -> Seq<Entity> {
        self.ids().filter(|e: Entity| self.alive(e) && self.rec(e).frame is Some)
    }

    /// The entities that carry a rectangle.
    pub open spec fn rectangle_ids(self) -> Seq<Entity> {
        self.ids().filter(|e: Entity| self.alive(e) && self.rec(e).rectangle is Some)
    }

    /// The entities that carry a text.
    pub open spec fn text_ids(self) -> Seq<Entity> {
        self.ids().filter(|e: Entity| self.alive(e) && self.rec(e).text is Some)
    }
}

impl<'a> SceneView<'a> {
    /// The number of edges.
    pub fn edge_count(&self) -> (r: usize)
        requires
            self.world.wf(),
        ensures
            r == self.world.tree.edge_ids().len(),
    {
        let tree = &self.world.tree;
        let ghost pred = |e: Entity| tree.is_edge(e);
        let mut n: usize = 0;
        let mut i: usize = 0;
        proof {
            reveal(Seq::filter);
            assert(tree.ids().take(0) =~= seq![]);
        }
        while i < tree.slots.len()
            invariant
                tree.wf(),
                i <= tree.slots@.len(),
                n <= i,
                pred == (|e: Entity| tree.is_edge(e)),
                n == tree.ids().take(i as int).filter(pred).len(),
            decreases tree.slots@.len() - i,
        {
            let e = i as u64;
            proof {
                assert(tree.ids()[i as int] == e);
                lemma_filter_step(tree.ids(), i as int, pred);
            }
            if let Some(rec) = tree.record(e) {
                if rec.scene_edge && rec.edge_from.is_some() && rec.edge_to.is_some() {
                    n = n + 1;
                }
            }
            i = i + 1;
        }
        assert(tree.ids().take(i as int) =~= tree.ids());
        n
    }

    /// The scene nodes from `start` down.
    pub fn traverse_tree(&self, start: Entity, query: TraversalQuery) -> (r: Vec<WorldEntityRef>)
        requires
            self.world.wf(),
            self.world.tree.alive(start),
        ensures
            r@ == self.world.tree.visits(start, query.order, query.max_depth).map_values(
                |v: Visit| entity_ref(*self.world, v),
            ),
    {
        run_traversal(self.world, start, query)
    }
}

impl SceneAgent {
    pub open spec fn wf(self) -> bool {
        self.sw.wf()
    }

    /// Whether this is an agent in a session of its own on an empty scene, with an
    /// empty change stream and the scene's component types known by name.
    pub open spec fn fresh(self) -> bool {
        &&& self.wf()
        &&& is_random_uuid(self.session.0)
        &&& self.sw.tree.slots@.len() == 0
        &&& self.sw.crdt is None
        &&& self.sw.pending@.len() == 0
        &&& entry_views(self.sw.registry@) == scene_types_registered(seq![])
        &&& self.sw.watch is Some
        &&& self.sw.watch->0.stream() == (StreamView {
            rows: seq![],
            overflowed: false,
            generation: 0,
            removed: Map::empty(),
        })
        &&& self.sw.watch->0.replicated_op.0 is None
        &&& self.sw.watch->0.buffer.capacity == DEFAULT_WATCH_CAPACITY
        &&& self.sw.watch->0.buffer.session == self.session
    }

    /// An agent on an empty scene, with its change stream on.
    pub fn new() -> (r: Self)
        ensures
            r.fresh(),
    {
        let session = SessionId::new();
        let mut sw = SceneWorld::new();
        assert(entry_views(sw.registry@) =~= seq![]);
        WatchPlugin::new(session).build(&mut sw);
        SceneAgent { sw, session }
    }

    /// An agent on a given scene, in a session of its own. Its change stream is as
    /// it is.
    pub fn from_scene_world(sw: SceneWorld) -> (r: Self)
        ensures
            r.sw == sw,
            is_random_uuid(r.session.0),
    {
        SceneAgent { sw, session: SessionId::new() }
    }

    /// The scene, to work on directly.
    pub fn scene_world(&mut self) -> (r: &mut SceneWorld)
        ensures
            *r == old(self).sw,
            final(self).sw == *final(r),
            final(self).session == old(self).session,
    {
        &mut self.sw
    }

    pub fn session(&self) -> (r: SessionId)
        ensures
            r == self.session,
    {
        self.session
    }

    /// Read access to the tree and the edges at once.
    pub fn scene_view(&self) -> (r: SceneView<'_>)
        ensures
            *r.world == self.sw,
    {
        SceneView { world: &self.sw }
    }

    fn resolve(&self, target: &NodeTarget) -> (r: Option<Entity>)
        requires
            self.wf(),
        ensures
            r == resolved_target(self.sw, target_view(*target), self.session),
            r is Some ==> self.sw.tree.alive(r->0),
    {
        let r = target.resolve(&self.sw, self.session);
        proof {
            if r is Some {
                lemma_target_alive(self.sw, *target, self.session);
            }
        }
        r
    }

    /// The reference to an entity.
    pub fn node_ref(&self, entity: Entity) -> (r: Option<NodeRef>)
        requires
            self.wf(),
        ensures
            r is Some <==> node_ref(self.sw, entity, self.session) is Some,
            r is Some ==> Some(r->0@) == node_ref(self.sw, entity, self.session),
    {
        node_ref_for(&self.sw, entity, self.session)
    }

    /// A full description of the scene.
    pub fn describe(&self) -> (r: SceneGraphDescriptor)
        requires
            self.wf(),
        ensures
            self.sw.tree.described(r.roots@, self.sw.tree.roots(), 0, self.sw.tree.all_levels()),
            r.metadata.root_count == self.sw.tree.roots().len(),
            r.metadata.max_depth == self.sw.tree.depth(),
    {
        scene_descriptor(&self.sw)
    }

    /// Every frame with its data.
    pub fn list_frames(&self) -> (r: Vec<(NodeRef, FrameData)>)
        requires
            self.wf(),
        ensures
            r@.len() == self.sw.tree.frame_ids().len(),
            forall|k: int|
                0 <= k < r@.len() ==> (#[trigger] r@[k]).0@ == node_ref_or_root(
                    self.sw,
                    self.sw.tree.frame_ids()[k],
                    self.session,
                ) && Some(r@[k].1.frame) == self.sw.tree.rec(self.sw.tree.frame_ids()[k]).frame,
    {
        let tree = &self.sw.tree;
        let ghost pred = |e: Entity| tree.alive(e) && tree.rec(e).frame is Some;
        let mut out: Vec<(NodeRef, FrameData)> = Vec::new();
        let mut i: usize = 0;
        proof {
            reveal(Seq::filter);
            assert(tree.ids().take(0) =~= seq![]);
        }
        while i < tree.slots.len()
            invariant
                self.wf(),
                *tree == self.sw.tree,
                i <= tree.slots@.len(),
                pred == (|e: Entity| tree.alive(e) && tree.rec(e).frame is Some),
                out@.len() == tree.ids().take(i as int).filter(pred).len(),
                forall|k: int|
                    0 <= k < out@.len() ==> (#[trigger] out@[k]).0@ == node_ref_or_root(
                        self.sw,
                        tree.ids().take(i as int).filter(pred)[k],
                        self.session,
                    ) && Some(out@[k].1.frame) == tree.rec(
                        tree.ids().take(i as int).filter(pred)[k],
                    ).frame,
            decreases tree.slots@.len() - i,
        {
            let e = i as u64;
            proof {
                assert(tree.ids()[i as int] == e);
                lemma_filter_step(tree.ids(), i as int, pred);
            }
            if let Some(rec) = tree.record(e) {
                if let Some(frame) = &rec.frame {
                    let node = node_ref_or_root_for(&self.sw, e, self.session);
                    out.push((node, FrameData { frame: frame.clone() }));
                }
            }
            i = i + 1;
        }
        assert(tree.ids().take(i as int) =~= tree.ids());
        out
    }

    /// Every rectangle with its data.
    pub fn list_rectangles(&self) -> (r: Vec<(NodeRef, RectangleData)>)
        requires
            self.wf(),
        ensures
            r@.len() == self.sw.tree.rectangle_ids().len(),
            forall|k: int|
                0 <= k < r@.len() ==> (#[trigger] r@[k]).0@ == node_ref_or_root(
                    self.sw,
                    self.sw.tree.rectangle_ids()[k],
                    self.session,
                ) && Some(r@[k].1.rectangle) == self.sw.tree.rec(
                    self.sw.tree.rectangle_ids()[k],
                ).rectangle,
    {
        let tree = &self.sw.tree;
        let ghost pred = |e: Entity| tree.alive(e) && tree.rec(e).rectangle is Some;
        let mut out: Vec<(NodeRef, RectangleData)> = Vec::new();
        let mut i: usize = 0;
        proof {
            reveal(Seq::filter);
            assert(tree.ids().take(0) =~= seq![]);
        }
        while i < tree.slots.len()
            invariant
                self.wf(),
                *tree == self.sw.tree,
                i <= tree.slots@.len(),
                pred == (|e: Entity| tree.alive(e) && tree.rec(e).rectangle is Some),
                out@.len() == tree.ids().take(i as int).filter(pred).len(),
                forall|k: int|
                    0 <= k < out@.len() ==> (#[trigger] out@[k]).0@ == node_ref_or_root(
                        self.sw,
                        tree.ids().take(i as int).filter(pred)[k],
                        self.session,
                    ) && Some(out@[k].1.rectangle) == tree.rec(
                        tree.ids().take(i as int).filter(pred)[k],
                    ).rectangle,
            decreases tree.slots@.len() - i,
        {
            let e = i as u64;
            proof {
                assert(tree.ids()[i as int] == e);
                lemma_filter_step(tree.ids(), i as int, pred);
            }
            if let Some(rec) = tree.record(e) {
                if let Some(rectangle) = rec.rectangle {
                    let node = node_ref_or_root_for(&self.sw, e, self.session);
                    out.push((node, RectangleData { rectangle }));
                }
            }
            i = i + 1;
        }
        assert(tree.ids().take(i as int) =~= tree.ids());
        out
    }

    /// Every text with its data.
    pub fn list_texts(&self) -> (r: Vec<(NodeRef, TextData)>)
        requires
            self.wf(),
        ensures
            r@.len() == self.sw.tree.text_ids().len(),
            forall|k: int|
                0 <= k < r@.len() ==> (#[trigger] r@[k]).0@ == node_ref_or_root(
                    self.sw,
                    self.sw.tree.text_ids()[k],
                    self.session,
                ) && Some(r@[k].1.text) == self.sw.tree.rec(self.sw.tree.text_ids()[k]).text,
    {
        let tree = &self.sw.tree;
        let ghost pred = |e: Entity| tree.alive(e) && tree.rec(e).text is Some;
        let mut out: Vec<(NodeRef, TextData)> = Vec::new();
        let mut i: usize = 0;
        proof {
            reveal(Seq::filter);
            assert(tree.ids().take(0) =~= seq![]);
        }
        while i < tree.slots.len()
            invariant
                self.wf(),
                *tree == self.sw.tree,
                i <= tree.slots@.len(),
                pred == (|e: Entity| tree.alive(e) && tree.rec(e).text is Some),
                out@.len() == tree.ids().take(i as int).filter(pred).len(),
                forall|k: int|
                    0 <= k < out@.len() ==> (#[trigger] out@[k]).0@ == node_ref_or_root(
                        self.sw,
                        tree.ids().take(i as int).filter(pred)[k],
                        self.session,
                    ) && Some(out@[k].1.text) == tree.rec(
                        tree.ids().take(i as int).filter(pred)[k],
                    ).text,
            decreases tree.slots@.len() - i,
        {
            let e = i as u64;
            proof {
                assert(tree.ids()[i as int] == e);
                lemma_filter_step(tree.ids(), i as int, pred);
            }
            if let Some(rec) = tree.record(e) {
                if let Some(text) = &rec.text {
                    let node = node_ref_or_root_for(&self.sw, e, self.session);
                    out.push((node, TextData { text: text.clone() }));
                }
            }
            i = i + 1;
        }
        assert(tree.ids().take(i as int) =~= tree.ids());
        out
    }

    /// The scene nodes from `root` down, with their identities.
    pub fn subtree(&self, root: NodeTarget, query: TraversalQuery) -> (r: Vec<WorldEntityRef>)
        requires
            self.wf(),
        ensures
            r@ == (match resolved_target(self.sw, target_view(root), self.session) {
                Some(e) => self.sw.tree.visits(e, query.order, query.max_depth).map_values(
                    |v: Visit| entity_ref(self.sw, v),
                ),
                None => seq![],
            }),
    {
        match self.resolve(&root) {
            Some(e) => run_traversal(&self.sw, e, query),
            None => Vec::new(),
        }
    }

    /// The scene nodes from `root` down that have data, with it.
    pub fn subtree_typed(&self, root: NodeTarget, query: TraversalQuery) -> (r: Vec<
        (WorldEntityRef, Node),
    >)
        requires
            self.wf(),
        ensures
            r@ == (match resolved_target(self.sw, target_view(root), self.session) {
                Some(e) => self.sw.tree.visits(e, query.order, query.max_depth).map_values(
                    |v: Visit| entity_ref(self.sw, v),
                ).filter(|x: WorldEntityRef| self.sw.tree.node(x.entity) is Some).map_values(
                    |x: WorldEntityRef| (x, self.sw.tree.node(x.entity)->0),
                ),
                None => seq![],
            }),
    {
        let rows = self.subtree(root, query);
        let ghost pred = |x: WorldEntityRef| self.sw.tree.node(x.entity) is Some;
        let ghost pair = |x: WorldEntityRef| (x, self.sw.tree.node(x.entity)->0);
        let mut out: Vec<(WorldEntityRef, Node)> = Vec::new();
        let mut i: usize = 0;
        proof {
            reveal(Seq::filter);
            assert(rows@.take(0) =~= seq![]);
            assert(out@ =~= rows@.take(0).filter(pred).map_values(pair));
        }
        while i < rows.len()
            invariant
                i <= rows@.len(),
                pred == (|x: WorldEntityRef| self.sw.tree.node(x.entity) is Some),
                pair == (|x: WorldEntityRef| (x, self.sw.tree.node(x.entity)->0)),
                out@ == rows@.take(i as int).filter(pred).map_values(pair),
            decreases rows@.len() - i,
        {
            let row = rows[i];
            proof {
                lemma_filter_step(rows@, i as int, pred);
            }
            if let Some(node) = self.sw.tree.materialize_at(row.entity) {
                out.push((row, node));
                assert(out@ =~= rows@.take(i + 1).filter(pred).map_values(pair));
            }
            i = i + 1;
        }
        proof {
            assert(rows@.take(i as int) =~= rows@);
            if rows@.len() == 0 {
                assert(out@ =~= seq![]);
            }
        }
        out
    }

    /// Every place where a pattern occurs, in terms of entities.
    pub fn find_matches(&self, pattern: &Pattern) -> (r: Vec<Match>)
        requires
            self.wf(),
            pattern.wf(),
        ensures
            match_views(r@) == self.sw.tree.matches(pattern@),
    {
        self.sw.tree.find_matches(pattern)
    }

    /// Every place where a pattern occurs, in terms of references.
    pub fn match_pattern(&self, pattern: &Pattern) -> (r: Vec<MatchRefs>)
        requires
            self.wf(),
            pattern.wf(),
        ensures
            match_refs_views(r@) == self.sw.tree.matches(pattern@).map_values(
                |m: MatchView| spec_match_refs(self.sw, self.session, m),
            ),
    {
        let raw = self.find_matches(pattern);
        let ghost all = match_views(raw@);
        let ghost refer = |m: MatchView| spec_match_refs(self.sw, self.session, m);
        let mut out: Vec<MatchRefs> = Vec::new();
        let mut i: usize = 0;
        while i < raw.len()
            invariant
                self.wf(),
                all == match_views(raw@),
                refer == (|m: MatchView| spec_match_refs(self.sw, self.session, m)),
                i <= raw@.len(),
                out@.len() == i,
                forall|k: int| 0 <= k < i ==> (#[trigger] out@[k])@ == refer(all[k]),
            decreases raw@.len() - i,
        {
            assert(all[i as int] == raw@[i as int]@);
            out.push(match_refs(&self.sw, self.session, &raw[i]));
            i = i + 1;
        }
        assert(match_refs_views(out@) =~= all.map_values(refer));
        out
    }

    /// A match in terms of references.
    pub fn match_refs(&self, m: &Match) -> (r: MatchRefs)
        requires
            self.wf(),
        ensures
            r@ == spec_match_refs(self.sw, self.session, m@),
    {
        match_refs(&self.sw, self.session, m)
    }

    pub fn pattern_builder() -> (r: PatternBuilder)
        ensures
            r.pattern.wf(),
            r.pattern.nodes == 0,
            r.pattern.edges@.len() == 0,
            r.pattern.anchors@.len() == 0,
            r.pattern.node_filters@.len() == 0,
            r.pattern.edge_filters@.len() == 0,
    {
        PatternBuilder::new()
    }
}

/// The verbs.
impl SceneAgent {
    /// The catalog and a depth-bounded outline. The reader starts afresh, so
    /// the change stream forgets what it holds.
    pub fn scan(&mut self, opts: ScanOpts) -> (r: SceneIndex)
        requires
            old(self).sw.wf(),
        ensures
            final(self).sw.wf(),
            final(self).session == old(self).session,
            stream_emptied(final(self).sw, old(self).sw),
            r.session == old(self).session,
            r.generation == old(self).sw.spec_generation(),
            r.catalog.describes(old(self).sw.tree),
            outlines_starts(
                old(self).sw,
                old(self).session,
                opts,
                r.roots@,
                outline_starts(old(self).sw, old(self).session, opts),
            ),
    {
        let r = build_scene_index(&self.sw, self.session, &opts);
        if let Some(state) = &mut self.sw.watch {
            state.buffer.reset();
        }
        r
    }

    /// The node, its data and the names of its components.
    pub fn inspect(&mut self, target: NodeTarget) -> (r: EntityReport)
        requires
            old(self).sw.wf(),
        ensures
            final(self).sw == old(self).sw,
            final(self).session == old(self).session,
            reports_entity(
                r,
                old(self).sw,
                old(self).session,
                resolved_target(old(self).sw, target_view(target), old(self).session),
            ),
    {
        match self.resolve(&target) {
            Some(e) => {
                let component_names = self.sw.component_names(e);
                let variant = self.sw.tree.materialize_at(e);
                let node = node_ref_or_root_for(&self.sw, e, self.session);
                EntityReport { node, entity_bits: Some(e), variant, component_names }
            },
            None => EntityReport {
                node: NodeRef::from_path(ScenePath::root()),
                entity_bits: None,
                variant: None,
                component_names: Vec::new(),
            },
        }
    }

    /// The subtree of `root`.
    pub fn walk(&mut self, root: NodeTarget, opts: WalkOpts) -> (r: Walk)
        requires
            old(self).sw.wf(),
        ensures
            final(self).sw == old(self).sw,
            final(self).session == old(self).session,
            walks_from(
                r,
                old(self).sw,
                old(self).session,
                resolved_target(old(self).sw, target_view(root), old(self).session),
                opts,
            ),
    {
        match self.resolve(&root) {
            Some(e) => run_walk(&self.sw, self.session, e, &opts),
            None => Walk {
                root: NodeRef::from_path(ScenePath::root()),
                rows: Vec::new(),
                truncated: false,
                cost: SubtreeCost { estimated_items: 0, estimated_work: 0 },
            },
        }
    }

    /// The nodes one or more hops away from `from`.
    pub fn navigate(&mut self, from: NodeTarget, opts: NavOpts) -> (r: Vec<NodeRef>)
        requires
            old(self).sw.wf(),
        ensures
            final(self).sw == old(self).sw,
            final(self).session == old(self).session,
            ref_views(r@) == (match resolved_target(
                old(self).sw,
                target_view(from),
                old(self).session,
            ) {
                Some(e) => nav_result(old(self).sw, e, opts).map_values(
                    |x: Entity| node_ref_or_root(old(self).sw, x, old(self).session),
                ),
                None => seq![],
            }),
    {
        match self.resolve(&from) {
            Some(e) => run_navigate(&self.sw, self.session, e, &opts),
            None => {
                let r: Vec<NodeRef> = Vec::new();
                assert(ref_views(r@) =~= seq![]);
                r
            },
        }
    }

    /// Every place where a pattern occurs.
    pub fn match_spec(&mut self, spec: &PatternSpec) -> (r: Vec<MatchRefs>)
        requires
            old(self).sw.wf(),
            spec.fits_slots(old(self).sw, old(self).session),
        ensures
            final(self).sw == old(self).sw,
            final(self).session == old(self).session,
            match_refs_views(r@) == spec_matches(
                old(self).sw,
                old(self).session,
                *spec,
            ).map_values(
                |m: MatchView| spec_match_refs(old(self).sw, old(self).session, m),
            ),
    {
        run_match(&self.sw, self.session, spec)
    }

    /// The changes after `since`.
    pub fn watch(&mut self, since: Option<Cursor>, opts: WatchOpts) -> (r: WatchPage)
        requires
            old(self).sw.wf(),
            old(self).sw.watch is Some,
        ensures
            final(self).sw.wf(),
            final(self).session == old(self).session,
            final(self).sw.same_scene(old(self).sw),
            final(self).sw.pending == old(self).sw.pending,
            final(self).sw.watch is Some,
            final(self).sw.watch->0.generation == old(self).sw.watch->0.generation,
            final(self).sw.watch->0.replicated_op == old(self).sw.watch->0.replicated_op,
            final(self).sw.watch->0.removed_paths == old(self).sw.watch->0.removed_paths,
            final(self).sw.watch->0.buffer.capacity == old(self).sw.watch->0.buffer.capacity,
            final(self).sw.watch->0.buffer.session == old(self).sw.watch->0.buffer.session,
            final(self).sw.watch->0.buffer.overflowed == old(self).sw.watch->0.buffer.overflowed,
            final(self).sw.watch->0.buffer.spec_rows() == rows_left(
                old(self).sw,
                old(self).session,
                since,
                opts,
            ),
            r.buffer_overflow == view_lost(old(self).sw, old(self).session, since),
            change_views(r.changes@) == page_changes(
                old(self).sw,
                old(self).session,
                since,
                opts,
            ),
            r.next_cursor == old(self).sw.spec_cursor(old(self).session),
            !r.has_more,
    {
        read_page(&mut self.sw, self.session, since, &opts)
    }

    /// The entities that carry the given components.
    pub fn query(&mut self, spec: QuerySpec) -> (r: QueryResult)
        requires
            old(self).sw.wf(),
        ensures
            final(self).sw == old(self).sw,
            final(self).session == old(self).session,
            ref_views(r.rows@) == limited(
                query_matches(old(self).sw, old(self).session, spec),
                spec.max_items,
            ).map_values(
                |e: Entity| node_ref_or_root(old(self).sw, e, old(self).session),
            ),
            r.truncated == (spec.max_items != 0 && query_matches(
                old(self).sw,
                old(self).session,
                spec,
            ).len() > spec.max_items),
            text_views(r.unknown_components@) == unknown_names(
                entry_views(old(self).sw.registry@),
                text_views(spec.without@),
            ) + unknown_names(entry_views(old(self).sw.registry@), text_views(spec.with@)),
    {
        run_query(&self.sw, self.session, &spec)
    }

    /// Adds a node.
    pub fn create(&mut self, spec: CreateSpec) -> (r: Result<MutateResult, MutateError>)
        requires
            old(self).sw.wf(),
            old(self).sw.tree.slots@.len() < u32::MAX,
        ensures
            final(self).sw.wf(),
            final(self).session == old(self).session,
            created(r, old(self).sw, final(self).sw, old(self).session, spec),
    {
        create(&mut self.sw, self.session, spec)
    }

    /// Applies a patch to a node.
    pub fn update(&mut self, target: NodeTarget, patch: UpdatePatch) -> (r: Result<
        MutateResult,
        MutateError,
    >)
        requires
            old(self).sw.wf(),
        ensures
            final(self).sw.wf(),
            final(self).session == old(self).session,
            updated(
                r,
                old(self).sw,
                final(self).sw,
                old(self).session,
                resolved_target(
                    old(self).sw,
                    target_view(target),
                    old(self).session,
                ),
                patch,
            ),
    {
        update(&mut self.sw, self.session, target, patch)
    }

    /// Removes a node and everything below it.
    pub fn delete(&mut self, target: NodeTarget) -> (r: Result<MutateResult, MutateError>)
        requires
            old(self).sw.wf(),
        ensures
            final(self).sw.wf(),
            final(self).session == old(self).session,
            deleted(
                r,
                old(self).sw,
                final(self).sw,
                old(self).session,
                resolved_target(
                    old(self).sw,
                    target_view(target),
                    old(self).session,
                ),
            ),
    {
        delete(&mut self.sw, self.session, target)
    }

    /// Moves a node under a new parent or to the roots.
    pub fn move_node(&mut self, spec: MoveSpec) -> (r: Result<MutateResult, MutateError>)
        requires
            old(self).sw.wf(),
            can_move(old(self).sw, old(self).session, spec),
        ensures
            final(self).sw.wf(),
            final(self).session == old(self).session,
            moved(r, old(self).sw, final(self).sw, old(self).session, spec),
    {
        move_node(&mut self.sw, self.session, spec)
    }
}

impl Default for SceneAgent {
    fn default() -> (r: Self)
        ensures
            r.fresh(),
    {
        SceneAgent::new()
    }
}

impl SceneRead for SceneAgent {
    open spec fn world(&self) -> SceneWorld {
        self.sw
    }

    open spec fn session_id(&self) -> SessionId {
        self.session
    }

    fn scan(&mut self, opts: ScanOpts) -> (r: SceneIndex) {
        self.scan(opts)
    }

    fn inspect(&mut self, target: NodeTarget) -> (r: EntityReport) {
        self.inspect(target)
    }

    fn walk(&mut self, root: NodeTarget, opts: WalkOpts) -> (r: Walk) {
        self.walk(root, opts)
    }

    fn navigate(&mut self, from: NodeTarget, opts: NavOpts) -> (r: Vec<NodeRef>) {
        self.navigate(from, opts)
    }

    fn match_spec(&mut self, spec: &PatternSpec) -> (r: Vec<MatchRefs>) {
        self.match_spec(spec)
    }

    fn watch(&mut self, since: Option<Cursor>, opts: WatchOpts) -> (r: WatchPage) {
        self.watch(since, opts)
    }

    fn query(&mut self, spec: QuerySpec) -> (r: QueryResult) {
        self.query(spec)
    }
}

impl SceneMutate for SceneAgent {
    open spec fn edited(&self) -> SceneWorld {
        self.sw
    }

    open spec fn edit_session(&self) -> SessionId {
        self.session
    }

    fn create(&mut self, spec: CreateSpec) -> (r: Result<MutateResult, MutateError>) {
        self.create(spec)
    }

    fn update(&mut self, target: NodeTarget, patch: UpdatePatch) -> (r: Result<
        MutateResult,
        MutateError,
    >) {
        self.update(target, patch)
    }

    fn delete(&mut self, target: NodeTarget) -> (r: Result<MutateResult, MutateError>) {
        self.delete(target)
    }

    fn move_node(&mut self, spec: MoveSpec) -> (r: Result<MutateResult, MutateError>) {
        self.move_node(spec)
    }
}

// ---------------------------------------------------------------------------
// Laws
// ---------------------------------------------------------------------------

impl SceneTree {
    /// The listings hold exactly the live entities that carry a frame, a
    /// rectangle or a text, and exactly the edges with both ends, each once and
    /// in the order of their handles.
    pub proof fn listings_are_exact(self, x: Entity, i: int, j: int)
        ensures
            self.frame_ids().contains(x) <==> self.alive(x) && self.rec(x).frame is Some,
            self.rectangle_ids().contains(x) <==> self.alive(x) && self.rec(x).rectangle is Some,
            self.text_ids().contains(x) <==> self.alive(x) && self.rec(x).text is Some,
            self.edge_ids().contains(x) <==> self.alive(x) && self.rec(x).scene_edge && self.rec(
                x,
            ).edge_from is Some && self.rec(x).edge_to is Some,
            self.slots@.len() <= u32::MAX ==> {
                &&& 0 <= i < j < self.frame_ids().len() ==> self.frame_ids()[i]
                    < self.frame_ids()[j]
                &&& 0 <= i < j < self.rectangle_ids().len() ==> self.rectangle_ids()[i]
                    < self.rectangle_ids()[j]
                &&& 0 <= i < j < self.text_ids().len() ==> self.text_ids()[i] < self.text_ids()[j]
                &&& 0 <= i < j < self.edge_ids().len() ==> self.edge_ids()[i] < self.edge_ids()[j]
            },
    {
        let ids = self.ids();
        let framed = |e: Entity| self.alive(e) && self.rec(e).frame is Some;
        let boxed = |e: Entity| self.alive(e) && self.rec(e).rectangle is Some;
        let written = |e: Entity| self.alive(e) && self.rec(e).text is Some;
        let linked = |e: Entity| self.is_edge(e);
        if self.alive(x) {
            assert(ids[x as int] == x);
        }
        lemma_filter_contains(ids, framed, x);
        lemma_filter_contains(ids, boxed, x);
        lemma_filter_contains(ids, written, x);
        lemma_filter_contains(ids, linked, x);
        if self.slots@.len() <= u32::MAX {
            lemma_filter_ascends(ids, framed, i, j);
            lemma_filter_ascends(ids, boxed, i, j);
            lemma_filter_ascends(ids, written, i, j);
            lemma_filter_ascends(ids, linked, i, j);
        }
    }
}

/// A fresh agent has an empty scene, no replicated identities, and a change stream
/// that has nothing to tell, has lost nothing, has the default room and belongs to
/// the agent's own session; and it knows the scene's component types by their
/// names.
pub proof fn fresh_agent_starts_empty(a: SceneAgent, opts: WatchOpts)
    requires
        a.fresh(),
    ensures
        a.sw.wf(),
        a.sw.tree.slots@.len() == 0,
        a.sw.crdt is None,
        a.sw.pending@.len() == 0,
        a.sw.watch is Some,
        a.sw.watch->0.buffer.rows@.len() == 0,
        !a.sw.watch->0.buffer.overflowed,
        a.sw.watch->0.buffer.capacity == 4096,
        a.sw.watch->0.buffer.session == a.session,
        a.sw.spec_cursor(a.session) == (Cursor {
            session: a.session,
            generation: 0,
            last_replicated_op: None,
        }),
        page_changes(a.sw, a.session, None, opts).len() == 0,
        component_named(entry_views(a.sw.registry@), "Frame"@) == Some(ComponentKind::Frame),
        component_named(entry_views(a.sw.registry@), "Text"@) == Some(ComponentKind::Text),
        component_named(entry_views(a.sw.registry@), "SceneNode"@) == Some(
            ComponentKind::SceneNode,
        ),
        component_named(entry_views(a.sw.registry@), "SceneEdge"@) == Some(
            ComponentKind::SceneEdge,
        ),
        component_named(entry_views(a.sw.registry@), "NodeKind"@) == Some(ComponentKind::NodeKind),
        component_named(entry_views(a.sw.registry@), "OrderKey"@) == Some(ComponentKind::OrderKey),
{
    scene_types_are_known();
    assert(a.sw.watch->0.stream().rows.len() == a.sw.watch->0.buffer.rows@.len());
    if page_changes(a.sw, a.session, None, opts).len() > 0 {
        page_tells_rows(a.sw, a.session, None, opts, 0);
    }
}

} // verus!
