//! Subtree traversal, bounded by depth and by number of rows.
use vstd::prelude::*;

use crate::agent::handle::{
    node_ref_or_root, node_ref_or_root_for, NodeRef, NodeRefView, SessionId,
};
use crate::agent::navigate::{kind_passes, lemma_of_kinds, of_kinds, passes_kinds};
use crate::agent::scan::SubtreeCost;
use crate::agent::scene::{record_node, CrdtId, Entity, Node, NodeKind, SceneTree};
use crate::agent::world::SceneWorld;
use crate::seqs::{
    lemma_concat_contains, lemma_concat_no_duplicates, lemma_filter_contains, lemma_filter_len,
    lemma_filter_prefix, lemma_filter_step, limited,
};
use crate::text::text_views;

verus! {

/// How much detail to embed in each row.
#[derive(Clone, Copy, Debug, PartialEq, Eq, Structural)]
pub enum NodeProjection {
    /// The reference and what is known of the structure.
    Ref,
    /// Also the node with its data.
    Variant,
    /// Also the names of the components.
    Full,
}

impl NodeProjection {
    pub fn wants_variant(self) -> (r: bool)
        ensures
            r == (self == NodeProjection::Variant || self == NodeProjection::Full),
    {
        match self {
            NodeProjection::Variant | NodeProjection::Full => true,
            NodeProjection::Ref => false,
        }
    }

    pub fn wants_component_names(self) -> (r: bool)
        ensures
            r == (self == NodeProjection::Full),
    {
        match self {
            NodeProjection::Full => true,
            _ => false,
        }
    }
}

#[derive(Clone, Copy, Debug, PartialEq, Eq, Structural)]
pub enum WalkStrategy {
    Dfs,
    Bfs,
}

/// The order of a traversal.
#[derive(Clone, Copy, Debug, PartialEq, Eq, Structural)]
pub enum Order {
    /// Each node before what stands below it, that before its next sibling.
    Dfs,
    /// Level by level.
    Bfs,
}

impl WalkStrategy {
    pub open spec fn spec_order(self) -> Order {
        match self {
            WalkStrategy::Dfs => Order::Dfs,
            WalkStrategy::Bfs => Order::Bfs,
        }
    }

    fn to_order(self) -> (r: Order)
        ensures
            r == self.spec_order(),
    {
        match self {
            WalkStrategy::Dfs => Order::Dfs,
            WalkStrategy::Bfs => Order::Bfs,
        }
    }
}

/// What to walk.
#[derive(Debug)]
pub struct WalkOpts {
    pub strategy: WalkStrategy,
    /// The deepest level to visit, counted from the root. `None` is all levels.
    pub depth_limit: Option<u32>,
    /// Confine the rows to these variants. Empty is all of them.
    pub kinds: Vec<NodeKind>,
    /// The most rows to return. 0 is all of them.
    pub max_items: u32,
    /// How much detail to embed in each row.
    pub projection: NodeProjection,
}

impl Default for WalkOpts {
    fn default() -> (r: Self)
        ensures
            r.strategy == WalkStrategy::Dfs,
            r.depth_limit is None,
            r.kinds@.len() == 0,
            r.max_items == 0,
            r.projection == NodeProjection::Ref,
    {
        WalkOpts {
            strategy: WalkStrategy::Dfs,
            depth_limit: None,
            kinds: Vec::new(),
            max_items: 0,
            projection: NodeProjection::Ref,
        }
    }
}

/// One visited node.
#[derive(Debug)]
pub struct WalkRow {
    pub node: NodeRef,
    pub kind: Option<NodeKind>,
    pub depth: u32,
    /// The node with its data, where that was asked for.
    pub variant: Option<Node>,
    /// The names of the components, where they were asked for.
    pub component_names: Option<Vec<String>>,
}

/// What a [`WalkRow`] holds.
#[verifier::ext_equal]
pub struct WalkRowView {
    pub node: NodeRefView,
    pub kind: Option<NodeKind>,
    pub depth: nat,
    pub variant: Option<Node>,
    pub component_names: Option<Seq<Seq<char>>>,
}

impl View for WalkRow {
    type V = WalkRowView;

    open spec fn view(&self) -> WalkRowView {
        WalkRowView {
            node: self.node@,
            kind: self.kind,
            depth: self.depth as nat,
            variant: self.variant,
            component_names: match self.component_names {
                Some(names) => Some(text_views(names@)),
                None => None,
            },
        }
    }
}

pub open spec fn walk_row_views(rows: Seq<WalkRow>) -> Seq<WalkRowView> {
    rows.map_values(|r: WalkRow| r@)
}

/// The result of a walk.
#[derive(Debug)]
pub struct Walk {
    pub root: NodeRef,
    pub rows: Vec<WalkRow>,
    /// There were more rows than `max_items`.
    pub truncated: bool,
    pub cost: SubtreeCost,
}

// ---------------------------------------------------------------------------
// Traversal
// ---------------------------------------------------------------------------

/// A traversal of the scene nodes below a start.
#[derive(Clone, Copy, Debug)]
pub struct TraversalQuery {
    pub order: Order,
    pub max_depth: Option<u32>,
}

impl TraversalQuery {
    pub fn new() -> (r: Self)
        ensures
            r.order == Order::Dfs,
            r.max_depth is None,
    {
        TraversalQuery { order: Order::Dfs, max_depth: None }
    }

    pub fn order(self, order: Order) -> (r: Self)
        ensures
            r.order == order,
            r.max_depth == self.max_depth,
    {
        TraversalQuery { order, max_depth: self.max_depth }
    }

    pub fn max_depth(self, depth: u32) -> (r: Self)
        ensures
            r.order == self.order,
            r.max_depth == Some(depth),
    {
        TraversalQuery { order: self.order, max_depth: Some(depth) }
    }
}

/// The identity of a visited node: replicated, or local to this world.
#[derive(Clone, Copy, Debug, PartialEq, Eq, Structural)]
pub enum NodeIdentity {
    Replicated(CrdtId),
    Local(Entity),
}

/// A visited node.
#[derive(Clone, Copy, Debug, PartialEq, Eq, Structural)]
pub struct WorldEntityRef {
    pub entity: Entity,
    pub id: NodeIdentity,
    pub parent: Option<Entity>,
    pub depth: u32,
}

/// A visited entity and its distance from the start.
pub struct Visit {
    pub entity: Entity,
    pub depth: nat,
}

impl SceneTree {
    /// Depth-first visits of the nodes of `list`, which stand at `depth`, and
    /// of the scene nodes below them, `levels` levels in all.
    pub open spec fn dfs_visits(self, list: Seq<Entity>, depth: nat, levels: nat) -> Seq<Visit>
        decreases levels, list.len(),
    {
        if levels == 0 || list.len() == 0 {
            seq![]
        } else {
            self.dfs_visits(list.drop_last(), depth, levels) + seq![
                Visit { entity: list.last(), depth },
            ] + self.dfs_visits(self.scene_kids(list.last()), depth + 1, (levels - 1) as nat)
        }
    }

    /// The scene children of the nodes of `list`, in order.
    pub open spec fn next_level(self, list: Seq<Entity>) -> Seq<Entity>
        decreases list.len(),
    {
        if list.len() == 0 {
            seq![]
        } else {
            self.next_level(list.drop_last()) + self.scene_kids(list.last())
        }
    }

    /// Breadth-first visits of the nodes of `list`, which stand at `depth`, and
    /// of the scene nodes below them, `levels` levels in all.
    pub open spec fn bfs_visits(self, list: Seq<Entity>, depth: nat, levels: nat) -> Seq<Visit>
        decreases levels,
    {
        if levels == 0 || list.len() == 0 {
            seq![]
        } else {
            list.map_values(|e: Entity| Visit { entity: e, depth }) + self.bfs_visits(
                self.next_level(list),
                depth + 1,
                (levels - 1) as nat,
            )
        }
    }

    /// The levels that a depth limit leaves: the root's and as many below it.
    pub open spec fn levels_for(self, max_depth: Option<u32>) -> nat {
        match max_depth {
            Some(d) => d as nat + 1,
            None => self.all_levels(),
        }
    }

    /// The visits of a traversal from `root`.
    pub open spec fn visits(self, root: Entity, order: Order, max_depth: Option<u32>) -> Seq<
        Visit,
    > {
        let levels = self.levels_for(max_depth);
        match order {
            Order::Dfs => self.dfs_visits(seq![root], 0, levels),
            Order::Bfs => self.bfs_visits(seq![root], 0, levels),
        }
    }

    pub proof fn lemma_scene_kids_reach(self, e: Entity, levels: nat)
        requires
            self.wf(),
            self.alive(e),
            levels > 0,
            self.chain(e).len() + levels > self.slots@.len(),
        ensures
            self.reaches(self.scene_kids(e), (levels - 1) as nat),
    {
        self.lemma_scene_kids(e);
    }

    proof fn lemma_reaches_drop_last(self, list: Seq<Entity>, levels: nat)
        requires
            self.reaches(list, levels),
            list.len() > 0,
        ensures
            self.reaches(list.drop_last(), levels),
    {
        assert forall|i: int| 0 <= i < list.drop_last().len() implies self.alive(
            #[trigger] list.drop_last()[i],
        ) && self.chain(list.drop_last()[i]).len() + levels > self.slots@.len() by {
            assert(list.drop_last()[i] == list[i]);
        }
    }

    proof fn lemma_dfs_stable(self, list: Seq<Entity>, depth: nat, n: nat, m: nat)
        requires
            self.wf(),
            self.reaches(list, n),
            n <= m,
        ensures
            self.dfs_visits(list, depth, n) == self.dfs_visits(list, depth, m),
        decreases n, list.len(),
    {
        if list.len() > 0 {
            let e = list.last();
            assert(self.alive(list[list.len() - 1]));
            self.lemma_chain_len(e);
            assert(n > 0);
            self.lemma_scene_kids_reach(e, n);
            self.lemma_dfs_stable(self.scene_kids(e), depth + 1, (n - 1) as nat, (m - 1) as nat);
            self.lemma_reaches_drop_last(list, n);
            self.lemma_dfs_stable(list.drop_last(), depth, n, m);
        }
    }

    proof fn lemma_next_level_reaches(self, list: Seq<Entity>, levels: nat)
        requires
            self.wf(),
            self.reaches(list, levels),
            levels > 0,
        ensures
            self.reaches(self.next_level(list), (levels - 1) as nat),
        decreases list.len(),
    {
        if list.len() > 0 {
            self.lemma_reaches_drop_last(list, levels);
            self.lemma_next_level_reaches(list.drop_last(), levels);
            assert(self.alive(list[list.len() - 1]));
            self.lemma_scene_kids_reach(list.last(), levels);
            let a = self.next_level(list.drop_last());
            let b = self.scene_kids(list.last());
            assert forall|i: int| 0 <= i < (a + b).len() implies self.alive(
                #[trigger] (a + b)[i],
            ) && self.chain((a + b)[i]).len() + (levels - 1) > self.slots@.len() by {
                if i < a.len() {
                    assert((a + b)[i] == a[i]);
                } else {
                    assert((a + b)[i] == b[i - a.len()]);
                }
            }
        }
    }

    proof fn lemma_bfs_stable(self, list: Seq<Entity>, depth: nat, n: nat, m: nat)
        requires
            self.wf(),
            self.reaches(list, n),
            n <= m,
        ensures
            self.bfs_visits(list, depth, n) == self.bfs_visits(list, depth, m),
        decreases n,
    {
        if list.len() > 0 {
            assert(self.alive(list[0]));
            self.lemma_chain_len(list[0]);
            assert(n > 0);
            self.lemma_next_level_reaches(list, n);
            self.lemma_bfs_stable(
                self.next_level(list),
                depth + 1,
                (n - 1) as nat,
                (m - 1) as nat,
            );
        }
    }

    /// Appends the depth-first visits of `list` to `out`.
    fn dfs_into(&self, list: &Vec<Entity>, depth: u64, levels: u64, out: &mut Vec<(Entity, u32)>)
        requires
            self.wf(),
            depth + levels <= self.slots@.len() + 1,
        ensures
            visit_views(final(out)@) == visit_views(old(out)@) + self.dfs_visits(
                list@,
                depth as nat,
                levels as nat,
            ),
        decreases levels,
    {
        let ghost before = visit_views(out@);
        if levels == 0 {
            assert(before + seq![] =~= before);
            return;
        }
        let mut i: usize = 0;
        proof {
            assert(list@.take(0) =~= seq![]);
            assert(before + seq![] =~= before);
        }
        while i < list.len()
            invariant
                self.wf(),
                0 < levels,
                depth + levels <= self.slots@.len() + 1,
                i <= list@.len(),
                visit_views(out@) == before + self.dfs_visits(
                    list@.take(i as int),
                    depth as nat,
                    levels as nat,
                ),
            decreases list@.len() - i,
        {
            let e = list[i];
            let ghost so_far = out@;
            out.push((e, depth as u32));
            assert(visit_views(out@) =~= visit_views(so_far).push(
                Visit { entity: e, depth: depth as nat },
            ));
            let kids = self.scene_kids_of(e);
            self.dfs_into(&kids, depth + 1, levels - 1, out);
            proof {
                let t = list@.take(i + 1);
                assert(t.drop_last() =~= list@.take(i as int));
                assert(t.last() == e);
                assert(visit_views(out@) =~= before + self.dfs_visits(
                    t,
                    depth as nat,
                    levels as nat,
                ));
            }
            i = i + 1;
        }
        assert(list@.take(i as int) =~= list@);
    }

    /// The breadth-first visits from `root`.
    fn bfs_from(&self, root: Entity, levels: u64) -> (out: Vec<(Entity, u32)>)
        requires
            self.wf(),
            levels <= self.slots@.len() + 1,
        ensures
            visit_views(out@) == self.bfs_visits(seq![root], 0, levels as nat),
    {
        let mut out: Vec<(Entity, u32)> = Vec::new();
        let mut level: Vec<Entity> = Vec::new();
        level.push(root);
        let mut depth: u64 = 0;
        proof {
            assert(level@ =~= seq![root]);
            assert(visit_views(out@) + self.bfs_visits(seq![root], 0, levels as nat)
                =~= self.bfs_visits(seq![root], 0, levels as nat));
        }
        while depth < levels && level.len() > 0
            invariant
                self.wf(),
                depth <= levels <= self.slots@.len() + 1,
                visit_views(out@) + self.bfs_visits(
                    level@,
                    depth as nat,
                    (levels - depth) as nat,
                ) == self.bfs_visits(seq![root], 0, levels as nat),
            decreases levels - depth,
        {
            let ghost before = visit_views(out@);
            let ghost tagged = level@.map_values(
                |e: Entity| Visit { entity: e, depth: depth as nat },
            );
            let mut next: Vec<Entity> = Vec::new();
            let mut i: usize = 0;
            assert(level@.take(0) =~= seq![]);
            assert(before + tagged.take(0) =~= before);
            while i < level.len()
                invariant
                    self.wf(),
                    depth < levels <= self.slots@.len() + 1,
                    i <= level@.len(),
                    tagged == level@.map_values(
                        |e: Entity| Visit { entity: e, depth: depth as nat },
                    ),
                    visit_views(out@) == before + tagged.take(i as int),
                    next@ == self.next_level(level@.take(i as int)),
                decreases level@.len() - i,
            {
                let e = level[i];
                let ghost so_far = out@;
                out.push((e, depth as u32));
                assert(visit_views(out@) =~= visit_views(so_far).push(
                    Visit { entity: e, depth: depth as nat },
                ));
                assert(visit_views(out@) =~= before + tagged.take(i + 1));
                let kids = self.scene_kids_of(e);
                let ghost old_next = next@;
                let mut j: usize = 0;
                while j < kids.len()
                    invariant
                        j <= kids@.len(),
                        next@ == old_next + kids@.take(j as int),
                    decreases kids@.len() - j,
                {
                    next.push(kids[j]);
                    j = j + 1;
                    assert(next@ =~= old_next + kids@.take(j as int));
                }
                proof {
                    assert(kids@.take(j as int) =~= kids@);
                    let t = level@.take(i + 1);
                    assert(t.drop_last() =~= level@.take(i as int));
                    assert(t.last() == e);
                }
                i = i + 1;
            }
            proof {
                assert(level@.take(i as int) =~= level@);
                assert(tagged.take(i as int) =~= tagged);
                assert(visit_views(out@) + self.bfs_visits(
                    next@,
                    (depth + 1) as nat,
                    (levels - depth - 1) as nat,
                ) =~= before + self.bfs_visits(level@, depth as nat, (levels - depth) as nat));
            }
            level = next;
            depth = depth + 1;
        }
        assert(visit_views(out@) + seq![] =~= visit_views(out@));
        out
    }

    /// Visits the nodes of `list` and all scene nodes below them, depth first.
    pub fn visits_below(&self, list: &Vec<Entity>) -> (r: Vec<(Entity, u32)>)
        requires
            self.wf(),
        ensures
            visit_views(r@) == self.dfs_visits(list@, 0, self.all_levels()),
    {
        let mut out: Vec<(Entity, u32)> = Vec::new();
        let levels = self.slots.len() as u64 + 1;
        self.dfs_into(list, 0, levels, &mut out);
        assert(visit_views(out@) =~= self.dfs_visits(list@, 0, self.all_levels()));
        out
    }

    /// Visits the scene nodes from `root` down.
    pub fn traverse(&self, root: Entity, order: Order, max_depth: Option<u32>) -> (r: Vec<
        (Entity, u32),
    >)
        requires
            self.wf(),
            self.alive(root),
        ensures
            visit_views(r@) == self.visits(root, order, max_depth),
    {
        let all = self.slots.len() as u64 + 1;
        let levels = match max_depth {
            Some(d) => if d as u64 + 1 < all {
                d as u64 + 1
            } else {
                all
            },
            None => all,
        };
        let ghost list = seq![root];
        proof {
            self.lemma_chain_last(root);
            assert(self.reaches(list, self.all_levels()));
            if levels == all {
                let m = self.levels_for(max_depth);
                if m >= self.all_levels() {
                    self.lemma_dfs_stable(list, 0, self.all_levels(), m);
                    self.lemma_bfs_stable(list, 0, self.all_levels(), m);
                }
            }
        }
        match order {
            Order::Dfs => {
                let mut out: Vec<(Entity, u32)> = Vec::new();
                let mut start: Vec<Entity> = Vec::new();
                start.push(root);
                assert(start@ =~= list);
                self.dfs_into(&start, 0, levels, &mut out);
                assert(visit_views(out@) =~= self.dfs_visits(list, 0, levels as nat));
                out
            },
            Order::Bfs => self.bfs_from(root, levels),
        }
    }
}

pub open spec fn visit_views(rows: Seq<(Entity, u32)>) -> Seq<Visit> {
    rows.map_values(|p: (Entity, u32)| Visit { entity: p.0, depth: p.1 as nat })
}

/// A visited node as it is reported.
pub open spec fn entity_ref(w: SceneWorld, v: Visit) -> WorldEntityRef {
    WorldEntityRef {
        entity: v.entity,
        id: match w.entity_node(v.entity) {
            Some(id) => NodeIdentity::Replicated(id),
            None => NodeIdentity::Local(v.entity),
        },
        parent: w.tree.parent(v.entity),
        depth: v.depth as u32,
    }
}

/// Visits the scene nodes from `root` down and reports each with its identity.
pub fn run_traversal(sw: &SceneWorld, root: Entity, query: TraversalQuery) -> (r: Vec<
    WorldEntityRef,
>)
    requires
        sw.wf(),
        sw.tree.alive(root),
    ensures
        r@ == sw.tree.visits(root, query.order, query.max_depth).map_values(
            |v: Visit| entity_ref(*sw, v),
        ),
{
    let walked = sw.tree.traverse(root, query.order, query.max_depth);
    let ghost all = visit_views(walked@);
    let ghost report = |v: Visit| entity_ref(*sw, v);
    let mut r: Vec<WorldEntityRef> = Vec::new();
    let mut i: usize = 0;
    while i < walked.len()
        invariant
            sw.wf(),
            all == visit_views(walked@),
            report == (|v: Visit| entity_ref(*sw, v)),
            i <= walked@.len(),
            r@ == all.map_values(report).take(i as int),
        decreases walked@.len() - i,
    {
        let (entity, depth) = walked[i];
        let id = match sw.node_id(entity) {
            Some(id) => NodeIdentity::Replicated(id),
            None => NodeIdentity::Local(entity),
        };
        r.push(WorldEntityRef { entity, id, parent: sw.tree.parent_of(entity), depth });
        i = i + 1;
        assert(all[i - 1] == (Visit { entity, depth: depth as nat }));
        assert(r@ =~= all.map_values(report).take(i as int));
    }
    assert(r@ =~= all.map_values(report));
    r
}

// ---------------------------------------------------------------------------
// Walking
// ---------------------------------------------------------------------------

/// How many of `rows` are looked at until one that passes finds `room` of them
/// already kept.
pub open spec fn looked_at(rows: Seq<Visit>, pred: spec_fn(Visit) -> bool, room: nat) -> nat
    decreases rows.len(),
{
    if rows.len() == 0 {
        0
    } else if !pred(rows[0]) {
        1 + looked_at(rows.skip(1), pred, room)
    } else if room == 0 {
        1
    } else {
        1 + looked_at(rows.skip(1), pred, (room - 1) as nat)
    }
}

/// Whether a visit passes the filter by kinds.
pub open spec fn walk_filter(w: SceneWorld, opts: WalkOpts) -> spec_fn(Visit) -> bool {
    |v: Visit| kind_passes(opts.kinds@, w.tree.kind(v.entity))
}

/// The visits of a walk that pass the filter by kinds.
pub open spec fn walk_matches(w: SceneWorld, root: Entity, opts: WalkOpts) -> Seq<Visit> {
    w.tree.visits(root, opts.strategy.spec_order(), opts.depth_limit).filter(walk_filter(w, opts))
}

/// A visit as a row of the walk.
pub open spec fn walk_row(w: SceneWorld, session: SessionId, opts: WalkOpts, v: Visit) -> WalkRowView {
    WalkRowView {
        node: node_ref_or_root(w, v.entity, session),
        kind: w.tree.kind(v.entity),
        depth: v.depth,
        variant: if opts.projection != NodeProjection::Ref && w.tree.alive(v.entity) {
            record_node(w.tree.rec(v.entity))
        } else {
            None
        },
        component_names: if opts.projection == NodeProjection::Full {
            Some(w.spec_component_names(v.entity))
        } else {
            None
        },
    }
}

/// The work that a walk does: the visits it looks at.
pub open spec fn walk_work(w: SceneWorld, root: Entity, opts: WalkOpts) -> nat {
    let visits = w.tree.visits(root, opts.strategy.spec_order(), opts.depth_limit);
    looked_at(
        visits,
        walk_filter(w, opts),
        if opts.max_items == 0 {
            visits.len()
        } else {
            opts.max_items as nat
        },
    )
}

/// Walks the subtree of `root`.
pub fn run_walk(sw: &SceneWorld, session: SessionId, root: Entity, opts: &WalkOpts) -> (r: Walk)
    requires
        sw.wf(),
        sw.tree.alive(root),
    ensures
        r.root@ == node_ref_or_root(*sw, root, session),
        walk_row_views(r.rows@) == limited(walk_matches(*sw, root, *opts), opts.max_items)
            .map_values(|v: Visit| walk_row(*sw, session, *opts, v)),
        r.truncated == (opts.max_items != 0 && walk_matches(*sw, root, *opts).len()
            > opts.max_items),
        r.cost.estimated_items == r.rows@.len(),
        r.cost.estimated_work == walk_work(*sw, root, *opts),
{
    let walked = sw.tree.traverse(root, opts.strategy.to_order(), opts.depth_limit);
    let ghost all = visit_views(walked@);
    let ghost pred = walk_filter(*sw, *opts);
    let ghost report = |v: Visit| walk_row(*sw, session, *opts, v);
    let ghost whole = all.filter(pred);
    let ghost room: nat = if opts.max_items == 0 {
        all.len()
    } else {
        opts.max_items as nat
    };
    let mut rows: Vec<WalkRow> = Vec::new();
    let mut truncated = false;
    let mut work: u64 = 0;
    let mut i: usize = 0;
    proof {
        reveal(Seq::filter);
        assert(all.take(0) =~= seq![]);
        assert(all.skip(0) =~= all);
        assert(walk_row_views(rows@) =~= all.take(0).filter(pred).map_values(report));
    }
    while i < walked.len() && !truncated
        invariant
            sw.wf(),
            all == visit_views(walked@),
            pred == walk_filter(*sw, *opts),
            report == (|v: Visit| walk_row(*sw, session, *opts, v)),
            whole == all.filter(pred),
            room == (if opts.max_items == 0 {
                all.len()
            } else {
                opts.max_items as nat
            }),
            i <= walked@.len(),
            work == i,
            rows@.len() <= i,
            opts.max_items == 0 || rows@.len() <= opts.max_items,
            !truncated ==> walk_row_views(rows@) == all.take(i as int).filter(pred).map_values(
                report,
            ),
            !truncated ==> looked_at(all, pred, room) == i + looked_at(
                all.skip(i as int),
                pred,
                (room - rows@.len()) as nat,
            ),
            truncated ==> opts.max_items != 0 && whole.len() > opts.max_items && walk_row_views(
                rows@,
            ) == whole.take(opts.max_items as int).map_values(report) && looked_at(
                all,
                pred,
                room,
            ) == i,
        decreases walked@.len() - i,
    {
        let (entity, depth) = walked[i];
        work = work.saturating_add(1);
        let kind = sw.tree.kind_of(entity);
        proof {
            lemma_filter_step(all, i as int, pred);
            lemma_filter_prefix(all, i as int, pred);
            lemma_filter_prefix(all, i + 1, pred);
            assert(all[i as int] == (Visit { entity, depth: depth as nat }));
            assert(all.skip(i as int).skip(1) =~= all.skip(i + 1));
            assert(walk_row_views(rows@).len() == rows@.len());
        }
        if passes_kinds(&opts.kinds, kind) {
            if opts.max_items != 0 && rows.len() >= opts.max_items as usize {
                truncated = true;
            } else {
                let ghost before = rows@;
                let variant = if opts.projection.wants_variant() {
                    sw.tree.materialize_at(entity)
                } else {
                    None
                };
                let component_names = if opts.projection.wants_component_names() {
                    Some(sw.component_names(entity))
                } else {
                    None
                };
                let node = node_ref_or_root_for(sw, entity, session);
                let row = WalkRow { node, kind, depth, variant, component_names };
                assert(row@ == report(all[i as int]));
                rows.push(row);
                assert(walk_row_views(rows@) =~= walk_row_views(before).push(row@));
                assert(walk_row_views(rows@) =~= all.take(i + 1).filter(pred).map_values(report));
            }
        }
        i = i + 1;
    }
    proof {
        if !truncated {
            assert(all.take(i as int) =~= all);
            assert(walk_row_views(rows@).len() == rows@.len());
            assert(all.skip(i as int) =~= seq![]);
        }
    }
    let items = rows.len() as u64;
    Walk {
        root: node_ref_or_root_for(sw, root, session),
        rows,
        truncated,
        cost: SubtreeCost { estimated_items: items, estimated_work: work },
    }
}

// ---------------------------------------------------------------------------
// Laws
// ---------------------------------------------------------------------------

impl SceneTree {
    /// Whether `e` stands `k` steps below `top`, each of them to a scene node.
    pub open spec fn hangs(self, top: Entity, e: Entity, k: nat) -> bool
        decreases k,
    {
        if k == 0 {
            e == top
        } else {
            self.scene(e) && self.parent(e) is Some && self.hangs(
                top,
                self.parent(e)->0,
                (k - 1) as nat,
            )
        }
    }

    /// Whether `e` stands `k` steps below one of `list`.
    pub open spec fn hangs_from(self, list: Seq<Entity>, e: Entity, k: nat) -> bool {
        exists|i: int| 0 <= i < list.len() && self.hangs(#[trigger] list[i], e, k)
    }

    /// One step below `top` is one of its scene children.
    proof fn lemma_hangs_child(self, top: Entity, e: Entity, k: nat)
        requires
            self.wf(),
            self.alive(top),
            k > 0,
        ensures
            self.hangs(top, e, k) <==> self.hangs_from(self.scene_kids(top), e, (k - 1) as nat),
        decreases k,
    {
        let kids = self.scene_kids(top);
        self.lemma_scene_kids(top);
        if k == 1 {
            if self.hangs(top, e, 1) {
                assert(self.hangs(top, self.parent(e)->0, 0));
                assert(self.alive(e));
                assert(self.kids(top).contains(e));
                crate::seqs::lemma_filter_contains(
                    self.kids(top),
                    |c: Entity| self.scene(c),
                    e,
                );
                let i = choose|i: int| 0 <= i < kids.len() && kids[i] == e;
                assert(self.hangs(kids[i], e, 0));
            }
            if self.hangs_from(kids, e, 0) {
                let i = choose|i: int| 0 <= i < kids.len() && self.hangs(#[trigger] kids[i], e, 0);
                assert(self.hangs(top, top, 0));
            }
        } else {
            let n = (k - 1) as nat;
            let m = (k - 2) as nat;
            if self.hangs(top, e, k) {
                let p = self.parent(e)->0;
                self.lemma_hangs_child(top, p, n);
                let i = choose|i: int| 0 <= i < kids.len() && self.hangs(#[trigger] kids[i], p, m);
                assert(self.hangs(kids[i], e, n));
            }
            if self.hangs_from(kids, e, n) {
                let i = choose|i: int| 0 <= i < kids.len() && self.hangs(#[trigger] kids[i], e, n);
                let p = self.parent(e)->0;
                assert(self.hangs(kids[i], p, m));
                self.lemma_hangs_child(top, p, n);
            }
        }
    }

    proof fn lemma_hangs_split(self, list: Seq<Entity>, e: Entity, k: nat)
        requires
            list.len() > 0,
        ensures
            self.hangs_from(list, e, k) <==> self.hangs_from(list.drop_last(), e, k) || self.hangs(
                list.last(),
                e,
                k,
            ),
    {
        let init = list.drop_last();
        if self.hangs_from(init, e, k) {
            let i = choose|i: int| 0 <= i < init.len() && self.hangs(#[trigger] init[i], e, k);
            assert(self.hangs(list[i], e, k));
        }
        if self.hangs_from(list, e, k) {
            let i = choose|i: int| 0 <= i < list.len() && self.hangs(#[trigger] list[i], e, k);
            if i < init.len() {
                assert(self.hangs(init[i], e, k));
            }
        }
        if self.hangs(list.last(), e, k) {
            assert(self.hangs(list[list.len() - 1], e, k));
        }
    }

    pub proof fn lemma_dfs_exact(self, list: Seq<Entity>, depth: nat, levels: nat, v: Visit)
        requires
            self.wf(),
            forall|i: int| 0 <= i < list.len() ==> self.alive(#[trigger] list[i]),
        ensures
            self.dfs_visits(list, depth, levels).contains(v) <==> depth <= v.depth < depth + levels
                && self.hangs_from(list, v.entity, (v.depth - depth) as nat),
        decreases levels, list.len(),
    {
        if levels > 0 && list.len() > 0 {
            let init = list.drop_last();
            let top = list.last();
            let a = self.dfs_visits(init, depth, levels);
            let b = seq![Visit { entity: top, depth }];
            let kids = self.scene_kids(top);
            let c = self.dfs_visits(kids, depth + 1, (levels - 1) as nat);
            assert(self.alive(list[list.len() - 1]));
            assert forall|i: int| 0 <= i < init.len() implies self.alive(#[trigger] init[i]) by {
                assert(init[i] == list[i]);
            }
            self.lemma_scene_kids(top);
            self.lemma_dfs_exact(init, depth, levels, v);
            self.lemma_dfs_exact(kids, depth + 1, (levels - 1) as nat, v);
            lemma_concat_contains(a + b, c, v);
            lemma_concat_contains(a, b, v);
            assert(b.contains(v) <==> v == (Visit { entity: top, depth })) by {
                assert(b[0] == (Visit { entity: top, depth }));
            }
            if depth <= v.depth {
                let k = (v.depth - depth) as nat;
                self.lemma_hangs_split(list, v.entity, k);
                if k > 0 {
                    self.lemma_hangs_child(top, v.entity, k);
                }
            }
        }
    }

    proof fn lemma_next_level_exact(self, list: Seq<Entity>, e: Entity, k: nat)
        requires
            self.wf(),
            forall|i: int| 0 <= i < list.len() ==> self.alive(#[trigger] list[i]),
        ensures
            self.hangs_from(self.next_level(list), e, k) <==> self.hangs_from(list, e, k + 1),
            forall|i: int|
                0 <= i < self.next_level(list).len() ==> self.alive(
                    #[trigger] self.next_level(list)[i],
                ),
        decreases list.len(),
    {
        if list.len() > 0 {
            let init = list.drop_last();
            let top = list.last();
            assert(self.alive(list[list.len() - 1]));
            assert forall|i: int| 0 <= i < init.len() implies self.alive(#[trigger] init[i]) by {
                assert(init[i] == list[i]);
            }
            self.lemma_next_level_exact(init, e, k);
            self.lemma_scene_kids(top);
            self.lemma_hangs_child(top, e, k + 1);
            self.lemma_hangs_split(list, e, k + 1);
            let a = self.next_level(init);
            let b = self.scene_kids(top);
            if self.hangs_from(a + b, e, k) {
                let i = choose|i: int|
                    0 <= i < (a + b).len() && self.hangs(#[trigger] (a + b)[i], e, k);
                if i < a.len() {
                    assert(self.hangs(a[i], e, k));
                } else {
                    assert(self.hangs(b[i - a.len()], e, k));
                }
            }
            if self.hangs_from(a, e, k) {
                let i = choose|i: int| 0 <= i < a.len() && self.hangs(#[trigger] a[i], e, k);
                assert(self.hangs((a + b)[i], e, k));
            }
            if self.hangs_from(b, e, k) {
                let i = choose|i: int| 0 <= i < b.len() && self.hangs(#[trigger] b[i], e, k);
                assert(self.hangs((a + b)[a.len() + i], e, k));
            }
            assert forall|i: int| 0 <= i < (a + b).len() implies self.alive(
                #[trigger] (a + b)[i],
            ) by {
                if i < a.len() {
                    assert((a + b)[i] == a[i]);
                } else {
                    assert((a + b)[i] == b[i - a.len()]);
                    assert(self.scene(b[i - a.len()]));
                }
            }
        }
    }

    proof fn lemma_bfs_exact(self, list: Seq<Entity>, depth: nat, levels: nat, v: Visit)
        requires
            self.wf(),
            forall|i: int| 0 <= i < list.len() ==> self.alive(#[trigger] list[i]),
        ensures
            self.bfs_visits(list, depth, levels).contains(v) <==> depth <= v.depth < depth + levels
                && self.hangs_from(list, v.entity, (v.depth - depth) as nat),
        decreases levels,
    {
        if levels > 0 && list.len() > 0 {
            let a = list.map_values(|e: Entity| Visit { entity: e, depth });
            let next = self.next_level(list);
            let b = self.bfs_visits(next, depth + 1, (levels - 1) as nat);
            self.lemma_next_level_exact(list, v.entity, 0);
            self.lemma_bfs_exact(next, depth + 1, (levels - 1) as nat, v);
            lemma_concat_contains(a, b, v);
            if a.contains(v) {
                let i = choose|i: int| 0 <= i < a.len() && a[i] == v;
                assert(self.hangs(list[i], v.entity, 0));
            }
            if v.depth == depth && self.hangs_from(list, v.entity, 0) {
                let i = choose|i: int|
                    0 <= i < list.len() && self.hangs(#[trigger] list[i], v.entity, 0);
                assert(a[i] == v);
            }
            if v.depth > depth {
                self.lemma_next_level_exact(list, v.entity, (v.depth - depth - 1) as nat);
            }
        }
    }

    /// A traversal visits exactly the entities that stand, step by step through
    /// scene nodes, below its root, each with its distance, down to the depth
    /// limit. The order of the traversal does not matter for that.
    pub proof fn traversal_visits_exactly(
        self,
        root: Entity,
        order: Order,
        max_depth: Option<u32>,
        v: Visit,
    )
        requires
            self.wf(),
            self.alive(root),
        ensures
            self.visits(root, order, max_depth).contains(v) <==> v.depth < self.levels_for(
                max_depth,
            ) && self.hangs(root, v.entity, v.depth),
    {
        let list = seq![root];
        assert(list[0] == root);
        self.lemma_dfs_exact(list, 0, self.levels_for(max_depth), v);
        self.lemma_bfs_exact(list, 0, self.levels_for(max_depth), v);
        if self.hangs_from(list, v.entity, v.depth) {
            let i = choose|i: int|
                0 <= i < list.len() && self.hangs(#[trigger] list[i], v.entity, v.depth);
            assert(list[i] == root);
        }
        if self.hangs(root, v.entity, v.depth) {
            assert(self.hangs(list[0], v.entity, v.depth));
        }
    }

    /// What hangs below a live entity is alive and as much deeper as it hangs.
    pub proof fn lemma_hangs_under(self, top: Entity, e: Entity, k: nat)
        requires
            self.wf(),
            self.alive(top),
            self.hangs(top, e, k),
        ensures
            self.alive(e),
            self.under(e, top),
            self.chain(e).len() == self.chain(top).len() + k,
        decreases k,
    {
        self.lemma_chain_last(e);
        if k == 0 {
            assert(self.chain(e)[self.chain(e).len() - 1] == e);
        } else {
            let p = self.parent(e)->0;
            self.lemma_hangs_under(top, p, (k - 1) as nat);
            assert(self.chain(e) =~= self.chain(p).push(e));
            let i = choose|i: int| 0 <= i < self.chain(p).len() && self.chain(p)[i] == top;
            assert(self.chain(e)[i] == top);
        }
    }

    proof fn lemma_scene_kids_level(self, e: Entity)
        requires
            self.wf(),
            self.alive(e),
        ensures
            self.level(self.scene_kids(e), self.chain(e).len() + 1),
    {
        self.lemma_scene_kids(e);
        assert forall|i: int| 0 <= i < self.scene_kids(e).len() implies self.alive(
            #[trigger] self.scene_kids(e)[i],
        ) && self.chain(self.scene_kids(e)[i]).len() == self.chain(e).len() + 1 by {
            assert(self.scene(self.scene_kids(e)[i]));
        }
    }

    proof fn lemma_level_init(self, list: Seq<Entity>, len: nat)
        requires
            self.level(list, len),
            list.len() > 0,
        ensures
            self.level(list.drop_last(), len),
            self.alive(list.last()),
            self.chain(list.last()).len() == len,
    {
        let init = list.drop_last();
        assert forall|i: int| 0 <= i < init.len() implies self.alive(#[trigger] init[i])
            && self.chain(init[i]).len() == len by {
            assert(init[i] == list[i]);
        }
        assert(self.alive(list[list.len() - 1]));
    }

    proof fn lemma_next_level_once(self, list: Seq<Entity>, len: nat)
        requires
            self.wf(),
            self.level(list, len),
        ensures
            self.level(self.next_level(list), len + 1),
            forall|i: int|
                0 <= i < self.next_level(list).len() ==> {
                    let p = self.parent(#[trigger] self.next_level(list)[i]);
                    p is Some && list.contains(p->0)
                },
        decreases list.len(),
    {
        if list.len() > 0 {
            let init = list.drop_last();
            let top = list.last();
            let a = self.next_level(init);
            let b = self.scene_kids(top);
            self.lemma_level_init(list, len);
            self.lemma_next_level_once(init, len);
            self.lemma_scene_kids_level(top);
            self.lemma_scene_kids(top);
            assert forall|x: Entity| !(#[trigger] a.contains(x) && b.contains(x)) by {
                if a.contains(x) && b.contains(x) {
                    let i = choose|i: int| 0 <= i < a.len() && a[i] == x;
                    let j = choose|j: int| 0 <= j < b.len() && b[j] == x;
                    assert(self.parent(a[i]) is Some);
                    assert(self.parent(b[j]) == Some(top));
                    let k = choose|k: int| 0 <= k < init.len() && init[k] == top;
                    assert(list[k] != list[list.len() - 1]);
                }
            }
            lemma_concat_no_duplicates(a, b);
            assert forall|i: int| 0 <= i < (a + b).len() implies self.alive(
                #[trigger] (a + b)[i],
            ) && self.chain((a + b)[i]).len() == len + 1 by {
                if i < a.len() {
                    assert((a + b)[i] == a[i]);
                } else {
                    assert((a + b)[i] == b[i - a.len()]);
                }
            }
            assert forall|i: int| 0 <= i < (a + b).len() implies {
                let p = self.parent(#[trigger] (a + b)[i]);
                p is Some && list.contains(p->0)
            } by {
                if i < a.len() {
                    assert((a + b)[i] == a[i]);
                    let p = self.parent(a[i])->0;
                    let k = choose|k: int| 0 <= k < init.len() && init[k] == p;
                    assert(list[k] == p);
                } else {
                    assert((a + b)[i] == b[i - a.len()]);
                    assert(list[list.len() - 1] == top);
                }
            }
        }
    }

    proof fn lemma_dfs_once(self, list: Seq<Entity>, depth: nat, levels: nat, len: nat)
        requires
            self.wf(),
            self.level(list, len),
        ensures
            distinct_visits(self.dfs_visits(list, depth, levels)),
        decreases levels, list.len(),
    {
        if levels > 0 && list.len() > 0 {
            let init = list.drop_last();
            let top = list.last();
            let a = self.dfs_visits(init, depth, levels);
            let b = seq![Visit { entity: top, depth }];
            let kids = self.scene_kids(top);
            let n = (levels - 1) as nat;
            let c = self.dfs_visits(kids, depth + 1, n);
            self.lemma_level_init(list, len);
            self.lemma_scene_kids_level(top);
            self.lemma_dfs_once(init, depth, levels, len);
            self.lemma_dfs_once(kids, depth + 1, n, len + 1);
            assert forall|i: int, j: int| 0 <= i < a.len() && 0 <= j < (b + c).len() implies a[i].entity
                != (b + c)[j].entity by {
                let (v, w) = (a[i], (b + c)[j]);
                assert(a.contains(v));
                self.lemma_dfs_exact(init, depth, levels, v);
                let k = choose|k: int|
                    0 <= k < init.len() && self.hangs(
                        #[trigger] init[k],
                        v.entity,
                        (v.depth - depth) as nat,
                    );
                self.lemma_hangs_under(init[k], v.entity, (v.depth - depth) as nat);
                if v.entity == w.entity {
                    if j > 0 {
                        assert(c[j - 1] == w);
                        self.lemma_deeper(kids, depth + 1, n, w, top);
                    } else {
                        self.lemma_chain_last(top);
                        assert(self.chain(top)[self.chain(top).len() - 1] == top);
                    }
                    self.lemma_one_above(v.entity, init[k], top);
                    assert(list[k] != list[list.len() - 1]);
                }
            }
            assert forall|j: int| 0 <= j < c.len() implies top != c[j].entity by {
                let w = c[j];
                self.lemma_deeper(kids, depth + 1, n, w, top);
            }
            assert(distinct_visits(b + c));
            assert(a + b + c =~= a + (b + c));
        }
    }

    /// A visit below the scene children of `top` stands under it, and deeper.
    proof fn lemma_deeper(self, kids: Seq<Entity>, depth: nat, levels: nat, w: Visit, top: Entity)
        requires
            self.wf(),
            self.alive(top),
            kids == self.scene_kids(top),
            self.dfs_visits(kids, depth, levels).contains(w),
        ensures
            self.alive(w.entity),
            self.under(w.entity, top),
            self.chain(w.entity).len() > self.chain(top).len(),
    {
        self.lemma_scene_kids_level(top);
        self.lemma_scene_kids(top);
        self.lemma_dfs_exact(kids, depth, levels, w);
        let m = choose|m: int|
            0 <= m < kids.len() && self.hangs(
                #[trigger] kids[m],
                w.entity,
                (w.depth - depth) as nat,
            );
        self.lemma_hangs_under(kids[m], w.entity, (w.depth - depth) as nat);
        self.lemma_under_parent(w.entity, kids[m], top);
    }

    proof fn lemma_bfs_once(self, list: Seq<Entity>, depth: nat, levels: nat, len: nat)
        requires
            self.wf(),
            self.level(list, len),
        ensures
            distinct_visits(self.bfs_visits(list, depth, levels)),
        decreases levels,
    {
        if levels > 0 && list.len() > 0 {
            let a = list.map_values(|e: Entity| Visit { entity: e, depth });
            let next = self.next_level(list);
            let n = (levels - 1) as nat;
            let b = self.bfs_visits(next, depth + 1, n);
            self.lemma_next_level_once(list, len);
            self.lemma_bfs_once(next, depth + 1, n, len + 1);
            assert forall|i: int, j: int| 0 <= i < a.len() && 0 <= j < b.len() implies a[i].entity
                != b[j].entity by {
                let w = b[j];
                assert(b.contains(w));
                self.lemma_bfs_exact(next, depth + 1, n, w);
                let m = choose|m: int|
                    0 <= m < next.len() && self.hangs(
                        #[trigger] next[m],
                        w.entity,
                        (w.depth - depth - 1) as nat,
                    );
                self.lemma_hangs_under(next[m], w.entity, (w.depth - depth - 1) as nat);
                assert(self.alive(list[i]));
            }
            assert forall|i: int, j: int| 0 <= i < j < a.len() implies a[i].entity != a[j].entity by {
                assert(list[i] != list[j]);
            }
        }
    }

    /// A traversal visits no entity twice.
    pub proof fn traversal_visits_each_once(
        self,
        root: Entity,
        order: Order,
        max_depth: Option<u32>,
    )
        requires
            self.wf(),
            self.alive(root),
        ensures
            distinct_visits(self.visits(root, order, max_depth)),
    {
        let len = self.chain(root).len();
        assert(self.level(seq![root], len));
        self.lemma_dfs_once(seq![root], 0, self.levels_for(max_depth), len);
        self.lemma_bfs_once(seq![root], 0, self.levels_for(max_depth), len);
    }

    /// A walk with a depth limit goes no deeper.
    pub proof fn depth_limit_caps_visits(
        self,
        root: Entity,
        order: Order,
        limit: u32,
        v: Visit,
    )
        requires
            self.wf(),
            self.alive(root),
            self.visits(root, order, Some(limit)).contains(v),
        ensures
            v.depth <= limit,
    {
        self.traversal_visits_exactly(root, order, Some(limit), v);
    }
}

/// No entity is visited twice.
pub open spec fn distinct_visits(visits: Seq<Visit>) -> bool {
    forall|i: int, j: int|
        0 <= i < j < visits.len() ==> (#[trigger] visits[i]).entity != (#[trigger] visits[j]).entity
}

/// Every row of a walk is a visit that passes its filter by kinds.
pub proof fn walk_rows_pass_filter(w: SceneWorld, root: Entity, opts: WalkOpts, i: int)
    requires
        0 <= i < walk_matches(w, root, opts).len(),
    ensures
        kind_passes(opts.kinds@, w.tree.kind(walk_matches(w, root, opts)[i].entity)),
        w.tree.visits(root, opts.strategy.spec_order(), opts.depth_limit).contains(
            walk_matches(w, root, opts)[i],
        ),
{
    let rows = walk_matches(w, root, opts);
    assert(rows.contains(rows[i]));
    crate::seqs::lemma_filter_contains(
        w.tree.visits(root, opts.strategy.spec_order(), opts.depth_limit),
        walk_filter(w, opts),
        rows[i],
    );
}

/// A walk returns, without a cap, exactly the entities that stand below its root
/// step by step through scene nodes, the root itself first among them, down to
/// the depth limit, that are of a kind asked for; each with its distance.
pub proof fn walk_returns_exactly(w: SceneWorld, root: Entity, opts: WalkOpts, v: Visit)
    requires
        w.wf(),
        w.tree.alive(root),
    ensures
        walk_matches(w, root, opts).contains(v) <==> w.tree.hangs(root, v.entity, v.depth) && (
        opts.depth_limit is Some ==> v.depth <= opts.depth_limit->0) && of_kinds(
            w.tree,
            opts.kinds@,
            v.entity,
        ),
{
    let tree = w.tree;
    let order = opts.strategy.spec_order();
    let all = tree.visits(root, order, opts.depth_limit);
    lemma_filter_contains(all, walk_filter(w, opts), v);
    tree.traversal_visits_exactly(root, order, opts.depth_limit, v);
    if tree.hangs(root, v.entity, v.depth) {
        tree.lemma_hangs_under(root, v.entity, v.depth);
        tree.lemma_chain_len(v.entity);
    }
    lemma_of_kinds(tree, opts.kinds@, v.entity);
}

/// A row of a walk tells of its node: the reference, the kind, the distance; the
/// data only where more than the reference was asked for, the names of the
/// components only where everything was.
pub proof fn walk_row_tells_the_node(w: SceneWorld, session: SessionId, opts: WalkOpts, v: Visit)
    requires
        w.tree.alive(v.entity),
    ensures
        ({
            let row = walk_row(w, session, opts, v);
            &&& row.node == node_ref_or_root(w, v.entity, session)
            &&& row.kind == w.tree.rec(v.entity).kind
            &&& row.depth == v.depth
            &&& opts.projection == NodeProjection::Ref ==> row.variant is None
                && row.component_names is None
            &&& opts.projection == NodeProjection::Variant ==> row.variant == record_node(
                w.tree.rec(v.entity),
            ) && row.component_names is None
            &&& opts.projection == NodeProjection::Full ==> row.variant == record_node(
                w.tree.rec(v.entity),
            ) && row.component_names == Some(w.spec_component_names(v.entity))
        }),
{
}

/// A visited node is reported with its parent, its distance, and its replicated
/// identity, where it has one.
pub proof fn traversal_row_tells_the_node(w: SceneWorld, v: Visit)
    requires
        w.tree.alive(v.entity),
        v.depth <= u32::MAX,
    ensures
        entity_ref(w, v).entity == v.entity,
        entity_ref(w, v).depth == v.depth,
        entity_ref(w, v).parent == w.tree.rec(v.entity).parent,
        w.crdt is Some && w.crdt->0.node_of_entity@.dom().contains(v.entity) ==> entity_ref(
            w,
            v,
        ).id == NodeIdentity::Replicated(w.crdt->0.node_of_entity@[v.entity]),
        w.crdt is None || !w.crdt->0.node_of_entity@.dom().contains(v.entity) ==> entity_ref(
            w,
            v,
        ).id == NodeIdentity::Local(v.entity),
{
}

impl SceneTree {
    /// A traversal starts with its root, at distance 0.
    pub proof fn traversal_starts_at_root(self, root: Entity, order: Order, max_depth: Option<u32>)
        ensures
            self.visits(root, order, max_depth).len() > 0,
            self.visits(root, order, max_depth)[0].entity == root,
            self.visits(root, order, max_depth)[0].depth == 0,
    {
        let levels = self.levels_for(max_depth);
        let list = seq![root];
        assert(list.drop_last() =~= seq![]);
        assert(self.dfs_visits(list.drop_last(), 0, levels) =~= seq![]);
        assert(list.map_values(|e: Entity| Visit { entity: e, depth: 0 })[0] == Visit {
            entity: root,
            depth: 0,
        });
    }

    proof fn lemma_bfs_levels(self, list: Seq<Entity>, depth: nat, levels: nat, i: int, j: int)
        requires
            0 <= i <= j < self.bfs_visits(list, depth, levels).len(),
        ensures
            depth <= self.bfs_visits(list, depth, levels)[i].depth <= self.bfs_visits(
                list,
                depth,
                levels,
            )[j].depth,
        decreases levels,
    {
        let n = list.len() as int;
        if j >= n {
            let rest = self.bfs_visits(self.next_level(list), depth + 1, (levels - 1) as nat);
            assert(self.bfs_visits(list, depth, levels)[j] == rest[j - n]);
            if i >= n {
                assert(self.bfs_visits(list, depth, levels)[i] == rest[i - n]);
                self.lemma_bfs_levels(
                    self.next_level(list),
                    depth + 1,
                    (levels - 1) as nat,
                    i - n,
                    j - n,
                );
            } else {
                self.lemma_bfs_levels(
                    self.next_level(list),
                    depth + 1,
                    (levels - 1) as nat,
                    j - n,
                    j - n,
                );
            }
        }
    }

    /// Breadth first goes level by level: no visit is nearer than an earlier one.
    pub proof fn breadth_first_goes_by_levels(
        self,
        root: Entity,
        max_depth: Option<u32>,
        i: int,
        j: int,
    )
        requires
            0 <= i <= j < self.visits(root, Order::Bfs, max_depth).len(),
        ensures
            self.visits(root, Order::Bfs, max_depth)[i].depth <= self.visits(
                root,
                Order::Bfs,
                max_depth,
            )[j].depth,
    {
        self.lemma_bfs_levels(seq![root], 0, self.levels_for(max_depth), i, j);
    }

    proof fn lemma_dfs_steps(self, list: Seq<Entity>, depth: nat, levels: nat, i: int)
        requires
            self.wf(),
            forall|k: int| 0 <= k < list.len() ==> self.alive(#[trigger] list[k]),
            0 <= i < self.dfs_visits(list, depth, levels).len(),
        ensures
            self.dfs_visits(list, depth, levels)[i].depth >= depth,
            list.len() > 0,
            i == 0 ==> self.dfs_visits(list, depth, levels)[0] == (Visit {
                entity: list[0],
                depth,
            }),
            i > 0 ==> {
                let prev = self.dfs_visits(list, depth, levels)[i - 1];
                let next = self.dfs_visits(list, depth, levels)[i];
                &&& next.depth <= prev.depth + 1
                &&& next.depth == prev.depth + 1 ==> self.parent(next.entity) == Some(prev.entity)
            },
        decreases levels, list.len(),
    {
        let all = self.dfs_visits(list, depth, levels);
        let init = self.dfs_visits(list.drop_last(), depth, levels);
        let kids = self.scene_kids(list.last());
        let rest = self.dfs_visits(kids, depth + 1, (levels - 1) as nat);
        let n = init.len() as int;
        assert(self.alive(list[list.len() - 1]));
        assert forall|k: int| 0 <= k < list.drop_last().len() implies self.alive(
            #[trigger] list.drop_last()[k],
        ) by {
            assert(list.drop_last()[k] == list[k]);
        }
        self.lemma_scene_kids(list.last());
        if i < n {
            self.lemma_dfs_steps(list.drop_last(), depth, levels, i);
            assert(all[i] == init[i]);
            if i > 0 {
                assert(all[i - 1] == init[i - 1]);
            }
        } else if i == n {
            assert(all[i] == Visit { entity: list.last(), depth });
            if i > 0 {
                assert(all[i - 1] == init[i - 1]);
                self.lemma_dfs_steps(list.drop_last(), depth, levels, i - 1);
            } else if list.len() > 1 {
                self.lemma_dfs_first(list.drop_last(), depth, levels);
            }
        } else {
            assert(all[i] == rest[i - n - 1]);
            assert forall|k: int| 0 <= k < kids.len() implies self.alive(#[trigger] kids[k]) by {
                assert(self.scene(kids[k]));
            }
            self.lemma_dfs_steps(kids, depth + 1, (levels - 1) as nat, i - n - 1);
            if i == n + 1 {
                assert(all[i - 1] == Visit { entity: list.last(), depth });
                assert(self.parent(kids[0]) == Some(list.last()));
            } else {
                assert(all[i - 1] == rest[i - n - 2]);
            }
        }
    }

    proof fn lemma_dfs_first(self, list: Seq<Entity>, depth: nat, levels: nat)
        requires
            list.len() > 0,
            levels > 0,
        ensures
            self.dfs_visits(list, depth, levels).len() > 0,
        decreases list.len(),
    {
    }

    /// Depth first goes down before it goes on: a visit is at most one step
    /// farther than the one before it, and where it is, the one before it is its
    /// parent.
    pub proof fn depth_first_goes_down_first(
        self,
        root: Entity,
        max_depth: Option<u32>,
        i: int,
    )
        requires
            self.wf(),
            self.alive(root),
            0 < i < self.visits(root, Order::Dfs, max_depth).len(),
        ensures
            ({
                let prev = self.visits(root, Order::Dfs, max_depth)[i - 1];
                let next = self.visits(root, Order::Dfs, max_depth)[i];
                &&& next.depth <= prev.depth + 1
                &&& next.depth == prev.depth + 1 ==> self.rec(next.entity).parent == Some(
                    prev.entity,
                )
            }),
    {
        let all = self.visits(root, Order::Dfs, max_depth);
        self.lemma_dfs_steps(seq![root], 0, self.levels_for(max_depth), i);
        assert(all.contains(all[i]));
        self.traversal_visits_exactly(root, Order::Dfs, max_depth, all[i]);
        self.lemma_hangs_under(root, all[i].entity, all[i].depth);
    }
}

proof fn lemma_looked_at(rows: Seq<Visit>, pred: spec_fn(Visit) -> bool, room: nat)
    ensures
        looked_at(rows, pred, room) <= rows.len(),
        rows.filter(pred).len() <= room ==> looked_at(rows, pred, room) == rows.len(),
        rows.filter(pred).len() > room ==> looked_at(rows, pred, room) > room,
    decreases rows.len(),
{
    if rows.len() > 0 {
        let rest = rows.skip(1);
        lemma_filter_first(rows, pred);
        if !pred(rows[0]) {
            lemma_looked_at(rest, pred, room);
        } else if room > 0 {
            lemma_looked_at(rest, pred, (room - 1) as nat);
        }
    } else {
        reveal(Seq::filter);
    }
}

proof fn lemma_filter_first(rows: Seq<Visit>, pred: spec_fn(Visit) -> bool)
    requires
        rows.len() > 0,
    ensures
        rows.filter(pred).len() == rows.skip(1).filter(pred).len() + (if pred(rows[0]) {
            1int
        } else {
            0int
        }),
    decreases rows.len(),
{
    reveal(Seq::filter);
    if rows.len() > 1 {
        let init = rows.drop_last();
        lemma_filter_first(init, pred);
        assert(rows.skip(1).drop_last() =~= init.skip(1));
        assert(rows.skip(1).last() == rows.last());
    } else {
        assert(rows.drop_last() =~= seq![]);
        assert(rows.skip(1) =~= seq![]);
        assert(Seq::<Visit>::empty().filter(pred) =~= seq![]);
    }
}

/// The work that a walk reports: all visits where nothing is cut off; where it is
/// cut off, more than the rows and no more than the visits.
pub proof fn walk_work_is_what_was_looked_at(w: SceneWorld, root: Entity, opts: WalkOpts)
    ensures
        ({
            let visits = w.tree.visits(root, opts.strategy.spec_order(), opts.depth_limit);
            let found = walk_matches(w, root, opts).len();
            let work = walk_work(w, root, opts);
            &&& work <= visits.len()
            &&& opts.max_items == 0 || found <= opts.max_items ==> work == visits.len()
            &&& opts.max_items != 0 && found > opts.max_items ==> work > opts.max_items
        }),
{
    let visits = w.tree.visits(root, opts.strategy.spec_order(), opts.depth_limit);
    let pred = walk_filter(w, opts);
    let room = if opts.max_items == 0 {
        visits.len()
    } else {
        opts.max_items as nat
    };
    lemma_looked_at(visits, pred, room);
    lemma_filter_len(visits, pred);
}

impl SceneTree {
    proof fn lemma_dfs_siblings(
        self,
        list: Seq<Entity>,
        depth: nat,
        levels: nat,
        len: nat,
        q: Entity,
        p: Entity,
        a: int,
        b: int,
        x: int,
        y: int,
    )
        requires
            self.wf(),
            self.level(list, len),
            list.len() <= 1 || (self.alive(q) && list.is_prefix_of(self.scene_kids(q))),
            self.alive(p),
            0 <= a < b < self.scene_kids(p).len(),
            0 <= x < self.dfs_visits(list, depth, levels).len(),
            0 <= y < self.dfs_visits(list, depth, levels).len(),
            self.dfs_visits(list, depth, levels)[x].entity == self.scene_kids(p)[a],
            self.dfs_visits(list, depth, levels)[y].entity == self.scene_kids(p)[b],
        ensures
            x < y,
        decreases levels, list.len(),
    {
        let all = self.dfs_visits(list, depth, levels);
        let front = list.drop_last();
        let last = list.last();
        let kids = self.scene_kids(last);
        let init = self.dfs_visits(front, depth, levels);
        let rest = self.dfs_visits(kids, depth + 1, (levels - 1) as nat);
        let n = init.len() as int;
        let u = self.scene_kids(p)[a];
        let v = self.scene_kids(p)[b];
        self.lemma_scene_kids(p);
        self.lemma_level_init(list, len);
        assert(u != v);
        assert(self.chain(u).len() == self.chain(v).len());
        if x < n && y < n {
            assert(all[x] == init[x] && all[y] == init[y]);
            if front.len() > 1 {
                assert(front.is_prefix_of(self.scene_kids(q)));
            }
            self.lemma_dfs_siblings(front, depth, levels, len, q, p, a, b, x, y);
        } else if x > n && y > n {
            assert(all[x] == rest[x - n - 1] && all[y] == rest[y - n - 1]);
            self.lemma_scene_kids_level(last);
            self.lemma_dfs_siblings(
                kids,
                depth + 1,
                (levels - 1) as nat,
                len + 1,
                last,
                p,
                a,
                b,
                x - n - 1,
                y - n - 1,
            );
        } else if x >= n && y <= n {
            if x > n {
                assert(all[x] == rest[x - n - 1]);
                assert(rest.contains(rest[x - n - 1]));
                self.lemma_deeper(kids, depth + 1, (levels - 1) as nat, all[x], last);
            } else {
                assert(all[x].entity == last);
            }
            if y < n {
                assert(all[y] == init[y]);
                assert(init.contains(init[y]));
                self.lemma_dfs_exact(front, depth, levels, all[y]);
                let k = (all[y].depth - depth) as nat;
                let i = choose|i: int| 0 <= i < front.len() && self.hangs(#[trigger] front[i], v, k);
                assert(front[i] == list[i]);
                assert(self.alive(list[i]) && self.chain(list[i]).len() == len);
                self.lemma_hangs_under(front[i], v, k);
                assert(list[i] != list[list.len() - 1]);
                if x == n {
                    assert(k == 0);
                    self.lemma_scene_kids(q);
                    assert(self.scene_kids(q)[i] == v);
                    assert(self.scene_kids(q)[list.len() - 1] == u);
                    assert(p == q);
                } else {
                    self.under_goes_by_parents(u, last);
                    self.under_goes_by_parents(v, list[i]);
                    self.lemma_one_above(p, last, list[i]);
                }
            }
        }
    }

    /// Whether siblings stand in `list` in the order in which their parent lists
    /// them.
    pub open spec fn in_sibling_order(self, list: Seq<Entity>) -> bool {
        forall|p: Entity, a: int, b: int, i: int, j: int|
            #![trigger self.scene_kids(p)[a], self.scene_kids(p)[b], list[i], list[j]]
            self.alive(p) && 0 <= a < b < self.scene_kids(p).len() && 0 <= i < list.len() && 0 <= j
                < list.len() && list[i] == self.scene_kids(p)[a] && list[j] == self.scene_kids(p)[b]
                ==> i < j
    }

    proof fn lemma_next_level_in_order(self, list: Seq<Entity>, len: nat)
        requires
            self.wf(),
            self.level(list, len),
        ensures
            self.in_sibling_order(self.next_level(list)),
        decreases list.len(),
    {
        let next = self.next_level(list);
        if list.len() > 0 {
            let front = list.drop_last();
            let last = list.last();
            let init = self.next_level(front);
            let kids = self.scene_kids(last);
            let n = init.len() as int;
            self.lemma_level_init(list, len);
            self.lemma_next_level_in_order(front, len);
            self.lemma_next_level_once(front, len);
            self.lemma_scene_kids(last);
            assert forall|p: Entity, a: int, b: int, i: int, j: int|
                #![trigger self.scene_kids(p)[a], self.scene_kids(p)[b], next[i], next[j]]
                self.alive(p) && 0 <= a < b < self.scene_kids(p).len() && 0 <= i < next.len() && 0
                    <= j < next.len() && next[i] == self.scene_kids(p)[a] && next[j]
                    == self.scene_kids(p)[b] implies i < j by {
                self.lemma_scene_kids(p);
                let u = self.scene_kids(p)[a];
                let v = self.scene_kids(p)[b];
                assert(self.parent(u) == Some(p) && self.parent(v) == Some(p));
                if i < n && j < n {
                    assert(next[i] == init[i] && next[j] == init[j]);
                } else if i >= n && j >= n {
                    assert(next[i] == kids[i - n] && next[j] == kids[j - n]);
                    assert(self.parent(kids[i - n]) == Some(last));
                    assert(p == last);
                } else if i >= n {
                    assert(next[i] == kids[i - n] && next[j] == init[j]);
                    assert(self.parent(kids[i - n]) == Some(last));
                    assert(front.contains(p));
                    let k = choose|k: int| 0 <= k < front.len() && front[k] == p;
                    assert(list[k] != list[list.len() - 1]);
                }
            }
        }
    }

    proof fn lemma_bfs_siblings(
        self,
        list: Seq<Entity>,
        depth: nat,
        levels: nat,
        len: nat,
        p: Entity,
        a: int,
        b: int,
        x: int,
        y: int,
    )
        requires
            self.wf(),
            self.level(list, len),
            self.in_sibling_order(list),
            self.alive(p),
            0 <= a < b < self.scene_kids(p).len(),
            0 <= x < self.bfs_visits(list, depth, levels).len(),
            0 <= y < self.bfs_visits(list, depth, levels).len(),
            self.bfs_visits(list, depth, levels)[x].entity == self.scene_kids(p)[a],
            self.bfs_visits(list, depth, levels)[y].entity == self.scene_kids(p)[b],
        ensures
            x < y,
        decreases levels,
    {
        let all = self.bfs_visits(list, depth, levels);
        let next = self.next_level(list);
        let rest = self.bfs_visits(next, depth + 1, (levels - 1) as nat);
        let n = list.len() as int;
        let u = self.scene_kids(p)[a];
        let v = self.scene_kids(p)[b];
        self.lemma_scene_kids(p);
        assert(self.chain(u).len() == self.chain(v).len());
        if x < n && y < n {
            assert(list[x] == u && list[y] == v);
        } else if x >= n && y >= n {
            assert(all[x] == rest[x - n] && all[y] == rest[y - n]);
            self.lemma_next_level_once(list, len);
            self.lemma_next_level_in_order(list, len);
            self.lemma_bfs_siblings(
                next,
                depth + 1,
                (levels - 1) as nat,
                len + 1,
                p,
                a,
                b,
                x - n,
                y - n,
            );
        } else if x >= n {
            assert(all[x] == rest[x - n]);
            assert(list[y] == v);
            self.lemma_next_level_once(list, len);
            assert(rest.contains(rest[x - n]));
            self.lemma_bfs_exact(next, depth + 1, (levels - 1) as nat, all[x]);
            let k = (all[x].depth - (depth + 1)) as nat;
            let i = choose|i: int| 0 <= i < next.len() && self.hangs(#[trigger] next[i], u, k);
            self.lemma_hangs_under(next[i], u, k);
        }
    }

    /// Siblings are visited in the order in which their parent lists them,
    /// whether depth or breadth comes first.
    pub proof fn siblings_are_visited_in_order(
        self,
        root: Entity,
        order: Order,
        max_depth: Option<u32>,
        p: Entity,
        a: int,
        b: int,
        x: int,
        y: int,
    )
        requires
            self.wf(),
            self.alive(root),
            self.alive(p),
            0 <= a < b < self.scene_kids(p).len(),
            0 <= x < self.visits(root, order, max_depth).len(),
            0 <= y < self.visits(root, order, max_depth).len(),
            self.visits(root, order, max_depth)[x].entity == self.scene_kids(p)[a],
            self.visits(root, order, max_depth)[y].entity == self.scene_kids(p)[b],
        ensures
            x < y,
    {
        let list = seq![root];
        let levels = self.levels_for(max_depth);
        let len = self.chain(root).len();
        assert(self.level(list, len));
        self.lemma_scene_kids(p);
        match order {
            Order::Dfs => {
                self.lemma_dfs_siblings(list, 0, levels, len, root, p, a, b, x, y);
            },
            Order::Bfs => {
                assert(self.in_sibling_order(list)) by {
                    assert forall|p: Entity, a: int, b: int, i: int, j: int|
                        #![trigger self.scene_kids(p)[a], self.scene_kids(p)[b], list[i], list[j]]
                        self.alive(p) && 0 <= a < b < self.scene_kids(p).len() && 0 <= i
                            < list.len() && 0 <= j < list.len() && list[i] == self.scene_kids(p)[a]
                            && list[j] == self.scene_kids(p)[b] implies i < j by {
                        self.lemma_scene_kids(p);
                        assert(self.scene_kids(p)[a] != self.scene_kids(p)[b]);
                    }
                }
                self.lemma_bfs_siblings(list, 0, levels, len, p, a, b, x, y);
            },
        }
    }
}

/// What a walk finds does not depend on how many rows it may return or on how
/// much detail they carry, and what it may return is the beginning of what it
/// finds.
pub proof fn walk_cap_cuts_the_end(
    w: SceneWorld,
    root: Entity,
    opts: WalkOpts,
    max: u32,
    projection: NodeProjection,
    i: int,
)
    ensures
        walk_matches(w, root, WalkOpts { max_items: max, projection, ..opts }) == walk_matches(
            w,
            root,
            opts,
        ),
        ({
            let all = walk_matches(w, root, opts);
            let some = limited(all, max);
            &&& max == 0 || all.len() <= max ==> some.len() == all.len()
            &&& max != 0 && all.len() > max ==> some.len() == max
            &&& 0 <= i < some.len() ==> some[i] == all[i]
        }),
{
    let other = WalkOpts { max_items: max, projection, ..opts };
    assert(walk_filter(w, other) =~= walk_filter(w, opts));
}

} // verus!
