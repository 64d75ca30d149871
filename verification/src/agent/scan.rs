//! The catalog and outline of a scene: what an agent reads first to plan its
//! way down.
use vstd::prelude::*;

use crate::agent::handle::{
    node_ref_or_root, node_ref_or_root_for, resolved_ref, NodeRef, SessionId,
};
use crate::agent::navigate::{kind_passes, lemma_of_kinds, of_kinds, passes_kinds};
use crate::agent::query::lemma_resolved_alive;
use crate::agent::scene::{Entity, NodeKind, SceneTree};
use crate::agent::walk::{visit_views, Visit};
use crate::agent::world::{lookup, SceneWorld};
use crate::seqs::{
    lemma_filter_contains, lemma_filter_counts, lemma_filter_len, lemma_filter_step,
};
use crate::table::{Table, TableKey};

verus! {

/// The size of a result and the work it takes.
#[derive(Clone, Copy, Debug, PartialEq, Eq, Structural)]
pub struct SubtreeCost {
    pub estimated_items: u64,
    pub estimated_work: u64,
}

impl Default for SubtreeCost {
    fn default() -> (r: Self)
        ensures
            r == (SubtreeCost { estimated_items: 0, estimated_work: 0 }),
    {
        SubtreeCost { estimated_items: 0, estimated_work: 0 }
    }
}

/// What to scan.
#[derive(Debug)]
pub struct ScanOpts {
    /// Confine the outline to this node and what stands below it.
    pub under: Option<NodeRef>,
    /// How deep the outline goes below the starting nodes. 0 is no outline:
    /// the catalog alone.
    pub depth: u32,
    /// The most rows of the outline; 0 counts as 1.
    pub max_outline_rows: u32,
    /// Confine the rows to these variants. Empty is all of them.
    pub kinds: Vec<NodeKind>,
}

impl Default for ScanOpts {
    fn default() -> (r: Self)
        ensures
            r.under is None,
            r.depth == 2,
            r.max_outline_rows == 256,
            r.kinds@.len() == 0,
    {
        ScanOpts { under: None, depth: 2, max_outline_rows: 256, kinds: Vec::new() }
    }
}

#[derive(Debug)]
pub struct SceneIndex {
    pub session: SessionId,
    pub generation: u64,
    pub catalog: Catalog,
    pub roots: Vec<OutlineNode>,
}

impl TableKey for NodeKind {
    fn same_key(&self, other: &Self) -> (r: bool) {
        *self == *other
    }
}

/// Counts over the whole scene.
#[derive(Debug)]
pub struct Catalog {
    pub total_nodes: u64,
    pub kind_counts: Table<NodeKind, u64>,
    pub max_depth: u32,
}

/// One row of the outline.
#[derive(Debug)]
pub struct OutlineNode {
    pub node: NodeRef,
    pub kind: Option<NodeKind>,
    pub name: Option<String>,
    pub depth: u32,
    pub child_count: u32,
    pub subtree_cost: SubtreeCost,
    /// How many children the outline leaves out.
    pub elided_children: u32,
    pub children: Vec<OutlineNode>,
}

// ---------------------------------------------------------------------------
// Catalog
// ---------------------------------------------------------------------------

impl SceneTree {
    /// The scene nodes that have a kind.
    pub open spec fn kinded(self) -> Seq<Entity> {
        self.ids().filter(|e: Entity| self.scene(e) && self.kind(e) is Some)
    }

    /// How many scene nodes have kind `k`.
    pub open spec fn kind_count(self, k: NodeKind) -> nat {
        self.ids().filter(|e: Entity| self.scene(e) && self.kind(e) == Some(k)).len()
    }

    /// The greatest depth of a scene node, where roots have depth 0.
    pub open spec fn depth(self) -> nat {
        deepest(self.dfs_visits(self.roots(), 0, self.all_levels()))
    }
}

/// The greatest depth among some visits; 0 where there are none.
pub open spec fn deepest(visits: Seq<Visit>) -> nat
    decreases visits.len(),
{
    if visits.len() == 0 {
        0
    } else {
        let d = deepest(visits.drop_last());
        if visits.last().depth > d {
            visits.last().depth
        } else {
            d
        }
    }
}

impl Catalog {
    /// Whether the catalog is that of `tree`.
    pub open spec fn describes(self, tree: SceneTree) -> bool {
        &&& self.kind_counts.wf()
        &&& self.total_nodes == tree.kinded().len()
        &&& forall|k: NodeKind| #[trigger]
            lookup(self.kind_counts@, k) == (if tree.kind_count(k) > 0 {
                Some(tree.kind_count(k) as u64)
            } else {
                None
            })
        &&& self.max_depth == tree.depth()
    }
}

/// Counts the scene nodes by kind.
pub fn build_catalog(sw: &SceneWorld) -> (r: Catalog)
    requires
        sw.wf(),
    ensures
        r.describes(sw.tree),
{
    let tree = &sw.tree;
    let ghost kinded = |e: Entity| tree.scene(e) && tree.kind(e) is Some;
    let mut total: u64 = 0;
    let mut by_kind: Table<NodeKind, u64> = Table::new();
    let mut i: usize = 0;
    proof {
        reveal(Seq::filter);
        assert(tree.ids().take(0) =~= seq![]);
    }
    while i < tree.slots.len()
        invariant
            tree.wf(),
            i <= tree.slots@.len(),
            kinded == (|e: Entity| tree.scene(e) && tree.kind(e) is Some),
            by_kind.wf(),
            total <= i,
            total == tree.ids().take(i as int).filter(kinded).len(),
            forall|k: NodeKind| #[trigger]
                lookup(by_kind@, k) == ({
                    let n = tree.ids().take(i as int).filter(
                        |e: Entity| tree.scene(e) && tree.kind(e) == Some(k),
                    ).len();
                    if n > 0 {
                        Some(n as u64)
                    } else {
                        None
                    }
                }),
        decreases tree.slots@.len() - i,
    {
        let e = i as u64;
        proof {
            assert(tree.ids()[i as int] == e);
            lemma_filter_step(tree.ids(), i as int, kinded);
            assert forall|k: NodeKind|
                #![trigger lookup(by_kind@, k)]
                ({
                    let pred = |x: Entity| tree.scene(x) && tree.kind(x) == Some(k);
                    tree.ids().take(i + 1).filter(pred).len() == tree.ids().take(i as int).filter(
                        pred,
                    ).len() + (if tree.scene(e) && tree.kind(e) == Some(k) {
                        1int
                    } else {
                        0int
                    })
                }) by {
                lemma_filter_step(
                    tree.ids(),
                    i as int,
                    |x: Entity| tree.scene(x) && tree.kind(x) == Some(k),
                );
            }
        }
        if tree.is_scene(e) {
            if let Some(kind) = tree.kind_of(e) {
                total = total + 1;
                let ghost before = by_kind@;
                let count = match by_kind.get(kind) {
                    Some(n) => *n,
                    None => 0,
                };
                proof {
                    assert(lookup(before, kind) == lookup(by_kind@, kind));
                    let pred = |x: Entity| tree.scene(x) && tree.kind(x) == Some(kind);
                    tree.ids().take(i as int).lemma_filter_len(pred);
                    assert(count <= i);
                }
                by_kind.insert(kind, count + 1);
                proof {
                    assert forall|k: NodeKind| #[trigger]
                        lookup(by_kind@, k) == ({
                            let n = tree.ids().take(i + 1).filter(
                                |x: Entity| tree.scene(x) && tree.kind(x) == Some(k),
                            ).len();
                            if n > 0 {
                                Some(n as u64)
                            } else {
                                None
                            }
                        }) by {
                        assert(lookup(before, k) == lookup(before, k));
                    }
                }
            }
        }
        i = i + 1;
    }
    proof {
        assert(tree.ids().take(i as int) =~= tree.ids());
        assert forall|k: NodeKind| #[trigger]
            lookup(by_kind@, k) == (if tree.kind_count(k) > 0 {
                Some(tree.kind_count(k) as u64)
            } else {
                None
            }) by {}
    }
    Catalog { total_nodes: total, kind_counts: by_kind, max_depth: compute_max_depth(sw) }
}

/// The greatest depth of a scene node.
pub fn compute_max_depth(sw: &SceneWorld) -> (r: u32)
    requires
        sw.wf(),
    ensures
        r == sw.tree.depth(),
{
    let roots = sw.tree.roots_of();
    let visits = sw.tree.visits_below(&roots);
    let ghost all = visit_views(visits@);
    let mut max: u32 = 0;
    let mut i: usize = 0;
    assert(all.take(0) =~= seq![]);
    while i < visits.len()
        invariant
            all == visit_views(visits@),
            i <= visits@.len(),
            max == deepest(all.take(i as int)),
        decreases visits@.len() - i,
    {
        let depth = visits[i].1;
        proof {
            let t = all.take(i + 1);
            assert(t.drop_last() =~= all.take(i as int));
            assert(t.last() == all[i as int]);
            assert(all[i as int].depth == depth);
        }
        if depth > max {
            max = depth;
        }
        i = i + 1;
    }
    assert(all.take(i as int) =~= all);
    max
}

// ---------------------------------------------------------------------------
// Outline
// ---------------------------------------------------------------------------

/// The cap on rows that the options ask for.
pub open spec fn outline_cap(opts: ScanOpts) -> nat {
    if opts.max_outline_rows == 0 {
        1
    } else {
        opts.max_outline_rows as nat
    }
}

/// Whether the outline leaves a node out: the cap is reached, or its kind was
/// not asked for.
pub open spec fn leaves_out(w: SceneWorld, opts: ScanOpts, emitted: nat, child: Entity) -> bool {
    emitted >= outline_cap(opts) || !kind_passes(opts.kinds@, w.tree.kind(child))
}

/// How many rows there are once `e`, at `depth`, and what is shown below it
/// were added to `emitted` rows.
pub open spec fn emitted_after(
    w: SceneWorld,
    opts: ScanOpts,
    e: Entity,
    depth: nat,
    emitted: nat,
) -> nat
    decreases opts.depth - depth, 1int, 0nat,
{
    if depth < opts.depth {
        emitted_after_kids(w, opts, w.tree.scene_kids(e), depth, emitted + 1)
    } else {
        emitted + 1
    }
}

/// The same for children at the level below `depth`, in order.
pub open spec fn emitted_after_kids(
    w: SceneWorld,
    opts: ScanOpts,
    kids: Seq<Entity>,
    depth: nat,
    emitted: nat,
) -> nat
    decreases opts.depth - depth, 0int, kids.len(),
    when depth < opts.depth
{
    if kids.len() == 0 {
        emitted
    } else {
        let before = emitted_after_kids(w, opts, kids.drop_last(), depth, emitted);
        if leaves_out(w, opts, before, kids.last()) {
            before
        } else {
            emitted_after(w, opts, kids.last(), depth + 1, before)
        }
    }
}

/// How many children of `kids` the outline leaves out.
pub open spec fn elided_kids(
    w: SceneWorld,
    opts: ScanOpts,
    kids: Seq<Entity>,
    depth: nat,
    emitted: nat,
) -> nat
    decreases kids.len(),
{
    if kids.len() == 0 {
        0
    } else {
        elided_kids(w, opts, kids.drop_last(), depth, emitted) + (if leaves_out(
            w,
            opts,
            emitted_after_kids(w, opts, kids.drop_last(), depth, emitted),
            kids.last(),
        ) {
            1nat
        } else {
            0nat
        })
    }
}

/// The number of entities listed as children in a subtree, capped.
pub open spec fn child_links(tree: SceneTree, list: Seq<Entity>) -> nat
    decreases list.len(),
{
    if list.len() == 0 {
        0
    } else {
        child_links(tree, list.drop_last()) + tree.kids(list.last()).len()
    }
}

/// The size of the subtree of `e`: its scene nodes, and the links followed.
pub open spec fn spec_cost(tree: SceneTree, e: Entity) -> SubtreeCost {
    let all = tree.subtree(e);
    SubtreeCost {
        estimated_items: all.filter(|x: Entity| tree.scene(x)).len() as u64,
        estimated_work: if child_links(tree, all) > u64::MAX {
            u64::MAX
        } else {
            child_links(tree, all) as u64
        },
    }
}

pub open spec fn name_view(name: Option<String>) -> Option<Seq<char>> {
    match name {
        Some(n) => Some(n@),
        None => None,
    }
}

/// Whether `n` is the row for `e` at `depth`, where `emitted` rows came before.
pub open spec fn outlines(
    w: SceneWorld,
    session: SessionId,
    opts: ScanOpts,
    n: OutlineNode,
    e: Entity,
    depth: nat,
    emitted: nat,
) -> bool
    decreases opts.depth - depth, 1int, 0nat,
{
    let kids = w.tree.scene_kids(e);
    &&& n.node@ == node_ref_or_root(w, e, session)
    &&& n.kind == w.tree.kind(e)
    &&& name_view(n.name) == w.tree.title(e)
    &&& n.depth == depth
    &&& n.child_count == kids.len()
    &&& n.subtree_cost == spec_cost(w.tree, e)
    &&& if depth < opts.depth {
        &&& n.elided_children == elided_kids(w, opts, kids, depth, emitted + 1)
        &&& outlines_kids(w, session, opts, n.children@, kids, depth, emitted + 1)
    } else {
        &&& n.elided_children == kids.len()
        &&& n.children@.len() == 0
    }
}

/// Whether `rows` are the rows for those of `kids` that the outline shows.
pub open spec fn outlines_kids(
    w: SceneWorld,
    session: SessionId,
    opts: ScanOpts,
    rows: Seq<OutlineNode>,
    kids: Seq<Entity>,
    depth: nat,
    emitted: nat,
) -> bool
    decreases opts.depth - depth, 0int, kids.len(),
    when depth < opts.depth
{
    if kids.len() == 0 {
        rows.len() == 0
    } else {
        let before = emitted_after_kids(w, opts, kids.drop_last(), depth, emitted);
        if leaves_out(w, opts, before, kids.last()) {
            outlines_kids(w, session, opts, rows, kids.drop_last(), depth, emitted)
        } else {
            &&& rows.len() > 0
            &&& outlines_kids(w, session, opts, rows.drop_last(), kids.drop_last(), depth, emitted)
            &&& outlines(w, session, opts, rows.last(), kids.last(), depth + 1, before)
        }
    }
}

/// The nodes that the outline starts from; none where its depth is 0.
pub open spec fn outline_starts(w: SceneWorld, session: SessionId, opts: ScanOpts) -> Seq<Entity> {
    if opts.depth == 0 {
        seq![]
    } else {
        match opts.under {
            Some(r) => match resolved_ref(w, r@, session) {
                Some(e) => seq![e],
                None => seq![],
            },
            None => w.tree.roots(),
        }
    }
}

/// How many rows there are once the outlines of `starts` were made.
pub open spec fn emitted_after_starts(w: SceneWorld, opts: ScanOpts, starts: Seq<Entity>) -> nat
    decreases starts.len(),
{
    if starts.len() == 0 {
        0
    } else {
        let before = emitted_after_starts(w, opts, starts.drop_last());
        if leaves_out(w, opts, before, starts.last()) {
            before
        } else {
            emitted_after(w, opts, starts.last(), 0, before)
        }
    }
}

/// Whether `rows` are the outlines of those of `starts` that were asked for, as
/// many as the cap allows.
pub open spec fn outlines_starts(
    w: SceneWorld,
    session: SessionId,
    opts: ScanOpts,
    rows: Seq<OutlineNode>,
    starts: Seq<Entity>,
) -> bool
    decreases starts.len(),
{
    if starts.len() == 0 {
        rows.len() == 0
    } else {
        let before = emitted_after_starts(w, opts, starts.drop_last());
        if leaves_out(w, opts, before, starts.last()) {
            outlines_starts(w, session, opts, rows, starts.drop_last())
        } else {
            &&& rows.len() > 0
            &&& outlines_starts(w, session, opts, rows.drop_last(), starts.drop_last())
            &&& outlines(w, session, opts, rows.last(), starts.last(), 0, before)
        }
    }
}

/// The size of the subtree of `entity`.
fn subtree_size(sw: &SceneWorld, entity: Entity) -> (r: SubtreeCost)
    requires
        sw.wf(),
        sw.tree.alive(entity),
    ensures
        r == spec_cost(sw.tree, entity),
{
    let all = sw.tree.subtree_of(entity);
    let ghost pred = |x: Entity| sw.tree.scene(x);
    let mut items: u64 = 0;
    let mut work: u64 = 0;
    let mut i: usize = 0;
    proof {
        reveal(Seq::filter);
        assert(all@.take(0) =~= seq![]);
    }
    while i < all.len()
        invariant
            i <= all@.len(),
            pred == (|x: Entity| sw.tree.scene(x)),
            items <= i,
            items == all@.take(i as int).filter(pred).len(),
            work == (if child_links(sw.tree, all@.take(i as int)) > u64::MAX {
                u64::MAX as nat
            } else {
                child_links(sw.tree, all@.take(i as int))
            }),
        decreases all@.len() - i,
    {
        let e = all[i];
        proof {
            lemma_filter_step(all@, i as int, pred);
            assert(all@.take(i + 1).drop_last() =~= all@.take(i as int));
            assert(all@.take(i + 1).last() == e);
        }
        if sw.tree.is_scene(e) {
            items = items + 1;
        }
        let n = match sw.tree.record(e) {
            Some(rec) => rec.children.len() as u64,
            None => 0,
        };
        work = work.saturating_add(n);
        i = i + 1;
    }
    assert(all@.take(i as int) =~= all@);
    SubtreeCost { estimated_items: items, estimated_work: work }
}

/// The row for `entity` with what the outline shows below it. `emitted` counts
/// the rows made so far.
fn build_outline_node(
    sw: &SceneWorld,
    session: SessionId,
    entity: Entity,
    depth: u32,
    opts: &ScanOpts,
    emitted: &mut u32,
    max_rows: u32,
) -> (r: OutlineNode)
    requires
        sw.wf(),
        sw.tree.alive(entity),
        depth <= opts.depth,
        max_rows == outline_cap(*opts),
        *old(emitted) < max_rows,
    ensures
        *final(emitted) == emitted_after(
            *sw,
            *opts,
            entity,
            depth as nat,
            *old(emitted) as nat,
        ),
        *final(emitted) <= max_rows,
        outlines(*sw, session, *opts, r, entity, depth as nat, *old(emitted) as nat),
    decreases opts.depth - depth,
{
    let ghost start = *emitted as nat;
    *emitted = *emitted + 1;
    let kind = sw.tree.kind_of(entity);
    let name = sw.tree.display_name_of(entity);
    let node = node_ref_or_root_for(sw, entity, session);
    let children = sw.tree.scene_kids_of(entity);
    proof {
        sw.tree.lemma_scene_kids(entity);
        sw.tree.lemma_kids_len(entity);
    }
    let child_count = children.len() as u32;
    let subtree_cost = subtree_size(sw, entity);
    let mut shown: Vec<OutlineNode> = Vec::new();
    let mut elided: u32 = 0;
    if depth < opts.depth {
        let mut i: usize = 0;
        let ghost first = *emitted as nat;
        assert(children@.take(0) =~= seq![]);
        while i < children.len()
            invariant
                sw.wf(),
                sw.tree.alive(entity),
                depth < opts.depth,
                max_rows == outline_cap(*opts),
                children@ == sw.tree.scene_kids(entity),
                children@.len() <= u32::MAX,
                first == start + 1,
                i <= children@.len(),
                elided <= i,
                *emitted <= max_rows,
                *emitted == emitted_after_kids(
                    *sw,
                    *opts,
                    children@.take(i as int),
                    depth as nat,
                    first,
                ),
                elided == elided_kids(*sw, *opts, children@.take(i as int), depth as nat, first),
                outlines_kids(
                    *sw,
                    session,
                    *opts,
                    shown@,
                    children@.take(i as int),
                    depth as nat,
                    first,
                ),
            decreases children@.len() - i,
        {
            let child = children[i];
            proof {
                let t = children@.take(i + 1);
                assert(t.drop_last() =~= children@.take(i as int));
                assert(t.last() == child);
                sw.tree.lemma_scene_kids(entity);
                assert(sw.tree.scene(children@[i as int]));
            }
            if *emitted >= max_rows || !passes_kinds(&opts.kinds, sw.tree.kind_of(child)) {
                elided = elided + 1;
            } else {
                let ghost before = shown@;
                let row = build_outline_node(
                    sw,
                    session,
                    child,
                    depth + 1,
                    opts,
                    emitted,
                    max_rows,
                );
                shown.push(row);
                assert(shown@.drop_last() =~= before);
            }
            i = i + 1;
        }
        assert(children@.take(i as int) =~= children@);
    } else {
        elided = child_count;
    }
    OutlineNode {
        node,
        kind,
        name,
        depth,
        child_count,
        subtree_cost,
        elided_children: elided,
        children: shown,
    }
}

/// The outline of the starting nodes.
fn build_outline(sw: &SceneWorld, session: SessionId, opts: &ScanOpts) -> (r: Vec<OutlineNode>)
    requires
        sw.wf(),
    ensures
        outlines_starts(*sw, session, *opts, r@, outline_starts(*sw, session, *opts)),
{
    if opts.depth == 0 {
        return Vec::new();
    }
    let mut emitted: u32 = 0;
    let max_rows = if opts.max_outline_rows == 0 {
        1
    } else {
        opts.max_outline_rows
    };
    let starts = match &opts.under {
        Some(r) => match r.resolve(sw, session) {
            Some(e) => {
                let mut v: Vec<Entity> = Vec::new();
                v.push(e);
                proof {
                    lemma_resolved_alive(*sw, r@, session);
                    assert(v@ =~= seq![e]);
                }
                v
            },
            None => Vec::new(),
        },
        None => sw.tree.roots_of(),
    };
    proof {
        sw.tree.lemma_roots();
    }
    let mut rows: Vec<OutlineNode> = Vec::new();
    let mut i: usize = 0;
    assert(starts@.take(0) =~= seq![]);
    while i < starts.len()
        invariant
            sw.wf(),
            max_rows == outline_cap(*opts),
            i <= starts@.len(),
            forall|k: int| 0 <= k < starts@.len() ==> sw.tree.alive(#[trigger] starts@[k]),
            emitted <= max_rows,
            emitted == emitted_after_starts(*sw, *opts, starts@.take(i as int)),
            outlines_starts(*sw, session, *opts, rows@, starts@.take(i as int)),
        decreases starts@.len() - i,
    {
        proof {
            let t = starts@.take(i + 1);
            assert(t.drop_last() =~= starts@.take(i as int));
            assert(t.last() == starts@[i as int]);
        }
        if emitted < max_rows && passes_kinds(&opts.kinds, sw.tree.kind_of(starts[i])) {
            let ghost before = rows@;
            let row = build_outline_node(sw, session, starts[i], 0, opts, &mut emitted, max_rows);
            rows.push(row);
            assert(rows@.drop_last() =~= before);
        }
        i = i + 1;
    }
    assert(starts@.take(i as int) =~= starts@);
    rows
}

/// The catalog and the outline of a scene.
pub fn build_scene_index(sw: &SceneWorld, session: SessionId, opts: &ScanOpts) -> (r: SceneIndex)
    requires
        sw.wf(),
    ensures
        r.session == session,
        r.generation == sw.spec_generation(),
        r.catalog.describes(sw.tree),
        outlines_starts(*sw, session, *opts, r.roots@, outline_starts(*sw, session, *opts)),
{
    let catalog = build_catalog(sw);
    let generation = sw.generation();
    let roots = build_outline(sw, session, opts);
    SceneIndex { session, generation, catalog, roots }
}

// ---------------------------------------------------------------------------
// Laws
// ---------------------------------------------------------------------------

proof fn lemma_kids_counted(
    w: SceneWorld,
    session: SessionId,
    opts: ScanOpts,
    rows: Seq<OutlineNode>,
    kids: Seq<Entity>,
    depth: nat,
    emitted: nat,
)
    requires
        depth < opts.depth,
        outlines_kids(w, session, opts, rows, kids, depth, emitted),
    ensures
        rows.len() + elided_kids(w, opts, kids, depth, emitted) == kids.len(),
    decreases kids.len(),
{
    if kids.len() > 0 {
        let before = emitted_after_kids(w, opts, kids.drop_last(), depth, emitted);
        if leaves_out(w, opts, before, kids.last()) {
            lemma_kids_counted(w, session, opts, rows, kids.drop_last(), depth, emitted);
        } else {
            lemma_kids_counted(
                w,
                session,
                opts,
                rows.drop_last(),
                kids.drop_last(),
                depth,
                emitted,
            );
        }
    }
}

/// What an outline leaves out it counts: of each row's children, those shown
/// and those left out add up to all of them.
pub proof fn outline_accounts_for_children(
    w: SceneWorld,
    session: SessionId,
    opts: ScanOpts,
    n: OutlineNode,
    e: Entity,
    depth: nat,
    emitted: nat,
)
    requires
        outlines(w, session, opts, n, e, depth, emitted),
    ensures
        n.children@.len() + n.elided_children == n.child_count,
        n.child_count == w.tree.scene_kids(e).len(),
{
    if depth < opts.depth {
        lemma_kids_counted(
            w,
            session,
            opts,
            n.children@,
            w.tree.scene_kids(e),
            depth,
            emitted + 1,
        );
    }
}

proof fn lemma_emitted_bounded(
    w: SceneWorld,
    opts: ScanOpts,
    e: Entity,
    depth: nat,
    emitted: nat,
)
    requires
        emitted < outline_cap(opts),
    ensures
        emitted < emitted_after(w, opts, e, depth, emitted) <= outline_cap(opts),
    decreases opts.depth - depth, 1int, 0nat,
{
    if depth < opts.depth {
        lemma_emitted_kids_bounded(w, opts, w.tree.scene_kids(e), depth, emitted + 1);
    }
}

proof fn lemma_emitted_kids_bounded(
    w: SceneWorld,
    opts: ScanOpts,
    kids: Seq<Entity>,
    depth: nat,
    emitted: nat,
)
    requires
        depth < opts.depth,
        emitted <= outline_cap(opts),
    ensures
        emitted <= emitted_after_kids(w, opts, kids, depth, emitted) <= outline_cap(opts),
    decreases opts.depth - depth, 0int, kids.len(),
{
    if kids.len() > 0 {
        lemma_emitted_kids_bounded(w, opts, kids.drop_last(), depth, emitted);
        let before = emitted_after_kids(w, opts, kids.drop_last(), depth, emitted);
        if !leaves_out(w, opts, before, kids.last()) {
            lemma_emitted_bounded(w, opts, kids.last(), depth + 1, before);
        }
    }
}

/// An outline never has more rows than its cap.
pub proof fn outline_stays_within_cap(w: SceneWorld, opts: ScanOpts, starts: Seq<Entity>)
    ensures
        emitted_after_starts(w, opts, starts) <= outline_cap(opts),
    decreases starts.len(),
{
    if starts.len() > 0 {
        outline_stays_within_cap(w, opts, starts.drop_last());
        let before = emitted_after_starts(w, opts, starts.drop_last());
        if !leaves_out(w, opts, before, starts.last()) {
            lemma_emitted_bounded(w, opts, starts.last(), 0, before);
        }
    }
}

/// How many rows there are in an outline: the node's own and those below it.
pub open spec fn row_count(n: OutlineNode) -> nat
    decreases n, 0nat,
{
    1 + forest_count(n.children, n.children@.len())
}

/// How many rows there are in the first `k` outlines of `rows`.
pub open spec fn forest_count(rows: Vec<OutlineNode>, k: nat) -> nat
    decreases rows, k,
{
    if k == 0 || k > rows@.len() {
        0
    } else {
        forest_count(rows, (k - 1) as nat) + row_count(rows[k - 1])
    }
}

proof fn lemma_row_count(
    w: SceneWorld,
    session: SessionId,
    opts: ScanOpts,
    n: OutlineNode,
    e: Entity,
    depth: nat,
    emitted: nat,
)
    requires
        outlines(w, session, opts, n, e, depth, emitted),
    ensures
        emitted_after(w, opts, e, depth, emitted) == emitted + row_count(n),
    decreases opts.depth - depth, 1int, 0nat,
{
    if depth < opts.depth {
        let all = n.children@.len();
        assert(n.children@.take(all as int) =~= n.children@);
        lemma_forest_count(
            w,
            session,
            opts,
            n.children,
            all,
            w.tree.scene_kids(e),
            depth,
            emitted + 1,
        );
    }
}

proof fn lemma_forest_count(
    w: SceneWorld,
    session: SessionId,
    opts: ScanOpts,
    rows: Vec<OutlineNode>,
    k: nat,
    kids: Seq<Entity>,
    depth: nat,
    emitted: nat,
)
    requires
        depth < opts.depth,
        k <= rows@.len(),
        outlines_kids(w, session, opts, rows@.take(k as int), kids, depth, emitted),
    ensures
        emitted_after_kids(w, opts, kids, depth, emitted) == emitted + forest_count(rows, k),
    decreases opts.depth - depth, 0int, kids.len(),
{
    if kids.len() > 0 {
        let before = emitted_after_kids(w, opts, kids.drop_last(), depth, emitted);
        if leaves_out(w, opts, before, kids.last()) {
            lemma_forest_count(w, session, opts, rows, k, kids.drop_last(), depth, emitted);
        } else {
            let shorter = (k - 1) as nat;
            assert(rows@.take(k as int).drop_last() =~= rows@.take(k - 1));
            assert(rows@.take(k as int).last() == rows[k - 1]);
            lemma_forest_count(w, session, opts, rows, shorter, kids.drop_last(), depth, emitted);
            lemma_row_count(w, session, opts, rows[k - 1], kids.last(), depth + 1, before);
        }
    }
}

/// An outline has exactly as many rows as are counted against its cap.
pub proof fn outline_rows_are_counted(
    w: SceneWorld,
    session: SessionId,
    opts: ScanOpts,
    rows: Vec<OutlineNode>,
    k: nat,
    starts: Seq<Entity>,
)
    requires
        k <= rows@.len(),
        outlines_starts(w, session, opts, rows@.take(k as int), starts),
    ensures
        forest_count(rows, k) == emitted_after_starts(w, opts, starts),
        forest_count(rows, k) <= outline_cap(opts),
    decreases starts.len(),
{
    outline_stays_within_cap(w, opts, starts);
    if starts.len() > 0 {
        let before = emitted_after_starts(w, opts, starts.drop_last());
        if leaves_out(w, opts, before, starts.last()) {
            outline_rows_are_counted(w, session, opts, rows, k, starts.drop_last());
        } else {
            let shorter = (k - 1) as nat;
            assert(rows@.take(k as int).drop_last() =~= rows@.take(k - 1));
            assert(rows@.take(k as int).last() == rows[k - 1]);
            outline_rows_are_counted(w, session, opts, rows, shorter, starts.drop_last());
            lemma_row_count(w, session, opts, rows[k - 1], starts.last(), 0, before);
        }
    }
}

/// Every row that an outline starts with is of a kind that was asked for.
pub proof fn outline_starts_pass_filter(
    w: SceneWorld,
    session: SessionId,
    opts: ScanOpts,
    rows: Seq<OutlineNode>,
    starts: Seq<Entity>,
    i: int,
)
    requires
        outlines_starts(w, session, opts, rows, starts),
        0 <= i < rows.len(),
    ensures
        kind_passes(opts.kinds@, rows[i].kind),
    decreases starts.len(),
{
    if starts.len() > 0 {
        let before = emitted_after_starts(w, opts, starts.drop_last());
        if leaves_out(w, opts, before, starts.last()) {
            outline_starts_pass_filter(w, session, opts, rows, starts.drop_last(), i);
        } else if i < rows.len() - 1 {
            outline_starts_pass_filter(w, session, opts, rows.drop_last(), starts.drop_last(), i);
        }
    }
}

/// Every row below another is of a kind that was asked for.
pub proof fn outline_rows_pass_filter(
    w: SceneWorld,
    session: SessionId,
    opts: ScanOpts,
    n: OutlineNode,
    e: Entity,
    depth: nat,
    emitted: nat,
    i: int,
)
    requires
        outlines(w, session, opts, n, e, depth, emitted),
        0 <= i < n.children@.len(),
    ensures
        kind_passes(opts.kinds@, n.children@[i].kind),
{
    lemma_kids_pass_filter(
        w,
        session,
        opts,
        n.children@,
        w.tree.scene_kids(e),
        depth,
        emitted + 1,
        i,
    );
}

proof fn lemma_kids_pass_filter(
    w: SceneWorld,
    session: SessionId,
    opts: ScanOpts,
    rows: Seq<OutlineNode>,
    kids: Seq<Entity>,
    depth: nat,
    emitted: nat,
    i: int,
)
    requires
        depth < opts.depth,
        outlines_kids(w, session, opts, rows, kids, depth, emitted),
        0 <= i < rows.len(),
    ensures
        kind_passes(opts.kinds@, rows[i].kind),
    decreases kids.len(),
{
    if kids.len() > 0 {
        let before = emitted_after_kids(w, opts, kids.drop_last(), depth, emitted);
        let init = kids.drop_last();
        if leaves_out(w, opts, before, kids.last()) {
            lemma_kids_pass_filter(w, session, opts, rows, init, depth, emitted, i);
        } else if i < rows.len() - 1 {
            lemma_kids_pass_filter(w, session, opts, rows.drop_last(), init, depth, emitted, i);
        } else {
            assert(outlines(w, session, opts, rows.last(), kids.last(), depth + 1, before));
            assert(rows.last().kind == w.tree.kind(kids.last()));
        }
    }
}

impl SceneTree {
    /// The scene nodes of kind `k`, or of any kind where none is given.
    pub open spec fn nodes_of_kind(self, k: Option<NodeKind>) -> Set<Entity> {
        Set::new(
            |e: Entity|
                self.alive(e) && self.rec(e).scene_node && (if k is Some {
                    self.rec(e).kind == k
                } else {
                    self.rec(e).kind is Some
                }),
        )
    }

    /// The scene nodes at `root` or below it.
    pub open spec fn nodes_under(self, root: Entity) -> Set<Entity> {
        Set::new(|e: Entity| self.alive(e) && self.rec(e).scene_node && self.under(e, root))
    }

    /// The scene nodes whose parent is `e`.
    pub open spec fn nodes_below(self, e: Entity) -> Set<Entity> {
        Set::new(|c: Entity| self.alive(c) && self.rec(c).scene_node && self.rec(c).parent == Some(e))
    }
}

/// The catalog counts the scene nodes: in all those with a kind, and for each
/// kind those of that kind, without an entry where there are none.
pub proof fn catalog_counts_nodes(c: Catalog, tree: SceneTree, k: NodeKind)
    requires
        c.describes(tree),
        tree.slots@.len() <= u32::MAX,
    ensures
        c.kind_counts.wf(),
        c.max_depth == tree.depth(),
        tree.nodes_of_kind(None).finite(),
        c.total_nodes == tree.nodes_of_kind(None).len(),
        c.kind_counts@.dom().contains(k) <==> tree.nodes_of_kind(Some(k)).len() > 0,
        c.kind_counts@.dom().contains(k) ==> c.kind_counts@[k] == tree.nodes_of_kind(
            Some(k),
        ).len(),
{
    let any = |e: Entity| tree.scene(e) && tree.kind(e) is Some;
    let this = |e: Entity| tree.scene(e) && tree.kind(e) == Some(k);
    let ids = tree.ids();
    assert(ids.no_duplicates());
    lemma_filter_counts(ids, any);
    lemma_filter_counts(ids, this);
    assert forall|e: Entity| tree.alive(e) implies #[trigger] ids.contains(e) by {
        assert(ids[e as int] == e);
    }
    assert(ids.filter(any).to_set() =~= tree.nodes_of_kind(None));
    assert(ids.filter(this).to_set() =~= tree.nodes_of_kind(Some(k)));
    assert(lookup(c.kind_counts@, k) == (if tree.kind_count(k) > 0 {
        Some(tree.kind_count(k) as u64)
    } else {
        None
    }));
    assert(ids.filter(this).len() <= ids.len()) by {
        lemma_filter_len(ids, this);
    }
}

proof fn lemma_deepest(visits: Seq<Visit>, i: int)
    ensures
        0 <= i < visits.len() ==> visits[i].depth <= deepest(visits),
        visits.len() > 0 ==> exists|k: int|
            0 <= k < visits.len() && (#[trigger] visits[k]).depth == deepest(visits),
    decreases visits.len(),
{
    if visits.len() > 0 {
        let init = visits.drop_last();
        lemma_deepest(init, i);
        if visits.last().depth > deepest(init) || init.len() == 0 {
            assert(visits[visits.len() - 1].depth == deepest(visits));
        } else {
            let k = choose|k: int| 0 <= k < init.len() && (#[trigger] init[k]).depth == deepest(init);
            assert(visits[k] == init[k]);
        }
        if 0 <= i < init.len() {
            assert(visits[i] == init[i]);
        }
    }
}

/// The depth of the scene is that of its deepest scene node, counted in steps
/// through scene nodes from a root: none is deeper, and one is as deep.
pub proof fn depth_is_that_of_the_deepest(tree: SceneTree, root: Entity, e: Entity, k: nat)
    requires
        tree.wf(),
        tree.alive(root),
        tree.rec(root).scene_node,
        tree.rec(root).parent is None,
    ensures
        tree.hangs(root, e, k) ==> k <= tree.depth(),
        exists|r: Entity, x: Entity|
            tree.alive(r) && tree.rec(r).scene_node && tree.rec(r).parent is None
                && #[trigger] tree.hangs(r, x, tree.depth()),
{
    let roots = tree.roots();
    let visits = tree.dfs_visits(roots, 0, tree.all_levels());
    tree.lemma_roots();
    tree.siblings_are_scene_nodes(None, root);
    assert forall|i: int| 0 <= i < roots.len() implies tree.alive(#[trigger] roots[i]) by {}
    let a = choose|a: int| 0 <= a < roots.len() && roots[a] == root;
    if tree.hangs(root, e, k) {
        let v = Visit { entity: e, depth: k };
        tree.lemma_hangs_under(root, e, k);
        tree.lemma_chain_len(e);
        tree.lemma_dfs_exact(roots, 0, tree.all_levels(), v);
        assert(tree.hangs_from(roots, e, k));
        let i = choose|i: int| 0 <= i < visits.len() && visits[i] == v;
        lemma_deepest(visits, i);
    }
    let first = Visit { entity: root, depth: 0 };
    tree.lemma_dfs_exact(roots, 0, tree.all_levels(), first);
    assert(tree.hangs(roots[a], root, 0));
    assert(visits.contains(first));
    lemma_deepest(visits, 0);
    let j = choose|j: int| 0 <= j < visits.len() && (#[trigger] visits[j]).depth == deepest(visits);
    assert(visits.contains(visits[j]));
    tree.lemma_dfs_exact(roots, 0, tree.all_levels(), visits[j]);
    let b = choose|b: int|
        0 <= b < roots.len() && tree.hangs(#[trigger] roots[b], visits[j].entity, visits[j].depth);
    tree.siblings_are_scene_nodes(None, roots[b]);
    assert(roots.contains(roots[b]));
    assert(tree.hangs(roots[b], visits[j].entity, tree.depth()));
}

/// A row of an outline tells of its node: the reference, the kind, the name, the
/// level, how many scene nodes have it as their parent, and how many scene nodes
/// its subtree has.
pub proof fn outline_row_tells_the_node(
    w: SceneWorld,
    session: SessionId,
    opts: ScanOpts,
    n: OutlineNode,
    e: Entity,
    depth: nat,
    emitted: nat,
)
    requires
        w.wf(),
        w.tree.alive(e),
        outlines(w, session, opts, n, e, depth, emitted),
    ensures
        n.node@ == node_ref_or_root(w, e, session),
        n.kind == w.tree.rec(e).kind,
        n.name is Some <==> w.tree.title(e) is Some,
        n.name is Some ==> Some(n.name->0@) == w.tree.title(e),
        n.depth == depth,
        n.child_count == w.tree.nodes_below(e).len(),
        n.subtree_cost.estimated_items == w.tree.nodes_under(e).len(),
        depth >= opts.depth ==> n.children@.len() == 0 && n.elided_children == n.child_count,
{
    let tree = w.tree;
    let is_scene = |c: Entity| tree.scene(c);
    lemma_filter_counts(tree.kids(e), is_scene);
    assert(tree.kids(e).filter(is_scene).to_set() =~= tree.nodes_below(e)) by {
        assert forall|c: Entity| tree.kids(e).filter(is_scene).to_set().contains(c)
            <==> tree.nodes_below(e).contains(c) by {
            tree.siblings_are_scene_nodes(Some(e), c);
            lemma_filter_contains(tree.kids(e), is_scene, c);
        }
    }
    tree.subtree_names_each_once(e);
    lemma_filter_counts(tree.subtree(e), is_scene);
    assert(tree.subtree(e).filter(is_scene).to_set() =~= tree.nodes_under(e)) by {
        assert forall|c: Entity| tree.subtree(e).filter(is_scene).to_set().contains(c)
            <==> tree.nodes_under(e).contains(c) by {
            tree.subtree_is_all_below(e, c);
        }
    }
    lemma_subtree_fits(tree, e);
    lemma_filter_len(tree.subtree(e), is_scene);
}

/// A subtree has no more entities than there are handles.
proof fn lemma_subtree_fits(tree: SceneTree, e: Entity)
    requires
        tree.wf(),
        tree.alive(e),
    ensures
        tree.subtree(e).len() <= tree.slots@.len(),
{
    let all = tree.subtree(e);
    let ids = tree.ids();
    tree.subtree_names_each_once(e);
    all.unique_seq_to_set();
    ids.unique_seq_to_set();
    assert(all.to_set().subset_of(ids.to_set())) by {
        assert forall|x: Entity| all.to_set().contains(x) implies ids.to_set().contains(x) by {
            tree.subtree_is_all_below(e, x);
            assert(ids[x as int] == x);
        }
    }
    vstd::set_lib::lemma_len_subset(all.to_set(), ids.to_set());
}

/// Where an outline starts: nowhere at depth 0; at the node that it is confined
/// to, where that resolves; else at exactly the scene nodes without a parent.
pub proof fn outline_starts_where_asked(
    w: SceneWorld,
    session: SessionId,
    opts: ScanOpts,
    x: Entity,
)
    requires
        w.wf(),
    ensures
        opts.depth == 0 ==> outline_starts(w, session, opts).len() == 0,
        opts.depth > 0 && opts.under is Some ==> (outline_starts(w, session, opts).contains(x)
            <==> resolved_ref(w, opts.under->0@, session) == Some(x)),
        opts.depth > 0 && opts.under is None ==> (outline_starts(w, session, opts).contains(x)
            <==> w.tree.alive(x) && w.tree.rec(x).scene_node && w.tree.rec(x).parent is None),
{
    w.tree.siblings_are_scene_nodes(None, x);
    if opts.depth > 0 && opts.under is Some {
        if let Some(e) = resolved_ref(w, opts.under->0@, session) {
            assert(outline_starts(w, session, opts)[0] == e);
        }
    }
}

proof fn lemma_kids_shown(
    w: SceneWorld,
    session: SessionId,
    opts: ScanOpts,
    rows: Seq<OutlineNode>,
    kids: Seq<Entity>,
    depth: nat,
    emitted: nat,
    i: int,
)
    requires
        depth < opts.depth,
        outlines_kids(w, session, opts, rows, kids, depth, emitted),
        emitted_after_kids(w, opts, kids, depth, emitted) < outline_cap(opts),
        emitted <= outline_cap(opts),
    ensures
        rows.len() == kids.filter(asked_for(w.tree, opts)).len(),
        0 <= i < rows.len() ==> rows[i].node@ == node_ref_or_root(
            w,
            kids.filter(asked_for(w.tree, opts))[i],
            session,
        ) && rows[i].depth == depth + 1,
    decreases kids.len(),
{
    reveal(Seq::filter);
    if kids.len() > 0 {
        lemma_of_kinds(w.tree, opts.kinds@, kids.last());
        let init = kids.drop_last();
        let before = emitted_after_kids(w, opts, init, depth, emitted);
        lemma_emitted_kids_bounded(w, opts, init, depth, emitted);
        if before < outline_cap(opts) {
            lemma_emitted_bounded(w, opts, kids.last(), depth + 1, before);
        }
        if leaves_out(w, opts, before, kids.last()) {
            lemma_kids_shown(w, session, opts, rows, init, depth, emitted, i);
        } else {
            lemma_kids_shown(w, session, opts, rows.drop_last(), init, depth, emitted, i);
            assert(outlines(w, session, opts, rows.last(), kids.last(), depth + 1, before));
        }
    }
}

/// Whether a node is of a kind that the outline was asked for.
pub open spec fn asked_for(tree: SceneTree, opts: ScanOpts) -> spec_fn(Entity) -> bool {
    |e: Entity| of_kinds(tree, opts.kinds@, e)
}

/// An outline leaves out only for a cause: above its depth limit and with room
/// left under its cap, a row shows all scene children of the kinds asked for, in
/// order, one level deeper, and counts the others as left out.
pub proof fn outline_shows_all_it_can(
    w: SceneWorld,
    session: SessionId,
    opts: ScanOpts,
    n: OutlineNode,
    e: Entity,
    depth: nat,
    emitted: nat,
    i: int,
)
    requires
        outlines(w, session, opts, n, e, depth, emitted),
        depth < opts.depth,
        emitted < outline_cap(opts),
        emitted_after(w, opts, e, depth, emitted) < outline_cap(opts),
    ensures
        ({
            let shown = w.tree.scene_kids(e).filter(asked_for(w.tree, opts));
            &&& n.children@.len() == shown.len()
            &&& n.elided_children + shown.len() == w.tree.scene_kids(e).len()
            &&& 0 <= i < shown.len() ==> n.children@[i].node@ == node_ref_or_root(
                w,
                shown[i],
                session,
            ) && n.children@[i].depth == depth + 1
        }),
{
    outline_accounts_for_children(w, session, opts, n, e, depth, emitted);
    lemma_kids_shown(
        w,
        session,
        opts,
        n.children@,
        w.tree.scene_kids(e),
        depth,
        emitted + 1,
        i,
    );
}

/// The cap on rows is the one given; 0 counts as 1.
pub proof fn outline_cap_is_as_given(opts: ScanOpts)
    ensures
        opts.max_outline_rows > 0 ==> outline_cap(opts) == opts.max_outline_rows,
        opts.max_outline_rows == 0 ==> outline_cap(opts) == 1,
{
}

/// The work of a subtree is the number of links from a parent to a child in it,
/// so it is one less than the number of its entities.
pub proof fn subtree_work_counts_links(tree: SceneTree, e: Entity)
    requires
        tree.wf(),
        tree.alive(e),
    ensures
        spec_cost(tree, e).estimated_work + 1 == tree.subtree(e).len(),
{
    lemma_links(tree, seq![e], tree.all_levels());
    assert(tree.reaches(seq![e], tree.all_levels())) by {
        tree.lemma_chain(e);
    }
    tree.lemma_chain(e);
    lemma_subtree_fits(tree, e);
}

/// A walk from some entities down to the bottom meets as many more entities as
/// there are links below them.
proof fn lemma_links(tree: SceneTree, list: Seq<Entity>, levels: nat)
    requires
        tree.wf(),
        tree.reaches(list, levels),
    ensures
        child_links(tree, tree.stack_walk(list, levels)) + list.len() == tree.stack_walk(
            list,
            levels,
        ).len(),
    decreases levels, list.len(),
{
    if levels > 0 && list.len() > 0 {
        let top = list[list.len() - 1];
        let kids = tree.kids(top);
        let below = tree.stack_walk(kids, (levels - 1) as nat);
        let rest = tree.stack_walk(list.drop_last(), levels);
        assert(tree.alive(top));
        tree.lemma_kids_reach(top, levels);
        assert(tree.reaches(list.drop_last(), levels)) by {
            assert forall|i: int| 0 <= i < list.drop_last().len() implies tree.alive(
                #[trigger] list.drop_last()[i],
            ) && tree.chain(list.drop_last()[i]).len() + levels > tree.slots@.len() by {
                assert(list[i] == list.drop_last()[i]);
            }
        }
        lemma_links(tree, kids, (levels - 1) as nat);
        lemma_links(tree, list.drop_last(), levels);
        lemma_links_concat(tree, seq![top], below);
        lemma_links_concat(tree, seq![top] + below, rest);
        assert(seq![top].drop_last() =~= seq![]);
        assert(child_links(tree, seq![top].drop_last()) == 0);
        assert(seq![top].last() == top);
        assert(child_links(tree, seq![top]) == kids.len());
    } else if levels == 0 && list.len() > 0 {
        let top = list[0];
        assert(tree.alive(top));
        tree.lemma_chain_len(top);
    }
}

proof fn lemma_links_concat(tree: SceneTree, a: Seq<Entity>, b: Seq<Entity>)
    ensures
        child_links(tree, a + b) == child_links(tree, a) + child_links(tree, b),
    decreases b.len(),
{
    if b.len() > 0 {
        lemma_links_concat(tree, a, b.drop_last());
        assert((a + b).drop_last() =~= a + b.drop_last());
        assert((a + b).last() == b.last());
    } else {
        assert(a + b =~= a);
    }
}

/// With room left under its cap an outline shows every start of a kind asked for,
/// in order, at depth 0.
pub proof fn outline_shows_all_starts(
    w: SceneWorld,
    session: SessionId,
    opts: ScanOpts,
    rows: Seq<OutlineNode>,
    starts: Seq<Entity>,
    i: int,
)
    requires
        outlines_starts(w, session, opts, rows, starts),
        emitted_after_starts(w, opts, starts) < outline_cap(opts),
    ensures
        rows.len() == starts.filter(asked_for(w.tree, opts)).len(),
        0 <= i < rows.len() ==> rows[i].node@ == node_ref_or_root(
            w,
            starts.filter(asked_for(w.tree, opts))[i],
            session,
        ) && rows[i].depth == 0,
    decreases starts.len(),
{
    reveal(Seq::filter);
    if starts.len() > 0 {
        lemma_of_kinds(w.tree, opts.kinds@, starts.last());
        let init = starts.drop_last();
        let before = emitted_after_starts(w, opts, init);
        outline_stays_within_cap(w, opts, init);
        if before < outline_cap(opts) {
            lemma_emitted_bounded(w, opts, starts.last(), 0, before);
        }
        if leaves_out(w, opts, before, starts.last()) {
            outline_shows_all_starts(w, session, opts, rows, init, i);
        } else {
            outline_shows_all_starts(w, session, opts, rows.drop_last(), init, i);
            assert(outlines(w, session, opts, rows.last(), starts.last(), 0, before));
        }
    }
}

} // verus!
