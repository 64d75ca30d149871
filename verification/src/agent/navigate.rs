//! Local-neighbourhood queries for crawling the scene step by step, along the
//! tree, along the edges, or both.
use vstd::prelude::*;

use crate::agent::handle::{
    node_ref_or_root, node_ref_or_root_for, ref_views, NodeRef, SessionId,
};
use crate::agent::scene::{holds, holds_kind, Entity, NodeKind, SceneTree};
use crate::agent::world::SceneWorld;
use crate::seqs::{
    lemma_concat_contains, lemma_filter_contains, lemma_filter_no_duplicates,
    lemma_filter_prefix, lemma_filter_step, lemma_limited_contains, lemma_push_contains, limited,
};

verus! {

#[derive(Clone, Copy, Debug, PartialEq, Eq, Structural)]
pub enum NavDir {
    /// What the node points to.
    Out,
    /// What points to the node.
    In,
    /// Both at each hop.
    Both,
    /// All that `Out` reaches, however far.
    Downstream,
    /// All that `In` reaches, however far.
    Upstream,
    /// All that `Both` reaches, however far.
    Component,
}

#[derive(Clone, Copy, Debug, PartialEq, Eq, Structural)]
pub enum NavEdgeFilter {
    /// The tree and the edges.
    All,
    /// Only the tree.
    TreeOnly,
    /// Only the edges.
    EntityEdgesOnly,
}

/// Where to go from a node.
#[derive(Debug)]
pub struct NavOpts {
    pub direction: NavDir,
    pub edges: NavEdgeFilter,
    /// Confine the result to these variants. Empty is all of them.
    pub kinds: Vec<NodeKind>,
    /// How many hops; `None` is one. Of no matter for the transitive directions.
    pub depth_limit: Option<u32>,
    /// The most rows to return. 0 is all of them.
    pub max_items: u32,
}

impl Default for NavOpts {
    fn default() -> (r: Self)
        ensures
            r.direction == NavDir::Out,
            r.edges == NavEdgeFilter::All,
            r.kinds@.len() == 0,
            r.depth_limit is None,
            r.max_items == 0,
    {
        NavOpts {
            direction: NavDir::Out,
            edges: NavEdgeFilter::All,
            kinds: Vec::new(),
            depth_limit: None,
            max_items: 0,
        }
    }
}

/// Whether a node of kind `k` passes a filter by kinds; an empty filter passes
/// every node.
pub open spec fn kind_passes(kinds: Seq<NodeKind>, k: Option<NodeKind>) -> bool {
    kinds.len() == 0 || (k is Some && kinds.contains(k->0))
}

pub fn passes_kinds(kinds: &Vec<NodeKind>, k: Option<NodeKind>) -> (r: bool)
    ensures
        r == kind_passes(kinds@, k),
{
    if kinds.len() == 0 {
        return true;
    }
    match k {
        Some(k) => holds_kind(kinds, k),
        None => false,
    }
}

/// `found` with those of `list` that it lacks, in order.
pub open spec fn extended(found: Seq<Entity>, list: Seq<Entity>) -> Seq<Entity>
    decreases list.len(),
{
    if list.len() == 0 {
        found
    } else {
        let f = extended(found, list.drop_last());
        if f.contains(list.last()) {
            f
        } else {
            f.push(list.last())
        }
    }
}

impl SceneTree {
    /// Whether `e` is an edge with both its ends set.
    pub open spec fn is_edge(self, e: Entity) -> bool {
        self.alive(e) && self.rec(e).scene_edge && self.rec(e).edge_from is Some && self.rec(
            e,
        ).edge_to is Some
    }

    /// The edges that leave `n`.
    pub open spec fn out_edges(self, n: Entity) -> Seq<Entity> {
        self.ids().filter(|e: Entity| self.is_edge(e) && self.rec(e).edge_from == Some(n))
    }

    /// The edges that enter `n`.
    pub open spec fn in_edges(self, n: Entity) -> Seq<Entity> {
        self.ids().filter(|e: Entity| self.is_edge(e) && self.rec(e).edge_to == Some(n))
    }

    /// Where the edges that leave `n` lead.
    pub open spec fn successors(self, n: Entity) -> Seq<Entity> {
        self.out_edges(n).map_values(|e: Entity| self.rec(e).edge_to->0)
    }

    /// Where the edges that enter `n` come from.
    pub open spec fn predecessors(self, n: Entity) -> Seq<Entity> {
        self.in_edges(n).map_values(|e: Entity| self.rec(e).edge_from->0)
    }

    /// The parent of `n`, where it is a scene node.
    pub open spec fn scene_parent(self, n: Entity) -> Seq<Entity> {
        match self.parent(n) {
            Some(p) => if self.scene(p) {
                seq![p]
            } else {
                seq![]
            },
            None => seq![],
        }
    }

    /// One hop from `n`: children, parent, successors, predecessors, as far as
    /// the direction and the filter ask for them.
    pub open spec fn hops(self, n: Entity, dir: NavDir, edges: NavEdgeFilter) -> Seq<Entity> {
        let want_out = dir == NavDir::Out || dir == NavDir::Both;
        let want_in = dir == NavDir::In || dir == NavDir::Both;
        let tree = edges != NavEdgeFilter::EntityEdgesOnly;
        let graph = edges != NavEdgeFilter::TreeOnly;
        (if tree && want_out {
            self.scene_kids(n)
        } else {
            seq![]
        }) + (if tree && want_in {
            self.scene_parent(n)
        } else {
            seq![]
        }) + (if graph && want_out {
            self.successors(n)
        } else {
            seq![]
        }) + (if graph && want_in {
            self.predecessors(n)
        } else {
            seq![]
        })
    }

    /// The distinct neighbours of `n`.
    pub open spec fn neighbours(self, n: Entity, dir: NavDir, edges: NavEdgeFilter) -> Seq<Entity> {
        extended(seq![], self.hops(n, dir, edges))
    }

    /// `found` with the neighbours of each node of `level`, in order.
    pub open spec fn spread(
        self,
        found: Seq<Entity>,
        level: Seq<Entity>,
        dir: NavDir,
        edges: NavEdgeFilter,
    ) -> Seq<Entity>
        decreases level.len(),
    {
        if level.len() == 0 {
            found
        } else {
            extended(
                self.spread(found, level.drop_last(), dir, edges),
                self.neighbours(level.last(), dir, edges),
            )
        }
    }

    /// Breadth-first search, level by level: `found` holds what was found so
    /// far, its last level from `start` on; `depth` levels are left.
    pub open spec fn bfs(
        self,
        found: Seq<Entity>,
        start: int,
        depth: nat,
        dir: NavDir,
        edges: NavEdgeFilter,
    ) -> Seq<Entity>
        decreases depth,
    {
        if depth == 0 || start >= found.len() {
            found
        } else {
            self.bfs(
                self.spread(found, found.skip(start), dir, edges),
                found.len() as int,
                (depth - 1) as nat,
                dir,
                edges,
            )
        }
    }

    /// What `depth` hops from `from` reach, nearest first, without `from`.
    pub open spec fn reached(
        self,
        from: Entity,
        depth: nat,
        dir: NavDir,
        edges: NavEdgeFilter,
    ) -> Seq<Entity> {
        self.bfs(seq![from], 0, depth, dir, edges).skip(1)
    }
}

/// The direction of one hop and the number of hops that the options ask for.
pub open spec fn nav_plan(opts: NavOpts) -> (NavDir, nat) {
    match opts.direction {
        NavDir::Downstream => (NavDir::Out, u32::MAX as nat),
        NavDir::Upstream => (NavDir::In, u32::MAX as nat),
        NavDir::Component => (NavDir::Both, u32::MAX as nat),
        dir => (
            dir,
            match opts.depth_limit {
                Some(d) => d as nat,
                None => 1,
            },
        ),
    }
}

/// The nodes that navigation reaches.
pub open spec fn nav_reached(w: SceneWorld, from: Entity, opts: NavOpts) -> Seq<Entity> {
    let (dir, depth) = nav_plan(opts);
    w.tree.reached(from, depth, dir, opts.edges)
}

/// The nodes that navigation returns.
pub open spec fn nav_result(w: SceneWorld, from: Entity, opts: NavOpts) -> Seq<Entity> {
    limited(
        nav_reached(w, from, opts).filter(|e: Entity| kind_passes(opts.kinds@, w.tree.kind(e))),
        opts.max_items,
    )
}

// ---------------------------------------------------------------------------
// Enumeration
// ---------------------------------------------------------------------------

/// Adds to `found` those of `list` that it lacks.
fn extend_with(found: &mut Vec<Entity>, list: &Vec<Entity>)
    ensures
        final(found)@ == extended(old(found)@, list@),
{
    let ghost before = found@;
    let mut i: usize = 0;
    assert(list@.take(0) =~= seq![]);
    while i < list.len()
        invariant
            i <= list@.len(),
            found@ == extended(before, list@.take(i as int)),
        decreases list@.len() - i,
    {
        assert(list@.take(i + 1).drop_last() =~= list@.take(i as int));
        if !holds(found, list[i]) {
            found.push(list[i]);
        }
        i = i + 1;
    }
    assert(list@.take(i as int) =~= list@);
}

fn append(out: &mut Vec<Entity>, list: &Vec<Entity>)
    ensures
        final(out)@ == old(out)@ + list@,
{
    let ghost before = out@;
    let mut i: usize = 0;
    while i < list.len()
        invariant
            i <= list@.len(),
            out@ == before + list@.take(i as int),
        decreases list@.len() - i,
    {
        out.push(list[i]);
        i = i + 1;
        assert(out@ =~= before + list@.take(i as int));
    }
    assert(list@.take(i as int) =~= list@);
}

impl SceneTree {
    /// The ends of the edges at `n`: the targets of those that leave it, or the
    /// sources of those that enter it.
    fn edge_ends(&self, n: Entity, outgoing: bool) -> (r: Vec<Entity>)
        requires
            self.slots@.len() <= u32::MAX,
        ensures
            r@ == (if outgoing {
                self.successors(n)
            } else {
                self.predecessors(n)
            }),
    {
        let ghost out_pred = |e: Entity| self.is_edge(e) && self.rec(e).edge_from == Some(n);
        let ghost in_pred = |e: Entity| self.is_edge(e) && self.rec(e).edge_to == Some(n);
        let ghost to = |e: Entity| self.rec(e).edge_to->0;
        let ghost from = |e: Entity| self.rec(e).edge_from->0;
        let mut r: Vec<Entity> = Vec::new();
        let mut i: usize = 0;
        proof {
            reveal(Seq::filter);
            assert(self.ids().take(0) =~= seq![]);
            assert(r@ =~= self.ids().take(0).filter(out_pred).map_values(to));
            assert(r@ =~= self.ids().take(0).filter(in_pred).map_values(from));
        }
        while i < self.slots.len()
            invariant
                self.slots@.len() <= u32::MAX,
                i <= self.slots@.len(),
                out_pred == (|e: Entity| self.is_edge(e) && self.rec(e).edge_from == Some(n)),
                in_pred == (|e: Entity| self.is_edge(e) && self.rec(e).edge_to == Some(n)),
                to == (|e: Entity| self.rec(e).edge_to->0),
                from == (|e: Entity| self.rec(e).edge_from->0),
                outgoing ==> r@ == self.ids().take(i as int).filter(out_pred).map_values(to),
                !outgoing ==> r@ == self.ids().take(i as int).filter(in_pred).map_values(from),
            decreases self.slots@.len() - i,
        {
            let e = i as u64;
            proof {
                assert(self.ids()[i as int] == e);
                lemma_filter_step(self.ids(), i as int, out_pred);
                lemma_filter_step(self.ids(), i as int, in_pred);
            }
            let ghost before = r@;
            if let Some(rec) = self.record(e) {
                if rec.scene_edge {
                    if let (Some(a), Some(b)) = (rec.edge_from, rec.edge_to) {
                        if outgoing {
                            if a == n {
                                r.push(b);
                                assert(r@ =~= self.ids().take(i + 1).filter(out_pred).map_values(
                                    to,
                                ));
                            }
                        } else {
                            if b == n {
                                r.push(a);
                                assert(r@ =~= self.ids().take(i + 1).filter(in_pred).map_values(
                                    from,
                                ));
                            }
                        }
                    }
                }
            }
            i = i + 1;
        }
        assert(self.ids().take(i as int) =~= self.ids());
        r
    }

    /// The distinct neighbours of `node`, one hop away.
    pub fn neighbours_once(&self, node: Entity, dir: NavDir, edges: NavEdgeFilter) -> (r: Vec<
        Entity,
    >)
        requires
            self.wf(),
        ensures
            r@ == self.neighbours(node, dir, edges),
    {
        let want_out = match dir {
            NavDir::Out | NavDir::Both => true,
            _ => false,
        };
        let want_in = match dir {
            NavDir::In | NavDir::Both => true,
            _ => false,
        };
        let tree = match edges {
            NavEdgeFilter::EntityEdgesOnly => false,
            _ => true,
        };
        let graph = match edges {
            NavEdgeFilter::TreeOnly => false,
            _ => true,
        };
        let mut all: Vec<Entity> = Vec::new();
        if tree && want_out {
            let kids = self.scene_kids_of(node);
            append(&mut all, &kids);
        }
        let ghost a1 = if tree && want_out {
            self.scene_kids(node)
        } else {
            seq![]
        };
        assert(all@ =~= a1);
        if tree && want_in {
            if let Some(p) = self.parent_of(node) {
                if self.is_scene(p) {
                    all.push(p);
                }
            }
        }
        let ghost a2 = if tree && want_in {
            self.scene_parent(node)
        } else {
            seq![]
        };
        assert(all@ =~= a1 + a2);
        if graph && want_out {
            let ends = self.edge_ends(node, true);
            append(&mut all, &ends);
        }
        let ghost a3 = if graph && want_out {
            self.successors(node)
        } else {
            seq![]
        };
        assert(all@ =~= a1 + a2 + a3);
        if graph && want_in {
            let ends = self.edge_ends(node, false);
            append(&mut all, &ends);
        }
        assert(all@ =~= self.hops(node, dir, edges));
        let mut out: Vec<Entity> = Vec::new();
        assert(out@ =~= seq![]);
        extend_with(&mut out, &all);
        out
    }

    /// What `depth` hops from `from` reach, nearest first, without `from`.
    pub fn bounded_bfs(&self, from: Entity, dir: NavDir, edges: NavEdgeFilter, depth: u32) -> (r:
        Vec<Entity>)
        requires
            self.wf(),
        ensures
            r@ == self.reached(from, depth as nat, dir, edges),
    {
        let mut found: Vec<Entity> = Vec::new();
        found.push(from);
        let mut start: usize = 0;
        let mut left: u32 = depth;
        assert(found@ =~= seq![from]);
        while left > 0 && start < found.len()
            invariant
                self.wf(),
                start <= found@.len(),
                found@.len() > 0,
                self.bfs(seq![from], 0, depth as nat, dir, edges) == self.bfs(
                    found@,
                    start as int,
                    left as nat,
                    dir,
                    edges,
                ),
            decreases left,
        {
            let end = found.len();
            let ghost before = found@;
            let ghost level = before.skip(start as int);
            let mut i: usize = start;
            assert(level.take(0) =~= seq![]);
            while i < end
                invariant
                    self.wf(),
                    start <= i <= end <= found@.len(),
                    end == before.len(),
                    level == before.skip(start as int),
                    before == found@.take(end as int),
                    found@ == self.spread(before, level.take(i - start), dir, edges),
                decreases end - i,
            {
                let next = self.neighbours_once(found[i], dir, edges);
                proof {
                    assert(found@[i as int] == before[i as int]);
                    assert(level.take(i + 1 - start).drop_last() =~= level.take(i - start));
                    assert(level.take(i + 1 - start).last() == found@[i as int]);
                    lemma_extended_prefix(found@, next@);
                }
                let ghost mid = found@;
                extend_with(&mut found, &next);
                assert(found@.take(end as int) =~= mid.take(end as int)) by {
                    assert(found@.take(mid.len() as int) == mid);
                    assert(forall|k: int| 0 <= k < mid.len() ==> found@[k] == found@.take(mid.len() as int)[k]);
                }
                i = i + 1;
            }
            assert(level.take(i - start) =~= level);
            start = end;
            left = left - 1;
        }
        let mut r: Vec<Entity> = Vec::new();
        let mut k: usize = 1;
        while k < found.len()
            invariant
                1 <= k <= found@.len(),
                r@ == found@.subrange(1, k as int),
            decreases found@.len() - k,
        {
            r.push(found[k]);
            k = k + 1;
            assert(r@ =~= found@.subrange(1, k as int));
        }
        assert(r@ =~= found@.skip(1));
        r
    }
}

/// Extending keeps what is there, in place.
pub proof fn lemma_extended_prefix(found: Seq<Entity>, list: Seq<Entity>)
    ensures
        extended(found, list).len() >= found.len(),
        extended(found, list).take(found.len() as int) == found,
    decreases list.len(),
{
    if list.len() == 0 {
        assert(found.take(found.len() as int) =~= found);
    } else {
        lemma_extended_prefix(found, list.drop_last());
        let f = extended(found, list.drop_last());
        assert(f.push(list.last()).take(found.len() as int) =~= f.take(found.len() as int));
    }
}

/// Every node that `direction` reaches from `from`, however far.
fn transitive(sw: &SceneWorld, from: Entity, dir: NavDir, edges: NavEdgeFilter) -> (r: Vec<Entity>)
    requires
        sw.wf(),
    ensures
        r@ == sw.tree.reached(from, u32::MAX as nat, dir, edges),
{
    sw.tree.bounded_bfs(from, dir, edges, u32::MAX)
}

/// Every node connected to `from`, whichever way the links point.
fn connected_component(sw: &SceneWorld, from: Entity, edges: NavEdgeFilter) -> (r: Vec<Entity>)
    requires
        sw.wf(),
    ensures
        r@ == sw.tree.reached(from, u32::MAX as nat, NavDir::Both, edges),
{
    transitive(sw, from, NavDir::Both, edges)
}

/// The nodes one or more hops away from `from`.
pub fn run_navigate(sw: &SceneWorld, session: SessionId, from: Entity, opts: &NavOpts) -> (r: Vec<
    NodeRef,
>)
    requires
        sw.wf(),
    ensures
        ref_views(r@) == nav_result(*sw, from, *opts).map_values(
            |e: Entity| node_ref_or_root(*sw, e, session),
        ),
{
    let entities = match opts.direction {
        NavDir::Out | NavDir::In | NavDir::Both => {
            let depth = match opts.depth_limit {
                Some(d) => d,
                None => 1,
            };
            sw.tree.bounded_bfs(from, opts.direction, opts.edges, depth)
        },
        NavDir::Downstream => transitive(sw, from, NavDir::Out, opts.edges),
        NavDir::Upstream => transitive(sw, from, NavDir::In, opts.edges),
        NavDir::Component => connected_component(sw, from, opts.edges),
    };
    let ghost all = entities@;
    let ghost pred = |e: Entity| kind_passes(opts.kinds@, sw.tree.kind(e));
    let ghost refer = |e: Entity| node_ref_or_root(*sw, e, session);
    let mut rows: Vec<NodeRef> = Vec::new();
    let mut i: usize = 0;
    proof {
        assert(all == nav_reached(*sw, from, *opts));
        reveal(Seq::filter);
        assert(all.take(0) =~= seq![]);
        assert(ref_views(rows@) =~= all.take(0).filter(pred).map_values(refer));
    }
    while i < entities.len() && (opts.max_items == 0 || rows.len() < opts.max_items as usize)
        invariant
            sw.wf(),
            all == entities@,
            pred == (|e: Entity| kind_passes(opts.kinds@, sw.tree.kind(e))),
            refer == (|e: Entity| node_ref_or_root(*sw, e, session)),
            i <= entities@.len(),
            opts.max_items == 0 || rows@.len() <= opts.max_items,
            ref_views(rows@) == all.take(i as int).filter(pred).map_values(refer),
        decreases entities@.len() - i,
    {
        let e = entities[i];
        proof {
            lemma_filter_step(all, i as int, pred);
        }
        if passes_kinds(&opts.kinds, sw.tree.kind_of(e)) {
            let ghost before = rows@;
            rows.push(node_ref_or_root_for(sw, e, session));
            assert(ref_views(rows@) =~= ref_views(before).push(refer(e)));
            assert(ref_views(rows@) =~= all.take(i + 1).filter(pred).map_values(refer));
        }
        i = i + 1;
    }
    proof {
        let whole = all.filter(pred);
        let so_far = all.take(i as int).filter(pred);
        assert(ref_views(rows@).len() == so_far.len());
        lemma_filter_prefix(all, i as int, pred);
        if i == entities@.len() {
            assert(all.take(i as int) =~= all);
        }
        assert(limited(whole, opts.max_items) =~= so_far);
    }
    rows
}

// ---------------------------------------------------------------------------
// Laws
// ---------------------------------------------------------------------------

impl SceneTree {
    /// Whether `n` hops or fewer lead from `from` to `x`.
    pub open spec fn within(
        self,
        from: Entity,
        x: Entity,
        n: nat,
        dir: NavDir,
        edges: NavEdgeFilter,
    ) -> bool
        decreases n,
    {
        from == x || (n > 0 && exists|y: Entity|
            self.within(from, y, (n - 1) as nat, dir, edges) && (#[trigger] self.neighbours(y, dir, edges)).contains(x))
    }

    proof fn lemma_within_grows(
        self,
        from: Entity,
        x: Entity,
        n: nat,
        dir: NavDir,
        edges: NavEdgeFilter,
    )
        requires
            self.within(from, x, n, dir, edges),
        ensures
            self.within(from, x, n + 1, dir, edges),
        decreases n,
    {
        if from != x {
            let y = choose|y: Entity|
                self.within(from, y, (n - 1) as nat, dir, edges) && (#[trigger] self.neighbours(y, dir, edges)).contains(x);
            self.lemma_within_grows(from, y, (n - 1) as nat, dir, edges);
            assert(self.within(from, y, n, dir, edges));
        }
    }

    #[verifier::rlimit(40)]
    #[verifier::spinoff_prover]
    proof fn lemma_spread(
        self,
        found: Seq<Entity>,
        level: Seq<Entity>,
        dir: NavDir,
        edges: NavEdgeFilter,
        x: Entity,
    )
        ensures
            self.spread(found, level, dir, edges).contains(x) <==> found.contains(x) || exists|
                k: int,
            |
                0 <= k < level.len() && self.neighbours(#[trigger] level[k], dir, edges).contains(
                    x,
                ),
            self.spread(found, level, dir, edges).len() >= found.len(),
            self.spread(found, level, dir, edges).take(found.len() as int) == found,
            found.no_duplicates() ==> self.spread(found, level, dir, edges).no_duplicates(),
        decreases level.len(),
    {
        if level.len() == 0 {
            assert(found.take(found.len() as int) =~= found);
        } else {
            let init = level.drop_last();
            let f = self.spread(found, init, dir, edges);
            let list = self.neighbours(level.last(), dir, edges);
            self.lemma_spread(found, init, dir, edges, x);
            lemma_extended_prefix(f, list);
            lemma_extended(f, list, x);
            let g = extended(f, list);
            assert(g.take(found.len() as int) =~= f.take(found.len() as int)) by {
                assert(g.take(f.len() as int).take(found.len() as int) =~= g.take(
                    found.len() as int,
                ));
            }
            if exists|k: int|
                0 <= k < init.len() && self.neighbours(#[trigger] init[k], dir, edges).contains(
                    x,
                ) {
                let k = choose|k: int|
                    0 <= k < init.len() && self.neighbours(
                        #[trigger] init[k],
                        dir,
                        edges,
                    ).contains(x);
                assert(level[k] == init[k]);
            }
            if exists|k: int|
                0 <= k < level.len() && self.neighbours(#[trigger] level[k], dir, edges).contains(
                    x,
                ) {
                let k = choose|k: int|
                    0 <= k < level.len() && self.neighbours(
                        #[trigger] level[k],
                        dir,
                        edges,
                    ).contains(x);
                if k < init.len() {
                    assert(init[k] == level[k]);
                }
            }
            assert(level[level.len() - 1] == level.last());
        }
    }

    /// What a search state at distance `k` leads to.
    proof fn lemma_bfs(
        self,
        from: Entity,
        found: Seq<Entity>,
        start: int,
        k: nat,
        depth: nat,
        dir: NavDir,
        edges: NavEdgeFilter,
        x: Entity,
    )
        requires
            0 <= start <= found.len(),
            found.len() > 0,
            found[0] == from,
            found.no_duplicates(),
            forall|y: Entity| #[trigger]
                found.contains(y) <==> self.within(from, y, k, dir, edges),
            forall|i: int, z: Entity|
                0 <= i < start && self.neighbours(#[trigger] found[i], dir, edges).contains(z)
                    ==> #[trigger] found.contains(z),
        ensures
            self.bfs(found, start, depth, dir, edges).contains(x) <==> self.within(
                from,
                x,
                k + depth,
                dir,
                edges,
            ),
            self.bfs(found, start, depth, dir, edges).no_duplicates(),
            self.bfs(found, start, depth, dir, edges).len() > 0,
            self.bfs(found, start, depth, dir, edges)[0] == from,
        decreases depth,
    {
        if depth == 0 {
            assert(found.contains(x) <==> self.within(from, x, k, dir, edges));
        } else if start >= found.len() {
            self.lemma_within_closed(from, found, k, depth, dir, edges, x);
        } else {
            let level = found.skip(start);
            let next = self.spread(found, level, dir, edges);
            self.lemma_spread(found, level, dir, edges, x);
            assert(next[0] == next.take(found.len() as int)[0]);
            assert forall|y: Entity| #[trigger] next.contains(y) <==> self.within(
                from,
                y,
                k + 1,
                dir,
                edges,
            ) by {
                self.lemma_spread(found, level, dir, edges, y);
                if next.contains(y) {
                    if found.contains(y) {
                        self.lemma_within_grows(from, y, k, dir, edges);
                    } else {
                        let j = choose|j: int|
                            0 <= j < level.len() && self.neighbours(
                                #[trigger] level[j],
                                dir,
                                edges,
                            ).contains(y);
                        assert(found.contains(found[start + j]));
                        assert(self.within(from, level[j], k, dir, edges));
                    }
                }
                if self.within(from, y, k + 1, dir, edges) && !found.contains(y) {
                    assert(found.contains(from));
                    let z = choose|z: Entity|
                        self.within(from, z, k, dir, edges) && (#[trigger] self.neighbours(z, dir, edges)).contains(y);
                    assert(found.contains(z));
                    let i = choose|i: int| 0 <= i < found.len() && found[i] == z;
                    if i < start {
                        assert(found.contains(y));
                    } else {
                        assert(level[i - start] == z);
                    }
                }
            }
            assert forall|i: int, z: Entity|
                0 <= i < found.len() && self.neighbours(#[trigger] next[i], dir, edges).contains(
                    z,
                ) implies #[trigger] next.contains(z) by {
                assert(next[i] == next.take(found.len() as int)[i]);
                assert(next[i] == found[i]);
                self.lemma_spread(found, level, dir, edges, z);
                if i < start {
                    assert(found.contains(z));
                } else {
                    assert(level[i - start] == found[i]);
                }
            }
            self.lemma_bfs(
                from,
                next,
                found.len() as int,
                k + 1,
                (depth - 1) as nat,
                dir,
                edges,
                x,
            );
        }
    }

    /// Once nothing new is found, more hops lead nowhere new.
    proof fn lemma_within_closed(
        self,
        from: Entity,
        found: Seq<Entity>,
        k: nat,
        more: nat,
        dir: NavDir,
        edges: NavEdgeFilter,
        x: Entity,
    )
        requires
            forall|y: Entity| #[trigger]
                found.contains(y) <==> self.within(from, y, k, dir, edges),
            forall|i: int, z: Entity|
                0 <= i < found.len() && self.neighbours(
                    #[trigger] found[i],
                    dir,
                    edges,
                ).contains(z) ==> #[trigger] found.contains(z),
        ensures
            found.contains(x) <==> self.within(from, x, k + more, dir, edges),
        decreases more,
    {
        if more > 0 {
            self.lemma_within_closed(from, found, k, (more - 1) as nat, dir, edges, x);
            let n = (k + more - 1) as nat;
            if found.contains(x) {
                self.lemma_within_grows(from, x, n, dir, edges);
            }
            if self.within(from, x, n + 1, dir, edges) {
                if from == x {
                    assert(self.within(from, x, k, dir, edges));
                } else {
                    let y = choose|y: Entity|
                        self.within(from, y, n, dir, edges) && (#[trigger] self.neighbours(y, dir, edges)).contains(x);
                    self.lemma_within_closed(from, found, k, (more - 1) as nat, dir, edges, y);
                    let i = choose|i: int| 0 <= i < found.len() && found[i] == y;
                    assert(found.contains(x));
                }
            }
        } else {
            assert(found.contains(x) <==> self.within(from, x, k, dir, edges));
        }
    }

    /// Navigation reaches exactly the nodes, other than the start, to which
    /// that many hops or fewer lead, each of them once.
    pub proof fn navigation_reaches_exactly(
        self,
        from: Entity,
        depth: nat,
        dir: NavDir,
        edges: NavEdgeFilter,
        x: Entity,
    )
        ensures
            self.reached(from, depth, dir, edges).contains(x) <==> x != from && self.within(
                from,
                x,
                depth,
                dir,
                edges,
            ),
            self.reached(from, depth, dir, edges).no_duplicates(),
    {
        let found = seq![from];
        assert forall|y: Entity| #[trigger] found.contains(y) <==> self.within(
            from,
            y,
            0,
            dir,
            edges,
        ) by {
            assert(found[0] == from);
        }
        self.lemma_bfs(from, found, 0, 0, depth, dir, edges, x);
        let all = self.bfs(found, 0, depth, dir, edges);
        let rest = all.skip(1);
        if rest.contains(x) {
            let i = choose|i: int| 0 <= i < rest.len() && rest[i] == x;
            assert(all[i + 1] == x);
            assert(all[0] != all[i + 1]);
        }
        if all.contains(x) && x != from {
            let i = choose|i: int| 0 <= i < all.len() && all[i] == x;
            assert(rest[i - 1] == x);
        }
        assert forall|i: int, j: int| 0 <= i < rest.len() && 0 <= j < rest.len() && i != j implies
            rest[i] != rest[j] by {
            assert(all[i + 1] != all[j + 1]);
        }
    }
}

/// What an extended sequence holds.
proof fn lemma_extended(found: Seq<Entity>, list: Seq<Entity>, x: Entity)
    ensures
        extended(found, list).contains(x) <==> found.contains(x) || list.contains(x),
        found.no_duplicates() ==> extended(found, list).no_duplicates(),
    decreases list.len(),
{
    if list.len() > 0 {
        let init = list.drop_last();
        lemma_extended(found, init, x);
        lemma_extended(found, init, list.last());
        assert(list =~= init.push(list.last()));
        lemma_push_contains(init, list.last(), x);
        let f = extended(found, init);
        lemma_push_contains(f, list.last(), x);
        if found.no_duplicates() && !f.contains(list.last()) {
            assert(f.push(list.last()).no_duplicates());
        }
    }
}

/// Whether some live edge of the scene leads from `a` to `b`.
pub open spec fn edge_from_to(tree: SceneTree, a: Entity, b: Entity) -> bool {
    exists|e: Entity| #[trigger]
        tree.alive(e) && tree.rec(e).scene_edge && tree.rec(e).edge_from == Some(a) && tree.rec(
            e,
        ).edge_to == Some(b)
}

/// Whether `a` is the parent of `b`.
pub open spec fn parent_of(tree: SceneTree, a: Entity, b: Entity) -> bool {
    tree.alive(b) && tree.rec(b).parent == Some(a)
}

/// Whether `a` points to the scene node `b`, by the tree or by an edge.
pub open spec fn points_down(tree: SceneTree, a: Entity, b: Entity, edges: NavEdgeFilter) -> bool {
    ||| edges != NavEdgeFilter::EntityEdgesOnly && parent_of(tree, a, b) && tree.rec(b).scene_node
    ||| edges != NavEdgeFilter::TreeOnly && edge_from_to(tree, a, b)
}

/// Whether the scene node `a` points to `b`, by the tree or by an edge.
pub open spec fn points_up(tree: SceneTree, a: Entity, b: Entity, edges: NavEdgeFilter) -> bool {
    ||| edges != NavEdgeFilter::EntityEdgesOnly && parent_of(tree, a, b) && tree.alive(a)
        && tree.rec(a).scene_node
    ||| edges != NavEdgeFilter::TreeOnly && edge_from_to(tree, a, b)
}

impl SceneTree {
    proof fn lemma_edge_ends(self, n: Entity, x: Entity)
        ensures
            self.successors(n).contains(x) <==> edge_from_to(self, n, x),
            self.predecessors(n).contains(x) <==> edge_from_to(self, x, n),
    {
        let leaves = |e: Entity| self.is_edge(e) && self.rec(e).edge_from == Some(n);
        let enters = |e: Entity| self.is_edge(e) && self.rec(e).edge_to == Some(n);
        if self.successors(n).contains(x) {
            let k = choose|k: int| 0 <= k < self.successors(n).len() && self.successors(n)[k] == x;
            let e = self.out_edges(n)[k];
            assert(self.out_edges(n).contains(e));
            lemma_filter_contains(self.ids(), leaves, e);
            assert(self.alive(e));
        }
        if edge_from_to(self, n, x) {
            let e = choose|e: Entity| #[trigger]
                self.alive(e) && self.rec(e).scene_edge && self.rec(e).edge_from == Some(n)
                    && self.rec(e).edge_to == Some(x);
            assert(self.ids()[e as int] == e);
            lemma_filter_contains(self.ids(), leaves, e);
            let k = choose|k: int| 0 <= k < self.out_edges(n).len() && self.out_edges(n)[k] == e;
            assert(self.successors(n)[k] == x);
        }
        if self.predecessors(n).contains(x) {
            let k = choose|k: int|
                0 <= k < self.predecessors(n).len() && self.predecessors(n)[k] == x;
            let e = self.in_edges(n)[k];
            assert(self.in_edges(n).contains(e));
            lemma_filter_contains(self.ids(), enters, e);
            assert(self.alive(e));
        }
        if edge_from_to(self, x, n) {
            let e = choose|e: Entity| #[trigger]
                self.alive(e) && self.rec(e).scene_edge && self.rec(e).edge_from == Some(x)
                    && self.rec(e).edge_to == Some(n);
            assert(self.ids()[e as int] == e);
            lemma_filter_contains(self.ids(), enters, e);
            let k = choose|k: int| 0 <= k < self.in_edges(n).len() && self.in_edges(n)[k] == e;
            assert(self.predecessors(n)[k] == x);
        }
    }

    proof fn lemma_tree_ends(self, n: Entity, x: Entity)
        requires
            self.wf(),
        ensures
            self.scene_kids(n).contains(x) <==> parent_of(self, n, x) && self.rec(x).scene_node,
            self.scene_parent(n).contains(x) <==> parent_of(self, x, n) && self.alive(x)
                && self.rec(x).scene_node,
    {
        lemma_filter_contains(self.kids(n), |c: Entity| self.scene(c), x);
        if self.kids(n).contains(x) {
            let i = choose|i: int| 0 <= i < self.kids(n).len() && self.kids(n)[i] == x;
            assert(self.alive(self.kids(n)[i]));
        }
        if parent_of(self, n, x) {
            assert(self.alive(x) && self.parent(x) is Some);
        }
        if self.parent(n) is Some && self.scene(self.parent(n)->0) {
            assert(self.scene_parent(n)[0] == self.parent(n)->0);
        }
    }

    /// One hop out leads to exactly what a node points to, one hop in to exactly
    /// what points to it, and one hop either way to both: scene children and
    /// where edges lead, the scene parent and where edges come from, as far as
    /// the tree and the edges are looked at.
    pub proof fn one_hop_follows_links(self, n: Entity, x: Entity, edges: NavEdgeFilter)
        requires
            self.wf(),
        ensures
            self.neighbours(n, NavDir::Out, edges).contains(x) <==> points_down(self, n, x, edges),
            self.neighbours(n, NavDir::In, edges).contains(x) <==> points_up(self, x, n, edges),
            self.neighbours(n, NavDir::Both, edges).contains(x) <==> points_down(self, n, x, edges)
                || points_up(self, x, n, edges),
    {
        self.lemma_edge_ends(n, x);
        self.lemma_tree_ends(n, x);
        lemma_extended(seq![], self.hops(n, NavDir::Out, edges), x);
        lemma_extended(seq![], self.hops(n, NavDir::In, edges), x);
        lemma_extended(seq![], self.hops(n, NavDir::Both, edges), x);
        self.lemma_hops(n, NavDir::Out, edges, x);
        self.lemma_hops(n, NavDir::In, edges, x);
        self.lemma_hops(n, NavDir::Both, edges, x);
    }

    proof fn lemma_hops(self, n: Entity, dir: NavDir, edges: NavEdgeFilter, x: Entity)
        ensures
            self.hops(n, dir, edges).contains(x) <==> {
                let want_out = dir == NavDir::Out || dir == NavDir::Both;
                let want_in = dir == NavDir::In || dir == NavDir::Both;
                let tree = edges != NavEdgeFilter::EntityEdgesOnly;
                let graph = edges != NavEdgeFilter::TreeOnly;
                ||| tree && want_out && self.scene_kids(n).contains(x)
                ||| tree && want_in && self.scene_parent(n).contains(x)
                ||| graph && want_out && self.successors(n).contains(x)
                ||| graph && want_in && self.predecessors(n).contains(x)
            },
    {
        let want_out = dir == NavDir::Out || dir == NavDir::Both;
        let want_in = dir == NavDir::In || dir == NavDir::Both;
        let tree = edges != NavEdgeFilter::EntityEdgesOnly;
        let graph = edges != NavEdgeFilter::TreeOnly;
        let none = Seq::<Entity>::empty();
        let a = if tree && want_out { self.scene_kids(n) } else { none };
        let b = if tree && want_in { self.scene_parent(n) } else { none };
        let c = if graph && want_out { self.successors(n) } else { none };
        let d = if graph && want_in { self.predecessors(n) } else { none };
        assert(self.hops(n, dir, edges) == a + b + c + d);
        lemma_concat_contains(a, b, x);
        lemma_concat_contains(a + b, c, x);
        lemma_concat_contains(a + b + c, d, x);
    }

    /// Along edges, one node is a hop in from another exactly where the other is
    /// a hop out from it; along the tree the same holds of two scene nodes.
    pub proof fn in_mirrors_out(self, n: Entity, x: Entity)
        requires
            self.wf(),
        ensures
            self.neighbours(n, NavDir::In, NavEdgeFilter::EntityEdgesOnly).contains(x)
                <==> self.neighbours(x, NavDir::Out, NavEdgeFilter::EntityEdgesOnly).contains(n),
            self.alive(n) && self.rec(n).scene_node && self.alive(x) && self.rec(x).scene_node
                ==> (self.neighbours(n, NavDir::In, NavEdgeFilter::TreeOnly).contains(x)
                <==> self.neighbours(x, NavDir::Out, NavEdgeFilter::TreeOnly).contains(n)),
    {
        self.one_hop_follows_links(n, x, NavEdgeFilter::EntityEdgesOnly);
        self.one_hop_follows_links(x, n, NavEdgeFilter::EntityEdgesOnly);
        self.one_hop_follows_links(n, x, NavEdgeFilter::TreeOnly);
        self.one_hop_follows_links(x, n, NavEdgeFilter::TreeOnly);
    }

    /// The first hop of a way may be told apart as well as its last.
    proof fn lemma_within_first(
        self,
        from: Entity,
        y: Entity,
        x: Entity,
        n: nat,
        dir: NavDir,
        edges: NavEdgeFilter,
    )
        requires
            self.neighbours(from, dir, edges).contains(y),
            self.within(y, x, n, dir, edges),
        ensures
            self.within(from, x, n + 1, dir, edges),
        decreases n,
    {
        if y == x {
            assert(self.within(from, from, 0, dir, edges));
            self.lemma_within_start(from, n, dir, edges);
            assert(self.within(from, from, n, dir, edges) && self.neighbours(
                from,
                dir,
                edges,
            ).contains(x));
        } else {
            let z = choose|z: Entity|
                self.within(y, z, (n - 1) as nat, dir, edges) && (#[trigger] self.neighbours(
                    z,
                    dir,
                    edges,
                )).contains(x);
            self.lemma_within_first(from, y, z, (n - 1) as nat, dir, edges);
            assert(self.within(from, z, n, dir, edges) && self.neighbours(z, dir, edges).contains(
                x,
            ));
        }
    }

    proof fn lemma_within_start(self, from: Entity, n: nat, dir: NavDir, edges: NavEdgeFilter)
        ensures
            self.within(from, from, n, dir, edges),
    {
    }

    /// Along edges, what can be reached against their direction is what can be
    /// reached from there along it, in as many hops.
    pub proof fn upstream_mirrors_downstream(self, a: Entity, b: Entity, n: nat)
        requires
            self.wf(),
            self.within(a, b, n, NavDir::In, NavEdgeFilter::EntityEdgesOnly),
        ensures
            self.within(b, a, n, NavDir::Out, NavEdgeFilter::EntityEdgesOnly),
        decreases n,
    {
        if a != b {
            let z = choose|z: Entity|
                self.within(a, z, (n - 1) as nat, NavDir::In, NavEdgeFilter::EntityEdgesOnly) && (
                #[trigger] self.neighbours(
                    z,
                    NavDir::In,
                    NavEdgeFilter::EntityEdgesOnly,
                )).contains(b);
            self.upstream_mirrors_downstream(a, z, (n - 1) as nat);
            self.in_mirrors_out(z, b);
            self.lemma_within_first(
                b,
                z,
                a,
                (n - 1) as nat,
                NavDir::Out,
                NavEdgeFilter::EntityEdgesOnly,
            );
        }
    }

    /// More hops reach no less.
    pub proof fn more_hops_reach_no_less(
        self,
        from: Entity,
        x: Entity,
        n: nat,
        m: nat,
        dir: NavDir,
        edges: NavEdgeFilter,
    )
        requires
            n <= m,
            self.reached(from, n, dir, edges).contains(x),
        ensures
            self.reached(from, m, dir, edges).contains(x),
        decreases m - n,
    {
        if n < m {
            self.navigation_reaches_exactly(from, n, dir, edges, x);
            self.lemma_within_grows(from, x, n, dir, edges);
            self.navigation_reaches_exactly(from, n + 1, dir, edges, x);
            self.more_hops_reach_no_less(from, x, n + 1, m, dir, edges);
        }
    }
}

/// Whether a node is of one of the kinds asked for, where any are.
pub open spec fn of_kinds(tree: SceneTree, kinds: Seq<NodeKind>, x: Entity) -> bool {
    kinds.len() == 0 || (tree.alive(x) && exists|i: int|
        0 <= i < kinds.len() && tree.rec(x).kind == Some(#[trigger] kinds[i]))
}

/// A filter by kinds passes exactly the nodes of a kind asked for.
pub proof fn lemma_of_kinds(tree: SceneTree, kinds: Seq<NodeKind>, x: Entity)
    ensures
        kind_passes(kinds, tree.kind(x)) <==> of_kinds(tree, kinds, x),
{
    if tree.kind(x) is Some && kinds.contains(tree.kind(x)->0) {
        let i = choose|i: int| 0 <= i < kinds.len() && kinds[i] == tree.kind(x)->0;
        assert(tree.rec(x).kind == Some(kinds[i]));
    }
    if tree.alive(x) && exists|i: int|
        0 <= i < kinds.len() && tree.rec(x).kind == Some(#[trigger] kinds[i]) {
        let i = choose|i: int| 0 <= i < kinds.len() && tree.rec(x).kind == Some(#[trigger] kinds[i]);
        assert(kinds.contains(kinds[i]));
    }
}

/// Navigation by one hop, which it is without a depth limit, returns exactly the
/// nodes at the other end of a link in the direction asked for, other than the
/// start, that are of a kind asked for.
pub proof fn navigate_one_hop(w: SceneWorld, from: Entity, opts: NavOpts, x: Entity)
    requires
        w.wf(),
        opts.max_items == 0,
        opts.depth_limit is None || opts.depth_limit == Some(1u32),
        opts.direction == NavDir::Out || opts.direction == NavDir::In || opts.direction
            == NavDir::Both,
    ensures
        nav_result(w, from, opts).contains(x) <==> x != from && of_kinds(w.tree, opts.kinds@, x)
            && (match opts.direction {
            NavDir::Out => points_down(w.tree, from, x, opts.edges),
            NavDir::In => points_up(w.tree, x, from, opts.edges),
            _ => points_down(w.tree, from, x, opts.edges) || points_up(
                w.tree,
                x,
                from,
                opts.edges,
            ),
        }),
{
    let tree = w.tree;
    let dir = opts.direction;
    lemma_nav_kept(w, from, opts, x);
    tree.navigation_reaches_exactly(from, 1, dir, opts.edges, x);
    tree.one_hop_follows_links(from, x, opts.edges);
    assert(tree.within(from, from, 0, dir, opts.edges));
    if tree.within(from, x, 1, dir, opts.edges) && x != from {
        let y = choose|y: Entity|
            tree.within(from, y, 0, dir, opts.edges) && (#[trigger] tree.neighbours(
                y,
                dir,
                opts.edges,
            )).contains(x);
        assert(y == from);
    }
}

/// What navigation returns without a cap.
proof fn lemma_nav_kept(w: SceneWorld, from: Entity, opts: NavOpts, x: Entity)
    ensures
        nav_result(w, from, opts).contains(x) ==> nav_reached(w, from, opts).contains(x)
            && of_kinds(w.tree, opts.kinds@, x),
        opts.max_items == 0 ==> (nav_result(w, from, opts).contains(x) <==> nav_reached(
            w,
            from,
            opts,
        ).contains(x) && of_kinds(w.tree, opts.kinds@, x)),
{
    let pred = |e: Entity| kind_passes(opts.kinds@, w.tree.kind(e));
    let kept = nav_reached(w, from, opts).filter(pred);
    lemma_filter_contains(nav_reached(w, from, opts), pred, x);
    lemma_limited_contains(kept, opts.max_items, x);
    lemma_of_kinds(w.tree, opts.kinds@, x);
}

/// However far it goes and however it is capped, navigation returns no node
/// twice, never its start, only nodes of a kind asked for, and no more than the
/// cap.
pub proof fn navigate_keeps_filters(w: SceneWorld, from: Entity, opts: NavOpts, x: Entity)
    ensures
        nav_result(w, from, opts).no_duplicates(),
        nav_result(w, from, opts).contains(x) ==> x != from && of_kinds(w.tree, opts.kinds@, x),
        opts.max_items != 0 ==> nav_result(w, from, opts).len() <= opts.max_items,
{
    let (dir, depth) = nav_plan(opts);
    lemma_nav_kept(w, from, opts, x);
    w.tree.navigation_reaches_exactly(from, depth, dir, opts.edges, x);
    lemma_filter_no_duplicates(
        nav_reached(w, from, opts),
        |e: Entity| kind_passes(opts.kinds@, w.tree.kind(e)),
    );
}

/// Several hops: a node is reached exactly where as many hops or fewer, each in
/// the direction asked for, lead to it.
pub proof fn navigate_hops(w: SceneWorld, from: Entity, opts: NavOpts, x: Entity)
    requires
        opts.max_items == 0,
        opts.depth_limit is Some,
        opts.direction == NavDir::Out || opts.direction == NavDir::In || opts.direction
            == NavDir::Both,
    ensures
        nav_result(w, from, opts).contains(x) <==> x != from && of_kinds(w.tree, opts.kinds@, x)
            && w.tree.within(from, x, opts.depth_limit->0 as nat, opts.direction, opts.edges),
{
    lemma_nav_kept(w, from, opts, x);
    w.tree.navigation_reaches_exactly(
        from,
        opts.depth_limit->0 as nat,
        opts.direction,
        opts.edges,
        x,
    );
}

/// The transitive directions are the plain ones without a limit on the hops:
/// downstream is out, upstream is in, the component is both.
pub proof fn transitive_is_unlimited(w: SceneWorld, from: Entity, opts: NavOpts)
    ensures
        nav_result(w, from, NavOpts { direction: NavDir::Downstream, ..opts }) == nav_result(
            w,
            from,
            NavOpts { direction: NavDir::Out, depth_limit: Some(u32::MAX), ..opts },
        ),
        nav_result(w, from, NavOpts { direction: NavDir::Upstream, ..opts }) == nav_result(
            w,
            from,
            NavOpts { direction: NavDir::In, depth_limit: Some(u32::MAX), ..opts },
        ),
        nav_result(w, from, NavOpts { direction: NavDir::Component, ..opts }) == nav_result(
            w,
            from,
            NavOpts { direction: NavDir::Both, depth_limit: Some(u32::MAX), ..opts },
        ),
{
}

impl SceneTree {
    proof fn lemma_bfs_keeps(
        self,
        found: Seq<Entity>,
        start: int,
        depth: nat,
        dir: NavDir,
        edges: NavEdgeFilter,
    )
        requires
            0 <= start <= found.len(),
        ensures
            found.is_prefix_of(self.bfs(found, start, depth, dir, edges)),
            self.bfs(found, start, depth, dir, edges).is_prefix_of(
                self.bfs(found, start, depth + 1, dir, edges),
            ),
        decreases depth,
    {
        let next = self.spread(found, found.skip(start), dir, edges);
        if start < found.len() {
            self.lemma_spread(found, found.skip(start), dir, edges, 0);
            assert(found =~= next.take(found.len() as int));
            if depth > 0 {
                self.lemma_bfs_keeps(next, found.len() as int, (depth - 1) as nat, dir, edges);
                assert forall|i: int| 0 <= i < found.len() implies found[i] == self.bfs(
                    found,
                    start,
                    depth,
                    dir,
                    edges,
                )[i] by {
                    assert(next[i] == next.take(found.len() as int)[i]);
                }
            } else {
                assert(self.bfs(found, start, 1, dir, edges) == self.bfs(
                    next,
                    found.len() as int,
                    0,
                    dir,
                    edges,
                ));
            }
        }
    }

    /// What is nearer comes first: what fewer hops reach is what more hops reach
    /// first, in the same order.
    pub proof fn nearest_comes_first(
        self,
        from: Entity,
        n: nat,
        dir: NavDir,
        edges: NavEdgeFilter,
    )
        ensures
            self.reached(from, n, dir, edges).is_prefix_of(self.reached(from, n + 1, dir, edges)),
    {
        self.lemma_bfs_keeps(seq![from], 0, n, dir, edges);
        let a = self.bfs(seq![from], 0, n, dir, edges);
        let b = self.bfs(seq![from], 0, n + 1, dir, edges);
        assert(seq![from].len() == 1);
        assert(a.len() >= 1 && a.len() <= b.len());
        assert(a =~= b.subrange(0, a.len() as int));
        assert forall|i: int| 0 <= i < a.skip(1).len() implies a.skip(1)[i] == b.skip(1)[i] by {
            assert(a[i + 1] == b.subrange(0, a.len() as int)[i + 1]);
        }
        assert(a.skip(1) =~= b.skip(1).subrange(0, a.skip(1).len() as int));
    }
}

/// A cap cuts off the end and nothing else: what navigation returns with one is
/// the beginning of what it returns without.
pub proof fn navigate_cap_cuts_the_end(w: SceneWorld, from: Entity, opts: NavOpts, i: int)
    ensures
        ({
            let all = nav_result(w, from, NavOpts { max_items: 0, ..opts });
            let some = nav_result(w, from, opts);
            &&& opts.max_items == 0 || all.len() <= opts.max_items ==> some.len() == all.len()
            &&& opts.max_items != 0 && all.len() > opts.max_items ==> some.len() == opts.max_items
            &&& 0 <= i < some.len() ==> some[i] == all[i]
        }),
{
    let free = NavOpts { max_items: 0, ..opts };
    assert(nav_reached(w, from, free) == nav_reached(w, from, opts));
    assert(nav_result(w, from, free) == nav_reached(w, from, opts).filter(
        |e: Entity| kind_passes(opts.kinds@, w.tree.kind(e)),
    ));
}

} // verus!
