//! Structural search: finding every place where a small pattern of nodes and
//! edges occurs in the scene.
use vstd::prelude::*;

use crate::agent::handle::{
    node_ref_or_root, node_ref_or_root_for, path_ref, ref_views, resolved_target, target_view,
    NodeRef, NodeRefView, NodeTarget, SessionId,
};
use crate::agent::path::ScenePath;
use crate::agent::scene::{first_where, Entity, NodeKind, SceneTree};
use crate::agent::world::SceneWorld;
use crate::seqs::{
    lemma_concat_no_duplicates, lemma_filter_contains, lemma_filter_no_duplicates,
    lemma_filter_step, lemma_push_contains,
};
use crate::text::same_text;

verus! {

/// A node slot of a pattern.
#[derive(Clone, Copy, Debug, PartialEq, Eq, Structural)]
pub struct PNode(pub usize);

/// An edge slot of a pattern.
#[derive(Clone, Copy, Debug, PartialEq, Eq, Structural)]
pub struct PEdge(pub usize);

#[derive(Clone, Copy, Debug, PartialEq, Eq, Structural)]
pub enum PatternDirection {
    /// An edge from the slot `from` to the slot `to`.
    Forward,
    /// An edge from the slot `to` to the slot `from`.
    Backward,
}

/// An edge of a pattern, between two node slots.
#[derive(Clone, Copy, Debug, PartialEq, Eq, Structural)]
pub struct EdgePattern {
    pub from: usize,
    pub to: usize,
    pub direction: PatternDirection,
}

/// The entities that a slot admits.
#[derive(Debug)]
pub struct SlotFilter {
    pub slot: usize,
    pub admitted: Vec<Entity>,
}

/// What a [`SlotFilter`] holds.
#[verifier::ext_equal]
pub struct SlotFilterView {
    pub slot: usize,
    pub admitted: Seq<Entity>,
}

impl View for SlotFilter {
    type V = SlotFilterView;

    open spec fn view(&self) -> SlotFilterView {
        SlotFilterView { slot: self.slot, admitted: self.admitted@ }
    }
}

pub open spec fn filter_views(list: Seq<SlotFilter>) -> Seq<SlotFilterView> {
    list.map_values(|f: SlotFilter| f@)
}

/// Whether every filter on `slot` admits `e`.
pub open spec fn admits(filters: Seq<SlotFilterView>, slot: int, e: Entity) -> bool {
    forall|i: int|
        0 <= i < filters.len() && (#[trigger] filters[i]).slot == slot
            ==> filters[i].admitted.contains(e)
}

/// The shape to look for: how many nodes, which edges between them, which of
/// the nodes are known, and which entities the slots admit. A slot without a
/// filter admits every entity.
#[derive(Debug)]
pub struct Pattern {
    pub nodes: usize,
    pub edges: Vec<EdgePattern>,
    pub anchors: Vec<(usize, Entity)>,
    pub node_filters: Vec<SlotFilter>,
    pub edge_filters: Vec<SlotFilter>,
}

/// What a [`Pattern`] holds.
#[verifier::ext_equal]
pub struct PatternView {
    pub nodes: nat,
    pub edges: Seq<EdgePattern>,
    pub anchors: Seq<(usize, Entity)>,
    pub node_filters: Seq<SlotFilterView>,
    pub edge_filters: Seq<SlotFilterView>,
}

impl View for Pattern {
    type V = PatternView;

    open spec fn view(&self) -> PatternView {
        PatternView {
            nodes: self.nodes as nat,
            edges: self.edges@,
            anchors: self.anchors@,
            node_filters: filter_views(self.node_filters@),
            edge_filters: filter_views(self.edge_filters@),
        }
    }
}

/// One place where a pattern occurs.
#[derive(Debug)]
pub struct Match {
    pub nodes: Vec<Entity>,
    pub edges: Vec<Entity>,
}

/// What a [`Match`] holds.
#[verifier::ext_equal]
pub struct MatchView {
    pub nodes: Seq<Entity>,
    pub edges: Seq<Entity>,
}

impl View for Match {
    type V = MatchView;

    open spec fn view(&self) -> MatchView {
        MatchView { nodes: self.nodes@, edges: self.edges@ }
    }
}

pub open spec fn match_views(list: Seq<Match>) -> Seq<MatchView> {
    list.map_values(|m: Match| m@)
}

impl Match {
    /// The entity bound to a node slot.
    pub fn node(&self, n: PNode) -> (r: Entity)
        requires
            n.0 < self.nodes@.len(),
        ensures
            r == self.nodes@[n.0 as int],
    {
        self.nodes[n.0]
    }
}

// ---------------------------------------------------------------------------
// Matching
// ---------------------------------------------------------------------------

/// The source slot of a pattern edge.
pub open spec fn edge_source(e: EdgePattern) -> usize {
    match e.direction {
        PatternDirection::Forward => e.from,
        PatternDirection::Backward => e.to,
    }
}

/// The target slot of a pattern edge.
pub open spec fn edge_target(e: EdgePattern) -> usize {
    match e.direction {
        PatternDirection::Forward => e.to,
        PatternDirection::Backward => e.from,
    }
}

impl SceneTree {
    /// The first edge from `a` to `b` that the edge slot `slot` admits.
    pub open spec fn edge_between(
        self,
        filters: Seq<SlotFilterView>,
        slot: int,
        a: Entity,
        b: Entity,
    ) -> Option<Entity> {
        first_where(
            self.ids(),
            |e: Entity|
                self.is_edge(e) && self.rec(e).edge_from == Some(a) && self.rec(e).edge_to == Some(
                    b,
                ) && admits(filters, slot, e),
        )
    }

    /// The edge that a binding gives an edge slot.
    pub open spec fn bound_edge(self, p: PatternView, slot: int, bound: Seq<Entity>) -> Option<
        Entity,
    > {
        self.edge_between(
            p.edge_filters,
            slot,
            bound[edge_source(p.edges[slot]) as int],
            bound[edge_target(p.edges[slot]) as int],
        )
    }

    /// The scene nodes.
    pub open spec fn scene_ids(self) -> Seq<Entity> {
        self.ids().filter(|e: Entity| self.scene(e))
    }

    /// Whether an edge of a pattern is there, as far as its ends are bound.
    pub open spec fn edge_holds(self, p: PatternView, slot: int, bound: Seq<Entity>) -> bool {
        edge_source(p.edges[slot]) < bound.len() && edge_target(p.edges[slot]) < bound.len()
            ==> self.bound_edge(p, slot, bound) is Some
    }

    /// Whether `bound` binds the first slots of a pattern: to different
    /// entities, the known ones where they are known, each admitted by its slot,
    /// with every edge between bound slots there.
    pub open spec fn consistent(self, p: PatternView, bound: Seq<Entity>) -> bool {
        &&& bound.no_duplicates()
        &&& forall|i: int|
            0 <= i < p.anchors.len() && (#[trigger] p.anchors[i]).0 < bound.len()
                ==> bound[p.anchors[i].0 as int] == p.anchors[i].1
        &&& forall|i: int| 0 <= i < bound.len() ==> admits(p.node_filters, i, #[trigger] bound[i])
        &&& forall|i: int| 0 <= i < p.edges.len() ==> #[trigger] self.edge_holds(p, i, bound)
    }

    /// The bindings that add one of the first `n` scene nodes to `bound`.
    pub open spec fn extensions(self, p: PatternView, bound: Seq<Entity>, n: nat) -> Seq<Seq<Entity>>
        decreases n,
    {
        if n == 0 {
            seq![]
        } else {
            let rest = self.extensions(p, bound, (n - 1) as nat);
            let next = bound.push(self.scene_ids()[n - 1]);
            if self.consistent(p, next) {
                rest.push(next)
            } else {
                rest
            }
        }
    }

    /// The bindings that add one scene node to one of `list`.
    pub open spec fn all_extensions(self, p: PatternView, list: Seq<Seq<Entity>>) -> Seq<Seq<Entity>>
        decreases list.len(),
    {
        if list.len() == 0 {
            seq![]
        } else {
            self.all_extensions(p, list.drop_last()) + self.extensions(
                p,
                list.last(),
                self.scene_ids().len(),
            )
        }
    }

    /// The bindings of the first `k` slots.
    pub open spec fn bindings(self, p: PatternView, k: nat) -> Seq<Seq<Entity>>
        decreases k,
    {
        if k == 0 {
            seq![seq![]]
        } else {
            self.all_extensions(p, self.bindings(p, (k - 1) as nat))
        }
    }

    /// The edges that a binding of all slots uses.
    pub open spec fn bound_edges(self, p: PatternView, bound: Seq<Entity>) -> Seq<Entity> {
        Seq::new(p.edges.len(), |i: int| self.bound_edge(p, i, bound)->0)
    }

    /// Every place where the pattern occurs.
    pub open spec fn matches(self, p: PatternView) -> Seq<MatchView> {
        self.bindings(p, p.nodes).map_values(
            |b: Seq<Entity>| MatchView { nodes: b, edges: self.bound_edges(p, b) },
        )
    }
}

impl Pattern {
    /// Whether every edge and anchor refers to a slot that is there.
    pub open spec fn wf(self) -> bool {
        &&& forall|i: int|
            0 <= i < self.edges@.len() ==> (#[trigger] self.edges@[i]).from < self.nodes
                && self.edges@[i].to < self.nodes
        &&& forall|i: int|
            0 <= i < self.anchors@.len() ==> (#[trigger] self.anchors@[i]).0 < self.nodes
    }
}

/// Builds a [`Pattern`].
pub struct PatternBuilder {
    pub pattern: Pattern,
}

impl PatternBuilder {
    pub fn new() -> (r: Self)
        ensures
            r.pattern.wf(),
            r.pattern.nodes == 0,
            r.pattern.edges@.len() == 0,
            r.pattern.anchors@.len() == 0,
            r.pattern.node_filters@.len() == 0,
            r.pattern.edge_filters@.len() == 0,
    {
        PatternBuilder {
            pattern: Pattern {
                nodes: 0,
                edges: Vec::new(),
                anchors: Vec::new(),
                node_filters: Vec::new(),
                edge_filters: Vec::new(),
            },
        }
    }

    /// Adds a node slot that admits every scene node.
    pub fn node(&mut self) -> (r: PNode)
        requires
            old(self).pattern.wf(),
            old(self).pattern.nodes < usize::MAX,
        ensures
            final(self).pattern.wf(),
            r.0 == old(self).pattern.nodes,
            final(self).pattern@ == (PatternView {
                nodes: old(self).pattern@.nodes + 1,
                ..old(self).pattern@
            }),
    {
        let n = self.pattern.nodes;
        self.pattern.nodes = n + 1;
        PNode(n)
    }

    /// Adds a node slot that admits the given entities only: those that some
    /// predicate of the caller holds of.
    pub fn node_among(&mut self, admitted: Vec<Entity>) -> (r: PNode)
        requires
            old(self).pattern.wf(),
            old(self).pattern.nodes < usize::MAX,
        ensures
            final(self).pattern.wf(),
            r.0 == old(self).pattern.nodes,
            final(self).pattern@ == (PatternView {
                nodes: old(self).pattern@.nodes + 1,
                node_filters: old(self).pattern@.node_filters.push(
                    SlotFilterView { slot: r.0, admitted: admitted@ },
                ),
                ..old(self).pattern@
            }),
    {
        let n = self.pattern.nodes;
        self.pattern.nodes = n + 1;
        self.pattern.node_filters.push(SlotFilter { slot: n, admitted });
        assert(self.pattern@.node_filters =~= old(self).pattern@.node_filters.push(
            SlotFilterView { slot: n, admitted: admitted@ },
        ));
        PNode(n)
    }

    /// Adds an edge from `from` to `to`.
    pub fn edge(&mut self, from: PNode, to: PNode) -> (r: PEdge)
        requires
            old(self).pattern.wf(),
            from.0 < old(self).pattern.nodes,
            to.0 < old(self).pattern.nodes,
        ensures
            final(self).pattern.wf(),
            r.0 == old(self).pattern.edges@.len(),
            final(self).pattern@ == (PatternView {
                edges: old(self).pattern@.edges.push(
                    EdgePattern { from: from.0, to: to.0, direction: PatternDirection::Forward },
                ),
                ..old(self).pattern@
            }),
    {
        self.edge_dir(from, to, PatternDirection::Forward)
    }

    /// Adds an edge with a direction.
    pub fn edge_dir(&mut self, from: PNode, to: PNode, direction: PatternDirection) -> (r: PEdge)
        requires
            old(self).pattern.wf(),
            from.0 < old(self).pattern.nodes,
            to.0 < old(self).pattern.nodes,
        ensures
            final(self).pattern.wf(),
            r.0 == old(self).pattern.edges@.len(),
            final(self).pattern@ == (PatternView {
                edges: old(self).pattern@.edges.push(
                    EdgePattern { from: from.0, to: to.0, direction },
                ),
                ..old(self).pattern@
            }),
    {
        let n = self.pattern.edges.len();
        self.pattern.edges.push(EdgePattern { from: from.0, to: to.0, direction });
        PEdge(n)
    }

    /// Adds an edge with a direction that admits the given edge entities only:
    /// those that some predicate of the caller holds of.
    pub fn edge_among(
        &mut self,
        from: PNode,
        to: PNode,
        direction: PatternDirection,
        admitted: Vec<Entity>,
    ) -> (r: PEdge)
        requires
            old(self).pattern.wf(),
            from.0 < old(self).pattern.nodes,
            to.0 < old(self).pattern.nodes,
        ensures
            final(self).pattern.wf(),
            r.0 == old(self).pattern.edges@.len(),
            final(self).pattern@ == (PatternView {
                edges: old(self).pattern@.edges.push(
                    EdgePattern { from: from.0, to: to.0, direction },
                ),
                edge_filters: old(self).pattern@.edge_filters.push(
                    SlotFilterView { slot: r.0, admitted: admitted@ },
                ),
                ..old(self).pattern@
            }),
    {
        let slot = self.edge_dir(from, to, direction);
        self.pattern.edge_filters.push(SlotFilter { slot: slot.0, admitted });
        assert(self.pattern@.edge_filters =~= old(self).pattern@.edge_filters.push(
            SlotFilterView { slot: slot.0, admitted: admitted@ },
        ));
        slot
    }

    /// Pins a node slot to an entity.
    pub fn anchor(&mut self, node: PNode, entity: Entity)
        requires
            old(self).pattern.wf(),
            node.0 < old(self).pattern.nodes,
        ensures
            final(self).pattern.wf(),
            final(self).pattern@ == (PatternView {
                anchors: old(self).pattern@.anchors.push((node.0, entity)),
                ..old(self).pattern@
            }),
    {
        self.pattern.anchors.push((node.0, entity));
    }

    pub fn build(self) -> (r: Pattern)
        ensures
            r == self.pattern,
    {
        self.pattern
    }
}

pub open spec fn binding_views(list: Seq<Vec<Entity>>) -> Seq<Seq<Entity>> {
    list.map_values(|b: Vec<Entity>| b@)
}

fn source_of(e: &EdgePattern) -> (r: usize)
    ensures
        r == edge_source(*e),
{
    match e.direction {
        PatternDirection::Forward => e.from,
        PatternDirection::Backward => e.to,
    }
}

fn target_of(e: &EdgePattern) -> (r: usize)
    ensures
        r == edge_target(*e),
{
    match e.direction {
        PatternDirection::Forward => e.to,
        PatternDirection::Backward => e.from,
    }
}

fn copy_of(list: &Vec<Entity>) -> (r: Vec<Entity>)
    ensures
        r@ == list@,
{
    let mut r: Vec<Entity> = Vec::new();
    let mut i: usize = 0;
    while i < list.len()
        invariant
            i <= list@.len(),
            r@ == list@.take(i as int),
        decreases list@.len() - i,
    {
        r.push(list[i]);
        i = i + 1;
        assert(r@ =~= list@.take(i as int));
    }
    assert(r@ =~= list@);
    r
}

/// Whether every filter on `slot` admits `e`.
fn admitted_by(filters: &Vec<SlotFilter>, slot: usize, e: Entity) -> (r: bool)
    ensures
        r == admits(filter_views(filters@), slot as int, e),
{
    let ghost views = filter_views(filters@);
    let mut i: usize = 0;
    while i < filters.len()
        invariant
            views == filter_views(filters@),
            i <= filters@.len(),
            forall|k: int|
                0 <= k < i && (#[trigger] views[k]).slot == slot ==> views[k].admitted.contains(e),
        decreases filters@.len() - i,
    {
        let filter = &filters[i];
        assert(views[i as int] == filter@);
        if filter.slot == slot {
            let mut found = false;
            let mut j: usize = 0;
            while j < filter.admitted.len()
                invariant
                    j <= filter.admitted@.len(),
                    found <==> filter.admitted@.take(j as int).contains(e),
                decreases filter.admitted@.len() - j,
            {
                proof {
                    let t = filter.admitted@.take(j as int);
                    assert(filter.admitted@.take(j + 1) =~= t.push(filter.admitted@[j as int]));
                    lemma_push_contains(t, filter.admitted@[j as int], e);
                }
                if filter.admitted[j] == e {
                    found = true;
                }
                j = j + 1;
            }
            assert(filter.admitted@.take(j as int) =~= filter.admitted@);
            if !found {
                return false;
            }
        }
        i = i + 1;
    }
    true
}

impl SceneTree {
    /// The first edge from `a` to `b` that the edge slot `slot` admits.
    fn find_edge(&self, filters: &Vec<SlotFilter>, slot: usize, a: Entity, b: Entity) -> (r: Option<
        Entity,
    >)
        requires
            self.slots@.len() <= u32::MAX,
        ensures
            r == self.edge_between(filter_views(filters@), slot as int, a, b),
    {
        let ghost views = filter_views(filters@);
        let ghost pred = |e: Entity|
            self.is_edge(e) && self.rec(e).edge_from == Some(a) && self.rec(e).edge_to == Some(b)
                && admits(views, slot as int, e);
        let mut i: usize = 0;
        assert(self.ids().skip(0) =~= self.ids());
        while i < self.slots.len()
            invariant
                self.slots@.len() <= u32::MAX,
                i <= self.slots@.len(),
                views == filter_views(filters@),
                pred == (|e: Entity|
                    self.is_edge(e) && self.rec(e).edge_from == Some(a) && self.rec(e).edge_to
                        == Some(b) && admits(views, slot as int, e)),
                first_where(self.ids(), pred) == first_where(self.ids().skip(i as int), pred),
            decreases self.slots@.len() - i,
        {
            let e = i as u64;
            proof {
                assert(self.ids().skip(i as int)[0] == e);
                assert(self.ids().skip(i as int).skip(1) =~= self.ids().skip(i + 1));
            }
            if let Some(rec) = self.record(e) {
                if rec.scene_edge {
                    if let (Some(x), Some(y)) = (rec.edge_from, rec.edge_to) {
                        if x == a && y == b && admitted_by(filters, slot, e) {
                            return Some(e);
                        }
                    }
                }
            }
            i = i + 1;
        }
        None
    }

    /// The scene nodes.
    fn scene_ids_of(&self) -> (r: Vec<Entity>)
        requires
            self.slots@.len() <= u32::MAX,
        ensures
            r@ == self.scene_ids(),
    {
        let ghost pred = |e: Entity| self.scene(e);
        let mut r: Vec<Entity> = Vec::new();
        let mut i: usize = 0;
        proof {
            reveal(Seq::filter);
            assert(self.ids().take(0) =~= seq![]);
        }
        while i < self.slots.len()
            invariant
                self.slots@.len() <= u32::MAX,
                i <= self.slots@.len(),
                pred == (|e: Entity| self.scene(e)),
                r@ == self.ids().take(i as int).filter(pred),
            decreases self.slots@.len() - i,
        {
            let e = i as u64;
            proof {
                assert(self.ids()[i as int] == e);
                lemma_filter_step(self.ids(), i as int, pred);
            }
            if self.is_scene(e) {
                r.push(e);
            }
            i = i + 1;
        }
        assert(self.ids().take(i as int) =~= self.ids());
        r
    }

    /// Whether `bound`, whose first slots are consistent, stays so with `next`.
    fn fits(&self, p: &Pattern, bound: &Vec<Entity>, next: Entity) -> (r: bool)
        requires
            self.slots@.len() <= u32::MAX,
            self.consistent(p@, bound@),
        ensures
            r == self.consistent(p@, bound@.push(next)),
    {
        let ghost all = bound@.push(next);
        let mut i: usize = 0;
        while i < bound.len()
            invariant
                i <= bound@.len(),
                all == bound@.push(next),
                forall|k: int| 0 <= k < i ==> bound@[k] != next,
            decreases bound@.len() - i,
        {
            if bound[i] == next {
                assert(all[i as int] == all[bound@.len() as int]);
                return false;
            }
            i = i + 1;
        }
        assert(all.no_duplicates());
        assert(all[bound@.len() as int] == next);
        if !admitted_by(&p.node_filters, bound.len(), next) {
            return false;
        }
        assert forall|m: int| 0 <= m < all.len() implies admits(
            p@.node_filters,
            m,
            #[trigger] all[m],
        ) by {
            if m < bound@.len() {
                assert(all[m] == bound@[m]);
            }
        }
        let candidate = {
            let mut c = copy_of(bound);
            c.push(next);
            c
        };
        assert(candidate@ =~= all);
        let mut j: usize = 0;
        while j < p.anchors.len()
            invariant
                j <= p.anchors@.len(),
                all == bound@.push(next),
                candidate@ == all,
                forall|k: int|
                    0 <= k < j && (#[trigger] p.anchors@[k]).0 < all.len()
                        ==> all[p.anchors@[k].0 as int] == p.anchors@[k].1,
            decreases p.anchors@.len() - j,
        {
            let (slot, entity) = p.anchors[j];
            assert(p.anchors@[j as int].0 == slot);
            if slot < candidate.len() {
                if candidate[slot] != entity {
                    assert(p@.anchors[j as int].0 < all.len());
                    return false;
                }
            }
            j = j + 1;
        }
        let mut k: usize = 0;
        while k < p.edges.len()
            invariant
                self.slots@.len() <= u32::MAX,
                k <= p.edges@.len(),
                all == bound@.push(next),
                candidate@ == all,
                forall|m: int| 0 <= m < k ==> #[trigger] self.edge_holds(p@, m, all),
            decreases p.edges@.len() - k,
        {
            let a = source_of(&p.edges[k]);
            let b = target_of(&p.edges[k]);
            if a < candidate.len() && b < candidate.len() {
                if self.find_edge(&p.edge_filters, k, candidate[a], candidate[b]).is_none() {
                    assert(!self.edge_holds(p@, k as int, all));
                    return false;
                }
            }
            assert(self.edge_holds(p@, k as int, all));
            k = k + 1;
        }
        true
    }

    /// The bindings of all slots of a pattern.
    fn find_bindings(&self, p: &Pattern) -> (r: Vec<Vec<Entity>>)
        requires
            self.slots@.len() <= u32::MAX,
        ensures
            binding_views(r@) == self.bindings(p@, p.nodes as nat),
    {
        let candidates = self.scene_ids_of();
        let mut current: Vec<Vec<Entity>> = Vec::new();
        current.push(Vec::new());
        let mut k: usize = 0;
        proof {
            assert(current@[0]@ =~= seq![]);
            assert(binding_views(current@) =~= seq![seq![]]);
        }
        while k < p.nodes
            invariant
                self.slots@.len() <= u32::MAX,
                candidates@ == self.scene_ids(),
                k <= p.nodes,
                binding_views(current@) == self.bindings(p@, k as nat),
            decreases p.nodes - k,
        {
            let mut next: Vec<Vec<Entity>> = Vec::new();
            let ghost list = binding_views(current@);
            let mut i: usize = 0;
            proof {
                assert(list.take(0) =~= seq![]);
                assert(binding_views(next@) =~= seq![]);
            }
            while i < current.len()
                invariant
                    self.slots@.len() <= u32::MAX,
                    candidates@ == self.scene_ids(),
                    list == binding_views(current@),
                    list == self.bindings(p@, k as nat),
                    i <= current@.len(),
                    binding_views(next@) == self.all_extensions(p@, list.take(i as int)),
                decreases current@.len() - i,
            {
                let bound = &current[i];
                let ghost before = binding_views(next@);
                proof {
                    assert(list[i as int] == bound@);
                    self.lemma_bindings_consistent(p@, k as nat, i as int);
                }
                let mut c: usize = 0;
                assert(before + seq![] =~= before);
                while c < candidates.len()
                    invariant
                        self.slots@.len() <= u32::MAX,
                        candidates@ == self.scene_ids(),
                        self.consistent(p@, bound@),
                        c <= candidates@.len(),
                        binding_views(next@) == before + self.extensions(p@, bound@, c as nat),
                    decreases candidates@.len() - c,
                {
                    let ghost so_far = next@;
                    if self.fits(p, bound, candidates[c]) {
                        let mut b = copy_of(bound);
                        b.push(candidates[c]);
                        assert(b@ =~= bound@.push(candidates@[c as int]));
                        next.push(b);
                        assert(binding_views(next@) =~= binding_views(so_far).push(b@));
                        assert(binding_views(next@) =~= before + self.extensions(
                            p@,
                            bound@,
                            (c + 1) as nat,
                        ));
                    }
                    c = c + 1;
                }
                proof {
                    let t = list.take(i + 1);
                    assert(t.drop_last() =~= list.take(i as int));
                    assert(t.last() == bound@);
                }
                i = i + 1;
            }
            assert(list.take(i as int) =~= list);
            current = next;
            k = k + 1;
        }
        current
    }

    /// Every place where the pattern occurs.
    pub fn find_matches(&self, p: &Pattern) -> (r: Vec<Match>)
        requires
            self.slots@.len() <= u32::MAX,
            p.wf(),
        ensures
            match_views(r@) == self.matches(p@),
    {
        let bindings = self.find_bindings(p);
        let ghost list = binding_views(bindings@);
        let ghost view = |b: Seq<Entity>| MatchView { nodes: b, edges: self.bound_edges(p@, b) };
        let mut out: Vec<Match> = Vec::new();
        let mut i: usize = 0;
        assert(match_views(out@) =~= list.take(0).map_values(view));
        while i < bindings.len()
            invariant
                self.slots@.len() <= u32::MAX,
                p.wf(),
                list == binding_views(bindings@),
                list == self.bindings(p@, p.nodes as nat),
                view == (|b: Seq<Entity>|
                    MatchView { nodes: b, edges: self.bound_edges(p@, b) }),
                i <= bindings@.len(),
                match_views(out@) == list.take(i as int).map_values(view),
            decreases bindings@.len() - i,
        {
            let nodes = copy_of(&bindings[i]);
            proof {
                assert(list[i as int] == nodes@);
                self.lemma_bindings_consistent(p@, p.nodes as nat, i as int);
            }
            let mut edges: Vec<Entity> = Vec::new();
            let mut k: usize = 0;
            while k < p.edges.len()
                invariant
                    self.slots@.len() <= u32::MAX,
                    p.wf(),
                    self.consistent(p@, nodes@),
                    nodes@.len() == p.nodes,
                    k <= p.edges@.len(),
                    edges@ == self.bound_edges(p@, nodes@).take(k as int),
                decreases p.edges@.len() - k,
            {
                let a = source_of(&p.edges[k]);
                let b = target_of(&p.edges[k]);
                assert(self.edge_holds(p@, k as int, nodes@));
                match self.find_edge(&p.edge_filters, k, nodes[a], nodes[b]) {
                    Some(e) => {
                        edges.push(e);
                    },
                    None => {},
                }
                k = k + 1;
                assert(edges@ =~= self.bound_edges(p@, nodes@).take(k as int));
            }
            assert(edges@ =~= self.bound_edges(p@, nodes@));
            let ghost before = out@;
            let m = Match { nodes, edges };
            out.push(m);
            i = i + 1;
            assert(match_views(out@) =~= match_views(before).push(m@));
            assert(match_views(out@) =~= list.take(i as int).map_values(view));
        }
        assert(list.take(i as int) =~= list);
        out
    }

    proof fn lemma_extensions(self, p: PatternView, bound: Seq<Entity>, n: nat, b: Seq<Entity>)
        requires
            n <= self.scene_ids().len(),
        ensures
            self.extensions(p, bound, n).contains(b) <==> self.consistent(p, b) && exists|c: int|
                0 <= c < n && b == bound.push(#[trigger] self.scene_ids()[c]),
        decreases n,
    {
        if n > 0 {
            self.lemma_extensions(p, bound, (n - 1) as nat, b);
            let rest = self.extensions(p, bound, (n - 1) as nat);
            let next = bound.push(self.scene_ids()[n - 1]);
            lemma_push_contains(rest, next, b);
            if self.consistent(p, b) && exists|c: int|
                0 <= c < n && b == bound.push(#[trigger] self.scene_ids()[c]) {
                let c = choose|c: int| 0 <= c < n && b == bound.push(#[trigger] self.scene_ids()[c]);
                if c < n - 1 {
                    assert(rest.contains(b));
                }
            }
        }
    }

    proof fn lemma_all_extensions(self, p: PatternView, list: Seq<Seq<Entity>>, b: Seq<Entity>)
        ensures
            self.all_extensions(p, list).contains(b) <==> self.consistent(p, b) && exists|
                i: int,
                c: int,
            |
                #![trigger list[i], self.scene_ids()[c]]
                0 <= i < list.len() && 0 <= c < self.scene_ids().len() && b == list[i].push(
                    self.scene_ids()[c],
                ),
        decreases list.len(),
    {
        if list.len() > 0 {
            let init = list.drop_last();
            let a = self.all_extensions(p, init);
            let e = self.extensions(p, list.last(), self.scene_ids().len());
            self.lemma_all_extensions(p, init, b);
            self.lemma_extensions(p, list.last(), self.scene_ids().len(), b);
            if (a + e).contains(b) {
                let k = choose|k: int| 0 <= k < (a + e).len() && (a + e)[k] == b;
                if k < a.len() {
                    assert(a[k] == b);
                    let (i, c) = choose|i: int, c: int|
                        #![trigger init[i], self.scene_ids()[c]]
                        0 <= i < init.len() && 0 <= c < self.scene_ids().len() && b
                            == init[i].push(self.scene_ids()[c]);
                    assert(list[i] == init[i]);
                } else {
                    assert(e[k - a.len()] == b);
                    let c = choose|c: int|
                        0 <= c < self.scene_ids().len() && b == list.last().push(
                            #[trigger] self.scene_ids()[c],
                        );
                    assert(list[list.len() - 1] == list.last());
                }
            }
            if self.consistent(p, b) && exists|i: int, c: int|
                #![trigger list[i], self.scene_ids()[c]]
                0 <= i < list.len() && 0 <= c < self.scene_ids().len() && b == list[i].push(
                    self.scene_ids()[c],
                ) {
                let (i, c) = choose|i: int, c: int|
                    #![trigger list[i], self.scene_ids()[c]]
                    0 <= i < list.len() && 0 <= c < self.scene_ids().len() && b == list[i].push(
                        self.scene_ids()[c],
                    );
                if i < init.len() {
                    assert(init[i] == list[i]);
                    assert(a.contains(b));
                    let k = choose|k: int| 0 <= k < a.len() && a[k] == b;
                    assert((a + e)[k] == b);
                } else {
                    assert(e.contains(b));
                    let k = choose|k: int| 0 <= k < e.len() && e[k] == b;
                    assert((a + e)[a.len() + k] == b);
                }
            }
        }
    }

    /// Bindings bind as many slots as they should, consistently.
    proof fn lemma_bindings_consistent(self, p: PatternView, k: nat, i: int)
        requires
            0 <= i < self.bindings(p, k).len(),
        ensures
            self.bindings(p, k)[i].len() == k,
            self.consistent(p, self.bindings(p, k)[i]),
        decreases k,
    {
        let b = self.bindings(p, k)[i];
        assert(self.bindings(p, k).contains(b));
        if k > 0 {
            let list = self.bindings(p, (k - 1) as nat);
            self.lemma_all_extensions(p, list, b);
            let (j, c) = choose|j: int, c: int|
                #![trigger list[j], self.scene_ids()[c]]
                0 <= j < list.len() && 0 <= c < self.scene_ids().len() && b == list[j].push(
                    self.scene_ids()[c],
                );
            self.lemma_bindings_consistent(p, (k - 1) as nat, j);
        } else {
            assert(b =~= seq![]);
        }
    }

    /// What is consistent stays so when the last slot is unbound.
    proof fn lemma_consistent_prefix(self, p: PatternView, b: Seq<Entity>)
        requires
            self.consistent(p, b),
            b.len() > 0,
        ensures
            self.consistent(p, b.drop_last()),
    {
        let init = b.drop_last();
        assert forall|i: int|
            0 <= i < p.anchors.len() && (#[trigger] p.anchors[i]).0 < init.len() implies
            init[p.anchors[i].0 as int] == p.anchors[i].1 by {
            assert(b[p.anchors[i].0 as int] == p.anchors[i].1);
        }
        assert forall|i: int| 0 <= i < init.len() implies admits(
            p.node_filters,
            i,
            #[trigger] init[i],
        ) by {
            assert(init[i] == b[i]);
        }
        assert forall|i: int| 0 <= i < p.edges.len() implies #[trigger] self.edge_holds(
            p,
            i,
            init,
        ) by {
            assert(self.edge_holds(p, i, b));
        }
    }

    /// The bindings of `k` slots are exactly the consistent ones by scene nodes.
    pub proof fn bindings_are_exact(self, p: PatternView, k: nat, b: Seq<Entity>)
        ensures
            self.bindings(p, k).contains(b) <==> b.len() == k && self.consistent(p, b) && (forall|
                i: int,
            |
                0 <= i < b.len() ==> self.scene(#[trigger] b[i])),
        decreases k,
    {
        if k == 0 {
            assert(self.bindings(p, 0) =~= seq![seq![]]);
            if self.bindings(p, 0).contains(b) {
                assert(b =~= seq![]);
                assert(self.bindings(p, 0)[0] == b);
                self.lemma_bindings_consistent(p, 0, 0);
            }
            if b.len() == 0 {
                assert(b =~= seq![]);
                assert(self.bindings(p, 0)[0] == b);
            }
        } else {
            let list = self.bindings(p, (k - 1) as nat);
            self.lemma_all_extensions(p, list, b);
            if self.bindings(p, k).contains(b) {
                let (j, c) = choose|j: int, c: int|
                    #![trigger list[j], self.scene_ids()[c]]
                    0 <= j < list.len() && 0 <= c < self.scene_ids().len() && b == list[j].push(
                        self.scene_ids()[c],
                    );
                self.bindings_are_exact(p, (k - 1) as nat, list[j]);
                assert(list.contains(list[j]));
                lemma_filter_contains(
                    self.ids(),
                    |e: Entity| self.scene(e),
                    self.scene_ids()[c],
                );
                assert(self.scene_ids().contains(self.scene_ids()[c]));
                assert forall|i: int| 0 <= i < b.len() implies self.scene(#[trigger] b[i]) by {
                    if i < list[j].len() {
                        assert(list[j][i] == b[i]);
                    }
                }
            }
            if b.len() == k && self.consistent(p, b) && (forall|i: int|
                0 <= i < b.len() ==> self.scene(#[trigger] b[i])) {
                let init = b.drop_last();
                self.lemma_consistent_prefix(p, b);
                assert forall|i: int| 0 <= i < init.len() implies self.scene(#[trigger] init[i]) by {
                    assert(b[i] == init[i]);
                }
                self.bindings_are_exact(p, (k - 1) as nat, init);
                let j = choose|j: int| 0 <= j < list.len() && list[j] == init;
                let x = b.last();
                assert(self.scene(b[b.len() - 1]));
                assert(self.ids()[x as int] == x);
                lemma_filter_contains(self.ids(), |e: Entity| self.scene(e), x);
                let c = choose|c: int|
                    0 <= c < self.scene_ids().len() && self.scene_ids()[c] == x;
                assert(b =~= list[j].push(self.scene_ids()[c]));
            }
        }
    }

    /// A filter on a node slot leaves exactly the bindings whose entity there it
    /// admits.
    pub proof fn node_filter_narrows(
        self,
        p: PatternView,
        f: SlotFilterView,
        k: nat,
        b: Seq<Entity>,
    )
        ensures
            self.bindings(
                PatternView { node_filters: p.node_filters.push(f), ..p },
                k,
            ).contains(b) <==> self.bindings(p, k).contains(b) && (f.slot < k
                ==> f.admitted.contains(b[f.slot as int])),
    {
        let q = PatternView { node_filters: p.node_filters.push(f), ..p };
        self.bindings_are_exact(p, k, b);
        self.bindings_are_exact(q, k, b);
        assert forall|i: int| admits(q.node_filters, i, #[trigger] b[i]) <==> admits(
            p.node_filters,
            i,
            b[i],
        ) && (f.slot == i ==> f.admitted.contains(b[i])) by {
            let n = p.node_filters.len() as int;
            assert(q.node_filters[n] == f);
            if admits(q.node_filters, i, b[i]) {
                assert forall|j: int|
                    0 <= j < n && (#[trigger] p.node_filters[j]).slot == i implies
                    p.node_filters[j].admitted.contains(b[i]) by {
                    assert(q.node_filters[j] == p.node_filters[j]);
                }
            }
        }
        assert forall|i: int| #[trigger] self.edge_holds(q, i, b) == self.edge_holds(p, i, b) by {
            assert(self.bound_edge(q, i, b) == self.bound_edge(p, i, b));
        }
        assert(q.anchors == p.anchors && q.edges == p.edges);
        if self.consistent(q, b) {
            assert forall|i: int| 0 <= i < p.edges.len() implies #[trigger] self.edge_holds(
                p,
                i,
                b,
            ) by {
                assert(self.edge_holds(q, i, b));
            }
            assert(self.consistent(p, b));
            if b.len() == k && f.slot < k {
                assert(admits(q.node_filters, f.slot as int, b[f.slot as int]));
            }
        }
        if self.consistent(p, b) && b.len() == k && (f.slot < k ==> f.admitted.contains(
            b[f.slot as int],
        )) {
            assert forall|i: int| 0 <= i < b.len() implies admits(
                q.node_filters,
                i,
                #[trigger] b[i],
            ) by {
                assert(admits(p.node_filters, i, b[i]));
            }
            assert(self.consistent(q, b));
        }
    }

    /// Every edge of a match runs between the nodes bound to its ends, and its
    /// slot admits it.
    pub proof fn match_edges_fit(self, p: PatternView, m: int, i: int)
        requires
            0 <= m < self.matches(p).len(),
            0 <= i < p.edges.len(),
            edge_source(p.edges[i]) < p.nodes,
            edge_target(p.edges[i]) < p.nodes,
        ensures
            ({
                let found = self.matches(p)[m];
                let e = found.edges[i];
                &&& self.is_edge(e)
                &&& self.rec(e).edge_from == Some(found.nodes[edge_source(p.edges[i]) as int])
                &&& self.rec(e).edge_to == Some(found.nodes[edge_target(p.edges[i]) as int])
                &&& admits(p.edge_filters, i, e)
            }),
    {
        let b = self.bindings(p, p.nodes)[m];
        self.lemma_bindings_consistent(p, p.nodes, m);
        assert(self.edge_holds(p, i, b));
        let from = b[edge_source(p.edges[i]) as int];
        let to = b[edge_target(p.edges[i]) as int];
        lemma_first_where_holds(
            self.ids(),
            |e: Entity|
                self.is_edge(e) && self.rec(e).edge_from == Some(from) && self.rec(e).edge_to
                    == Some(to) && admits(p.edge_filters, i, e),
        );
    }
}

proof fn lemma_first_where_holds(list: Seq<Entity>, pred: spec_fn(Entity) -> bool)
    requires
        first_where(list, pred) is Some,
    ensures
        pred(first_where(list, pred)->0),
    decreases list.len(),
{
    if list.len() > 0 && !pred(list[0]) {
        lemma_first_where_holds(list.skip(1), pred);
    }
}

// ---------------------------------------------------------------------------
// Patterns with filters
// ---------------------------------------------------------------------------

/// What a node bound to a slot must be.
#[derive(Debug)]
pub struct NodePattern {
    pub kind: Option<NodeKind>,
    /// The name of a frame or the content of a text. Other nodes never match.
    pub name: Option<String>,
}

impl NodePattern {
    /// Any node.
    pub fn any() -> (r: Self)
        ensures
            r.kind is None,
            r.name is None,
    {
        NodePattern { kind: None, name: None }
    }

    /// A node of the given kind.
    pub fn of_kind(kind: NodeKind) -> (r: Self)
        ensures
            r.kind == Some(kind),
            r.name is None,
    {
        NodePattern { kind: Some(kind), name: None }
    }

    /// The same with a name.
    pub fn with_name(self, name: String) -> (r: Self)
        ensures
            r.kind == self.kind,
            r.name == Some(name),
    {
        NodePattern { kind: self.kind, name: Some(name) }
    }
}

/// Pins a node slot to a node of the scene.
#[derive(Debug)]
pub struct PatternAnchor {
    pub pattern_node: usize,
    pub target: NodeTarget,
}

/// A pattern with filters on its nodes, as it is asked for from outside.
#[derive(Debug)]
pub struct PatternSpec {
    pub nodes: Vec<NodePattern>,
    pub edges: Vec<EdgePattern>,
    pub anchors: Vec<PatternAnchor>,
}

impl Default for PatternSpec {
    fn default() -> (r: Self)
        ensures
            r.nodes@.len() == 0,
            r.edges@.len() == 0,
            r.anchors@.len() == 0,
    {
        PatternSpec { nodes: Vec::new(), edges: Vec::new(), anchors: Vec::new() }
    }
}

impl PatternSpec {
    pub fn new() -> (r: Self)
        ensures
            r.nodes@.len() == 0,
            r.edges@.len() == 0,
            r.anchors@.len() == 0,
    {
        PatternSpec::default()
    }

    /// Adds a node slot and returns its index.
    pub fn add_node(&mut self, pattern: NodePattern) -> (r: usize)
        ensures
            r == old(self).nodes@.len(),
            final(self).nodes@ == old(self).nodes@.push(pattern),
            final(self).edges == old(self).edges,
            final(self).anchors == old(self).anchors,
    {
        let idx = self.nodes.len();
        self.nodes.push(pattern);
        idx
    }

    /// Adds an edge between two node slots and returns its index.
    pub fn add_edge(&mut self, from: usize, to: usize) -> (r: usize)
        ensures
            r == old(self).edges@.len(),
            final(self).edges@ == old(self).edges@.push(
                EdgePattern { from, to, direction: PatternDirection::Forward },
            ),
            final(self).nodes == old(self).nodes,
            final(self).anchors == old(self).anchors,
    {
        let idx = self.edges.len();
        self.edges.push(EdgePattern { from, to, direction: PatternDirection::Forward });
        idx
    }

    /// Pins a node slot.
    pub fn add_anchor(&mut self, pattern_node: usize, target: NodeTarget)
        ensures
            final(self).anchors@ == old(self).anchors@.push(PatternAnchor { pattern_node, target }),
            final(self).nodes == old(self).nodes,
            final(self).edges == old(self).edges,
    {
        self.anchors.push(PatternAnchor { pattern_node, target });
    }

    /// Whether every edge, and every anchor whose target resolves, refers to a
    /// slot that is there.
    pub open spec fn fits_slots(self, w: SceneWorld, session: SessionId) -> bool {
        &&& forall|i: int|
            0 <= i < self.edges@.len() ==> (#[trigger] self.edges@[i]).from < self.nodes@.len()
                && self.edges@[i].to < self.nodes@.len()
        &&& forall|i: int|
            0 <= i < self.anchors@.len() && resolved_target(
                w,
                target_view((#[trigger] self.anchors@[i]).target),
                session,
            ) is Some ==> self.anchors@[i].pattern_node < self.nodes@.len()
    }
}

/// An edge of the scene, by its ends.
#[derive(Debug)]
pub struct EdgeRef {
    pub entity: Option<u64>,
    pub from: NodeRef,
    pub to: NodeRef,
}

/// What an [`EdgeRef`] holds.
#[verifier::ext_equal]
pub struct EdgeRefView {
    pub entity: Option<Entity>,
    pub from: NodeRefView,
    pub to: NodeRefView,
}

impl View for EdgeRef {
    type V = EdgeRefView;

    open spec fn view(&self) -> EdgeRefView {
        EdgeRefView { entity: self.entity, from: self.from@, to: self.to@ }
    }
}

pub open spec fn edge_ref_views(list: Seq<EdgeRef>) -> Seq<EdgeRefView> {
    list.map_values(|e: EdgeRef| e@)
}

/// A [`Match`] in terms of references.
#[derive(Debug)]
pub struct MatchRefs {
    pub nodes: Vec<NodeRef>,
    pub edges: Vec<EdgeRef>,
}

/// What a [`MatchRefs`] holds.
#[verifier::ext_equal]
pub struct MatchRefsView {
    pub nodes: Seq<NodeRefView>,
    pub edges: Seq<EdgeRefView>,
}

impl View for MatchRefs {
    type V = MatchRefsView;

    open spec fn view(&self) -> MatchRefsView {
        MatchRefsView { nodes: ref_views(self.nodes@), edges: edge_ref_views(self.edges@) }
    }
}

pub open spec fn match_refs_views(list: Seq<MatchRefs>) -> Seq<MatchRefsView> {
    list.map_values(|m: MatchRefs| m@)
}

impl MatchRefs {
    /// The node bound to a slot.
    pub fn node(&self, n: PNode) -> (r: &NodeRef)
        requires
            n.0 < self.nodes@.len(),
        ensures
            *r == self.nodes@[n.0 as int],
    {
        &self.nodes[n.0]
    }

    /// The edge bound to a slot.
    pub fn edge(&self, e: PEdge) -> (r: &EdgeRef)
        requires
            e.0 < self.edges@.len(),
        ensures
            *r == self.edges@[e.0 as int],
    {
        &self.edges[e.0]
    }
}

/// The name that a filter compares with: a frame's, else a text's content.
pub open spec fn filter_name(tree: SceneTree, e: Entity) -> Option<Seq<char>> {
    if !tree.alive(e) {
        None
    } else if tree.rec(e).frame is Some {
        Some(tree.rec(e).frame->0.name@)
    } else if tree.rec(e).text is Some {
        Some(tree.rec(e).text->0.content@)
    } else {
        None
    }
}

/// Whether a node is what a slot asks for.
pub open spec fn node_fits(tree: SceneTree, p: NodePattern, e: Entity) -> bool {
    &&& p.kind is Some ==> tree.kind(e) == p.kind
    &&& p.name is Some ==> filter_name(tree, e) == Some(p.name->0@)
}

/// Whether each bound node is what its slot asks for.
pub open spec fn match_fits(tree: SceneTree, spec: PatternSpec, m: MatchView) -> bool {
    forall|i: int| 0 <= i < spec.nodes@.len() ==> node_fits(
        tree,
        #[trigger] spec.nodes@[i],
        m.nodes[i],
    )
}

/// Whether the target of every anchor resolves.
pub open spec fn anchors_resolve(
    w: SceneWorld,
    session: SessionId,
    anchors: Seq<PatternAnchor>,
) -> bool {
    forall|i: int|
        0 <= i < anchors.len() ==> resolved_target(
            w,
            target_view((#[trigger] anchors[i]).target),
            session,
        ) is Some
}

/// The slots that anchors pin, with the entities that they are pinned to.
pub open spec fn pinned(
    w: SceneWorld,
    session: SessionId,
    anchors: Seq<PatternAnchor>,
) -> Seq<(usize, Entity)> {
    anchors.map_values(
        |a: PatternAnchor|
            (a.pattern_node, resolved_target(w, target_view(a.target), session)->0),
    )
}

/// The shape of a specification: its slots, its edges and its anchors.
pub open spec fn shape_of(w: SceneWorld, session: SessionId, spec: PatternSpec) -> PatternView {
    PatternView {
        nodes: spec.nodes@.len(),
        edges: spec.edges@,
        anchors: pinned(w, session, spec.anchors@),
        node_filters: seq![],
        edge_filters: seq![],
    }
}

/// The reference to one end of an edge.
pub open spec fn end_ref(w: SceneWorld, session: SessionId, end: Option<Entity>) -> NodeRefView {
    match end {
        Some(e) => node_ref_or_root(w, e, session),
        None => path_ref(seq![]),
    }
}

/// An edge in terms of references.
pub open spec fn edge_ref(w: SceneWorld, session: SessionId, e: Entity) -> EdgeRefView {
    EdgeRefView {
        entity: Some(e),
        from: end_ref(
            w,
            session,
            if w.tree.alive(e) {
                w.tree.rec(e).edge_from
            } else {
                None
            },
        ),
        to: end_ref(
            w,
            session,
            if w.tree.alive(e) {
                w.tree.rec(e).edge_to
            } else {
                None
            },
        ),
    }
}

/// A match in terms of references.
pub open spec fn spec_match_refs(w: SceneWorld, session: SessionId, m: MatchView) -> MatchRefsView {
    MatchRefsView {
        nodes: m.nodes.map_values(|e: Entity| node_ref_or_root(w, e, session)),
        edges: m.edges.map_values(|e: Entity| edge_ref(w, session, e)),
    }
}

/// A match in terms of references.
pub fn match_refs(sw: &SceneWorld, session: SessionId, m: &Match) -> (r: MatchRefs)
    requires
        sw.wf(),
    ensures
        r@ == spec_match_refs(*sw, session, m@),
{
    let ghost refer = |e: Entity| node_ref_or_root(*sw, e, session);
    let ghost refer_edge = |e: Entity| edge_ref(*sw, session, e);
    let mut nodes: Vec<NodeRef> = Vec::new();
    let mut i: usize = 0;
    while i < m.nodes.len()
        invariant
            sw.wf(),
            refer == (|e: Entity| node_ref_or_root(*sw, e, session)),
            i <= m.nodes@.len(),
            nodes@.len() == i,
            forall|k: int| 0 <= k < i ==> (#[trigger] nodes@[k])@ == refer(m.nodes@[k]),
        decreases m.nodes@.len() - i,
    {
        nodes.push(node_ref_or_root_for(sw, m.nodes[i], session));
        i = i + 1;
    }
    assert(ref_views(nodes@) =~= m.nodes@.map_values(refer));
    let mut edges: Vec<EdgeRef> = Vec::new();
    let mut j: usize = 0;
    while j < m.edges.len()
        invariant
            sw.wf(),
            refer_edge == (|e: Entity| edge_ref(*sw, session, e)),
            j <= m.edges@.len(),
            edges@.len() == j,
            forall|k: int| 0 <= k < j ==> (#[trigger] edges@[k])@ == refer_edge(m.edges@[k]),
        decreases m.edges@.len() - j,
    {
        let e = m.edges[j];
        let (a, b) = match sw.tree.record(e) {
            Some(rec) => (rec.edge_from, rec.edge_to),
            None => (None, None),
        };
        let from = match a {
            Some(x) => node_ref_or_root_for(sw, x, session),
            None => NodeRef::from_path(ScenePath::root()),
        };
        let to = match b {
            Some(x) => node_ref_or_root_for(sw, x, session),
            None => NodeRef::from_path(ScenePath::root()),
        };
        edges.push(EdgeRef { entity: Some(e), from, to });
        j = j + 1;
    }
    assert(edge_ref_views(edges@) =~= m.edges@.map_values(refer_edge));
    MatchRefs { nodes, edges }
}

fn fits_name(tree: &SceneTree, e: Entity, want: &String) -> (r: bool)
    ensures
        r == (filter_name(*tree, e) == Some(want@)),
{
    match tree.record(e) {
        Some(rec) => {
            if let Some(frame) = &rec.frame {
                return same_text(&frame.name, want);
            }
            if let Some(text) = &rec.text {
                return same_text(&text.content, want);
            }
            false
        },
        None => false,
    }
}

/// Whether each bound node is what its slot asks for.
pub fn match_passes_filters(sw: &SceneWorld, m: &Match, spec: &PatternSpec) -> (r: bool)
    requires
        m.nodes@.len() >= spec.nodes@.len(),
    ensures
        r == match_fits(sw.tree, *spec, m@),
{
    let mut i: usize = 0;
    while i < spec.nodes.len()
        invariant
            m.nodes@.len() >= spec.nodes@.len(),
            i <= spec.nodes@.len(),
            forall|k: int|
                0 <= k < i ==> node_fits(sw.tree, #[trigger] spec.nodes@[k], m.nodes@[k]),
        decreases spec.nodes@.len() - i,
    {
        let entity = m.nodes[i];
        let pat = &spec.nodes[i];
        if let Some(want) = pat.kind {
            match sw.tree.kind_of(entity) {
                Some(k) => {
                    if k != want {
                        assert(!node_fits(sw.tree, spec.nodes@[i as int], m.nodes@[i as int]));
                        return false;
                    }
                },
                None => {
                    assert(!node_fits(sw.tree, spec.nodes@[i as int], m.nodes@[i as int]));
                    return false;
                },
            }
        }
        if let Some(want) = &pat.name {
            if !fits_name(&sw.tree, entity, want) {
                assert(!node_fits(sw.tree, spec.nodes@[i as int], m.nodes@[i as int]));
                return false;
            }
        }
        assert(node_fits(sw.tree, spec.nodes@[i as int], m.nodes@[i as int]));
        i = i + 1;
    }
    true
}

/// The shape of a specification: its slots, its edges and its anchors. There is
/// none where an anchor's target does not resolve.
pub fn shape_for(sw: &SceneWorld, session: SessionId, spec: &PatternSpec) -> (r: Option<Pattern>)
    requires
        sw.wf(),
        spec.fits_slots(*sw, session),
    ensures
        r is Some <==> anchors_resolve(*sw, session, spec.anchors@),
        r matches Some(p) ==> p.wf() && p@ == shape_of(*sw, session, *spec),
{
    let mut anchors: Vec<(usize, Entity)> = Vec::new();
    let mut i: usize = 0;
    assert(spec.anchors@.take(0) =~= seq![]);
    while i < spec.anchors.len()
        invariant
            sw.wf(),
            spec.fits_slots(*sw, session),
            i <= spec.anchors@.len(),
            anchors@ == pinned(*sw, session, spec.anchors@.take(i as int)),
            anchors_resolve(*sw, session, spec.anchors@.take(i as int)),
            forall|k: int| 0 <= k < anchors@.len() ==> (#[trigger] anchors@[k]).0
                < spec.nodes@.len(),
        decreases spec.anchors@.len() - i,
    {
        let a = &spec.anchors[i];
        let e = match a.target.resolve(sw, session) {
            Some(e) => e,
            None => {
                assert(resolved_target(
                    *sw,
                    target_view(spec.anchors@[i as int].target),
                    session,
                ) is None);
                return None;
            },
        };
        assert(spec.anchors@[i as int].pattern_node < spec.nodes@.len());
        anchors.push((a.pattern_node, e));
        proof {
            let t = spec.anchors@.take(i + 1);
            assert(anchors@ =~= pinned(*sw, session, t));
            assert forall|k: int| 0 <= k < t.len() implies resolved_target(
                *sw,
                target_view((#[trigger] t[k]).target),
                session,
            ) is Some by {
                if k < i {
                    assert(t[k] == spec.anchors@.take(i as int)[k]);
                }
            }
        }
        i = i + 1;
    }
    assert(spec.anchors@.take(i as int) =~= spec.anchors@);
    let mut edges: Vec<EdgePattern> = Vec::new();
    let mut j: usize = 0;
    while j < spec.edges.len()
        invariant
            j <= spec.edges@.len(),
            edges@ == spec.edges@.take(j as int),
        decreases spec.edges@.len() - j,
    {
        edges.push(spec.edges[j]);
        j = j + 1;
        assert(edges@ =~= spec.edges@.take(j as int));
    }
    assert(edges@ =~= spec.edges@);
    let p = Pattern {
        nodes: spec.nodes.len(),
        edges,
        anchors,
        node_filters: Vec::new(),
        edge_filters: Vec::new(),
    };
    assert(p@ =~= shape_of(*sw, session, *spec));
    Some(p)
}

/// The matches of a specification: those of its shape whose nodes pass its
/// filters. A slot that is pinned to nothing has no match.
pub open spec fn spec_matches(w: SceneWorld, session: SessionId, spec: PatternSpec) -> Seq<
    MatchView,
> {
    if anchors_resolve(w, session, spec.anchors@) {
        w.tree.matches(shape_of(w, session, spec)).filter(
            |m: MatchView| match_fits(w.tree, spec, m),
        )
    } else {
        seq![]
    }
}

/// Finds every match of a specification, in terms of references.
pub fn run_match(sw: &SceneWorld, session: SessionId, spec: &PatternSpec) -> (r: Vec<MatchRefs>)
    requires
        sw.wf(),
        spec.fits_slots(*sw, session),
    ensures
        match_refs_views(r@) == spec_matches(*sw, session, *spec).map_values(
            |m: MatchView| spec_match_refs(*sw, session, m),
        ),
{
    let p = match shape_for(sw, session, spec) {
        Some(p) => p,
        None => {
            let none: Vec<MatchRefs> = Vec::new();
            assert(match_refs_views(none@) =~= seq![]);
            assert(spec_matches(*sw, session, *spec).map_values(
                |m: MatchView| spec_match_refs(*sw, session, m),
            ) =~= seq![]);
            return none;
        },
    };
    let raw = sw.tree.find_matches(&p);
    let ghost all = match_views(raw@);
    let ghost pred = |m: MatchView| match_fits(sw.tree, *spec, m);
    let ghost refer = |m: MatchView| spec_match_refs(*sw, session, m);
    let mut out: Vec<MatchRefs> = Vec::new();
    let mut i: usize = 0;
    proof {
        reveal(Seq::filter);
        assert(all.take(0) =~= seq![]);
        assert(match_refs_views(out@) =~= all.take(0).filter(pred).map_values(refer));
    }
    while i < raw.len()
        invariant
            sw.wf(),
            p@ == shape_of(*sw, session, *spec),
            all == match_views(raw@),
            all == sw.tree.matches(p@),
            pred == (|m: MatchView| match_fits(sw.tree, *spec, m)),
            refer == (|m: MatchView| spec_match_refs(*sw, session, m)),
            i <= raw@.len(),
            match_refs_views(out@) == all.take(i as int).filter(pred).map_values(refer),
        decreases raw@.len() - i,
    {
        let m = &raw[i];
        proof {
            lemma_filter_step(all, i as int, pred);
            assert(all[i as int] == m@);
            assert(all.len() == sw.tree.bindings(p@, p@.nodes).len());
            sw.tree.lemma_bindings_consistent(p@, p@.nodes, i as int);
        }
        if match_passes_filters(sw, m, spec) {
            let ghost before = out@;
            let refs = match_refs(sw, session, m);
            out.push(refs);
            assert(match_refs_views(out@) =~= match_refs_views(before).push(refer(m@)));
            assert(match_refs_views(out@) =~= all.take(i + 1).filter(pred).map_values(refer));
        }
        i = i + 1;
    }
    assert(all.take(i as int) =~= all);
    out
}

// ---------------------------------------------------------------------------
// Laws
// ---------------------------------------------------------------------------

/// Whether each filter on `slot` has `e` among the entities that it admits.
pub open spec fn filters_admit(filters: Seq<SlotFilterView>, slot: int, e: Entity) -> bool {
    forall|k: int|
        0 <= k < filters.len() && (#[trigger] filters[k]).slot == slot ==> exists|m: int|
            0 <= m < filters[k].admitted.len() && filters[k].admitted[m] == e
}

/// Whether a live edge of the scene leads from `a` to `b`.
pub open spec fn edge_leads(tree: SceneTree, e: Entity, a: Entity, b: Entity) -> bool {
    &&& tree.alive(e)
    &&& tree.rec(e).scene_edge
    &&& tree.rec(e).edge_from == Some(a)
    &&& tree.rec(e).edge_to == Some(b)
}

impl SceneTree {
    /// A match of a pattern binds each node slot to a live scene node of its own:
    /// the known one where it is pinned, and one that every filter on the slot
    /// admits.
    pub proof fn match_nodes_fit(self, p: PatternView, m: int)
        requires
            0 <= m < self.matches(p).len(),
        ensures
            ({
                let nodes = self.matches(p)[m].nodes;
                &&& nodes.len() == p.nodes
                &&& forall|i: int| 0 <= i < nodes.len() ==> self.alive(#[trigger] nodes[i])
                    && self.rec(nodes[i]).scene_node
                &&& forall|i: int, j: int|
                    0 <= i < j < nodes.len() ==> #[trigger] nodes[i] != #[trigger] nodes[j]
                &&& forall|k: int|
                    0 <= k < p.anchors.len() && (#[trigger] p.anchors[k]).0 < p.nodes
                        ==> nodes[p.anchors[k].0 as int] == p.anchors[k].1
                &&& forall|k: int|
                    0 <= k < p.node_filters.len() && (#[trigger] p.node_filters[k]).slot < p.nodes
                        ==> p.node_filters[k].admitted.contains(
                        nodes[p.node_filters[k].slot as int],
                    )
            }),
    {
        let b = self.bindings(p, p.nodes)[m];
        self.lemma_bindings_consistent(p, p.nodes, m);
        assert(self.bindings(p, p.nodes).contains(b));
        self.bindings_are_exact(p, p.nodes, b);
        assert(self.matches(p)[m].nodes == b);
        assert forall|i: int| 0 <= i < b.len() implies self.alive(#[trigger] b[i]) && self.rec(
            b[i],
        ).scene_node by {
            assert(self.scene(b[i]));
        }
        assert forall|k: int|
            0 <= k < p.node_filters.len() && (#[trigger] p.node_filters[k]).slot < p.nodes implies
            p.node_filters[k].admitted.contains(b[p.node_filters[k].slot as int]) by {
            let slot = p.node_filters[k].slot as int;
            assert(admits(p.node_filters, slot, b[slot]));
        }
    }

    /// A match of a pattern gives each edge slot a live edge of the scene that
    /// leads from the node bound to the source to the node bound to the target,
    /// whichever way round the slot names them, and that every filter on the
    /// slot admits.
    pub proof fn match_edges_lead(self, p: PatternView, m: int, i: int)
        requires
            0 <= m < self.matches(p).len(),
            0 <= i < p.edges.len(),
            p.edges[i].from < p.nodes,
            p.edges[i].to < p.nodes,
        ensures
            self.matches(p)[m].edges.len() == p.edges.len(),
            ({
                let found = self.matches(p)[m];
                let e = found.edges[i];
                let from = found.nodes[p.edges[i].from as int];
                let to = found.nodes[p.edges[i].to as int];
                &&& p.edges[i].direction == PatternDirection::Forward ==> edge_leads(
                    self,
                    e,
                    from,
                    to,
                )
                &&& p.edges[i].direction == PatternDirection::Backward ==> edge_leads(
                    self,
                    e,
                    to,
                    from,
                )
                &&& forall|k: int|
                    0 <= k < p.edge_filters.len() && (#[trigger] p.edge_filters[k]).slot == i
                        ==> p.edge_filters[k].admitted.contains(e)
            }),
    {
        self.match_edges_fit(p, m, i);
    }

    /// Nothing that fits is missed: wherever distinct scene nodes stand for the
    /// slots of a pattern, with an edge for each edge slot, there is a match.
    pub proof fn fitting_nodes_match(self, p: PatternView, b: Seq<Entity>)
        requires
            b.len() == p.nodes,
            b.no_duplicates(),
            forall|i: int| 0 <= i < b.len() ==> self.alive(#[trigger] b[i]) && self.rec(
                b[i],
            ).scene_node,
            forall|k: int|
                0 <= k < p.anchors.len() && (#[trigger] p.anchors[k]).0 < b.len()
                    ==> b[p.anchors[k].0 as int] == p.anchors[k].1,
            forall|k: int|
                0 <= k < p.node_filters.len() && (#[trigger] p.node_filters[k]).slot < b.len()
                    ==> p.node_filters[k].admitted.contains(b[p.node_filters[k].slot as int]),
            forall|i: int|
                0 <= i < p.edges.len() ==> (#[trigger] p.edges[i]).from < p.nodes && p.edges[i].to
                    < p.nodes,
            forall|i: int|
                0 <= i < p.edges.len() ==> {
                    let from = b[(#[trigger] p.edges[i]).from as int];
                    let to = b[p.edges[i].to as int];
                    if p.edges[i].direction == PatternDirection::Forward {
                        exists|e: Entity| #[trigger]
                            edge_leads(self, e, from, to) && filters_admit(p.edge_filters, i, e)
                    } else {
                        exists|e: Entity| #[trigger]
                            edge_leads(self, e, to, from) && filters_admit(p.edge_filters, i, e)
                    }
                },
        ensures
            exists|m: int|
                0 <= m < self.matches(p).len() && (#[trigger] self.matches(p)[m]).nodes == b,
    {
        assert forall|i: int| 0 <= i < p.edges.len() implies #[trigger] self.edge_holds(p, i, b) by {
            let edge = p.edges[i];
            let from = b[edge_source(edge) as int];
            let to = b[edge_target(edge) as int];
            let e = choose|e: Entity| #[trigger]
                edge_leads(self, e, from, to) && filters_admit(p.edge_filters, i, e);
            assert(edge_leads(self, e, from, to) && filters_admit(p.edge_filters, i, e));
            assert(admits(p.edge_filters, i, e));
            let pred = |e: Entity|
                self.is_edge(e) && self.rec(e).edge_from == Some(from) && self.rec(e).edge_to
                    == Some(to) && admits(p.edge_filters, i, e);
            assert(self.ids()[e as int] == e);
            lemma_first_where_found(self.ids(), pred, e as int);
        }
        assert(self.consistent(p, b));
        assert forall|i: int| 0 <= i < b.len() implies self.scene(#[trigger] b[i]) by {}
        self.bindings_are_exact(p, p.nodes, b);
        let all = self.bindings(p, p.nodes);
        let m = choose|m: int| 0 <= m < all.len() && all[m] == b;
        assert(self.matches(p)[m].nodes == b);
    }
}

/// Where something of `list` passes, the first that does comes no later.
proof fn lemma_first_where_found(list: Seq<Entity>, pred: spec_fn(Entity) -> bool, i: int)
    requires
        0 <= i < list.len(),
        pred(list[i]),
    ensures
        first_where(list, pred) is Some,
    decreases list.len(),
{
    if !pred(list[0]) {
        assert(list.skip(1)[i - 1] == list[i]);
        lemma_first_where_found(list.skip(1), pred, i - 1);
    }
}

/// A match of a specification binds each slot to a live scene node that is of
/// the kind asked for, where one is, and that has the name asked for, where one
/// is: a frame by its name, what is no frame by the content of its text. Each of
/// the two must hold by itself.
pub proof fn match_honours_slots(
    w: SceneWorld,
    session: SessionId,
    spec: PatternSpec,
    m: int,
    slot: int,
)
    requires
        0 <= m < spec_matches(w, session, spec).len(),
        0 <= slot < spec.nodes@.len(),
    ensures
        spec_matches(w, session, spec)[m].nodes.len() == spec.nodes@.len(),
        ({
            let e = spec_matches(w, session, spec)[m].nodes[slot];
            let want = spec.nodes@[slot];
            let r = w.tree.rec(e);
            &&& w.tree.alive(e)
            &&& r.scene_node
            &&& want.kind is Some ==> r.kind == want.kind
            &&& want.name is Some ==> (r.frame is Some && r.frame->0.name@ == want.name->0@) || (
            r.frame is None && r.text is Some && r.text->0.content@ == want.name->0@)
        }),
{
    let found = spec_matches(w, session, spec);
    let all = w.tree.matches(shape_of(w, session, spec));
    let pred = |x: MatchView| match_fits(w.tree, spec, x);
    assert(found.contains(found[m]));
    lemma_filter_contains(all, pred, found[m]);
    let k = choose|k: int| 0 <= k < all.len() && all[k] == found[m];
    w.tree.match_nodes_fit(shape_of(w, session, spec), k);
    assert(node_fits(w.tree, spec.nodes@[slot], found[m].nodes[slot]));
}

/// In a match of a specification different slots have different nodes, every
/// pinned slot has the node that its anchor resolves to, and every edge slot has
/// a live edge that leads the way that was asked for.
pub proof fn match_honours_shape(
    w: SceneWorld,
    session: SessionId,
    spec: PatternSpec,
    m: int,
    i: int,
    j: int,
)
    requires
        spec.fits_slots(w, session),
        0 <= m < spec_matches(w, session, spec).len(),
    ensures
        0 <= i < j < spec.nodes@.len() ==> spec_matches(w, session, spec)[m].nodes[i]
            != spec_matches(w, session, spec)[m].nodes[j],
        0 <= i < spec.anchors@.len() ==> resolved_target(
            w,
            target_view(spec.anchors@[i].target),
            session,
        ) == Some(
            spec_matches(w, session, spec)[m].nodes[spec.anchors@[i].pattern_node as int],
        ),
        0 <= i < spec.edges@.len() ==> {
            let found = spec_matches(w, session, spec)[m];
            let from = found.nodes[spec.edges@[i].from as int];
            let to = found.nodes[spec.edges@[i].to as int];
            match spec.edges@[i].direction {
                PatternDirection::Forward => edge_leads(w.tree, found.edges[i], from, to),
                PatternDirection::Backward => edge_leads(w.tree, found.edges[i], to, from),
            }
        },
{
    let p = shape_of(w, session, spec);
    let found = spec_matches(w, session, spec);
    let all = w.tree.matches(p);
    assert(found.contains(found[m]));
    lemma_filter_contains(all, |x: MatchView| match_fits(w.tree, spec, x), found[m]);
    let k = choose|k: int| 0 <= k < all.len() && all[k] == found[m];
    w.tree.match_nodes_fit(p, k);
    if 0 <= i < spec.anchors@.len() {
        assert(resolved_target(w, target_view(spec.anchors@[i].target), session) is Some);
        assert(p.anchors[i].0 == spec.anchors@[i].pattern_node);
        assert(spec.anchors@[i].pattern_node < spec.nodes@.len());
    }
    if 0 <= i < spec.edges@.len() {
        assert(p.edges[i].from < p.nodes && p.edges[i].to < p.nodes);
        w.tree.match_edges_lead(p, k, i);
    }
}

/// Nothing that a specification asks for is missed: wherever distinct scene
/// nodes are what its slots and anchors ask for, with an edge for each edge slot,
/// there is a match that binds them.
pub proof fn fitting_nodes_match_spec(
    w: SceneWorld,
    session: SessionId,
    spec: PatternSpec,
    b: Seq<Entity>,
)
    requires
        spec.fits_slots(w, session),
        b.len() == spec.nodes@.len(),
        b.no_duplicates(),
        forall|i: int| 0 <= i < b.len() ==> w.tree.alive(#[trigger] b[i]) && w.tree.rec(
            b[i],
        ).scene_node,
        forall|i: int|
            0 <= i < spec.nodes@.len() && (#[trigger] spec.nodes@[i]).kind is Some
                ==> w.tree.rec(b[i]).kind == spec.nodes@[i].kind,
        forall|i: int|
            0 <= i < spec.nodes@.len() && (#[trigger] spec.nodes@[i]).name is Some ==> {
                let r = w.tree.rec(b[i]);
                let name = spec.nodes@[i].name->0@;
                (r.frame is Some && r.frame->0.name@ == name) || (r.frame is None && r.text is Some
                    && r.text->0.content@ == name)
            },
        forall|i: int|
            0 <= i < spec.anchors@.len() ==> resolved_target(
                w,
                target_view((#[trigger] spec.anchors@[i]).target),
                session,
            ) == Some(b[spec.anchors@[i].pattern_node as int]),
        forall|i: int|
            0 <= i < spec.edges@.len() ==> {
                let from = b[(#[trigger] spec.edges@[i]).from as int];
                let to = b[spec.edges@[i].to as int];
                if spec.edges@[i].direction == PatternDirection::Forward {
                    exists|e: Entity| edge_leads(w.tree, e, from, to)
                } else {
                    exists|e: Entity| edge_leads(w.tree, e, to, from)
                }
            },
    ensures
        exists|m: int|
            0 <= m < spec_matches(w, session, spec).len() && (#[trigger] spec_matches(
                w,
                session,
                spec,
            )[m]).nodes == b,
{
    let p = shape_of(w, session, spec);
    assert forall|k: int|
        0 <= k < p.anchors.len() && (#[trigger] p.anchors[k]).0 < b.len() implies
        b[p.anchors[k].0 as int] == p.anchors[k].1 by {
        assert(spec.anchors@[k].pattern_node == p.anchors[k].0);
    }
    assert forall|i: int| 0 <= i < p.edges.len() implies ({
        let from = b[(#[trigger] p.edges[i]).from as int];
        let to = b[p.edges[i].to as int];
        if p.edges[i].direction == PatternDirection::Forward {
            exists|e: Entity| #[trigger]
                edge_leads(w.tree, e, from, to) && filters_admit(p.edge_filters, i, e)
        } else {
            exists|e: Entity| #[trigger]
                edge_leads(w.tree, e, to, from) && filters_admit(p.edge_filters, i, e)
        }
    }) by {
        let from = b[spec.edges@[i].from as int];
        let to = b[spec.edges@[i].to as int];
        if spec.edges@[i].direction == PatternDirection::Forward {
            let e = choose|e: Entity| edge_leads(w.tree, e, from, to);
            assert(edge_leads(w.tree, e, from, to) && filters_admit(p.edge_filters, i, e));
        } else {
            let e = choose|e: Entity| edge_leads(w.tree, e, to, from);
            assert(edge_leads(w.tree, e, to, from) && filters_admit(p.edge_filters, i, e));
        }
    }
    w.tree.fitting_nodes_match(p, b);
    let all = w.tree.matches(p);
    let k = choose|k: int| 0 <= k < all.len() && (#[trigger] all[k]).nodes == b;
    let pred = |x: MatchView| match_fits(w.tree, spec, x);
    assert(match_fits(w.tree, spec, all[k])) by {
        assert forall|i: int| 0 <= i < spec.nodes@.len() implies node_fits(
            w.tree,
            #[trigger] spec.nodes@[i],
            all[k].nodes[i],
        ) by {
            assert(w.tree.alive(b[i]));
        }
    }
    assert(all.contains(all[k]));
    lemma_filter_contains(all, pred, all[k]);
    let found = spec_matches(w, session, spec);
    assert(anchors_resolve(w, session, spec.anchors@));
    let m = choose|m: int| 0 <= m < found.len() && found[m] == all[k];
    assert(found[m].nodes == b);
}

/// Told in references, a match keeps its slots: each node is told by its own
/// reference, and each edge by its entity and by the references of the nodes
/// that it leads from and to.
pub proof fn match_is_told_by_references(w: SceneWorld, session: SessionId, m: MatchView, i: int)
    ensures
        spec_match_refs(w, session, m).nodes.len() == m.nodes.len(),
        spec_match_refs(w, session, m).edges.len() == m.edges.len(),
        0 <= i < m.nodes.len() ==> spec_match_refs(w, session, m).nodes[i] == node_ref_or_root(
            w,
            m.nodes[i],
            session,
        ),
        0 <= i < m.edges.len() ==> spec_match_refs(w, session, m).edges[i].entity == Some(
            m.edges[i],
        ),
        forall|a: Entity, b: Entity|
            0 <= i < m.edges.len() && #[trigger] edge_leads(w.tree, m.edges[i], a, b) ==> {
                let told = spec_match_refs(w, session, m).edges[i];
                told.from == node_ref_or_root(w, a, session) && told.to == node_ref_or_root(
                    w,
                    b,
                    session,
                )
            },
{
}

impl SceneTree {
    proof fn lemma_extensions_once(self, p: PatternView, bound: Seq<Entity>, n: nat)
        requires
            self.slots@.len() <= u32::MAX,
            n <= self.scene_ids().len(),
        ensures
            self.extensions(p, bound, n).no_duplicates(),
        decreases n,
    {
        if n > 0 {
            let rest = self.extensions(p, bound, (n - 1) as nat);
            let next = bound.push(self.scene_ids()[n - 1]);
            self.lemma_extensions_once(p, bound, (n - 1) as nat);
            if rest.contains(next) {
                self.lemma_extensions(p, bound, (n - 1) as nat, next);
                let c = choose|c: int|
                    0 <= c < n - 1 && next == bound.push(#[trigger] self.scene_ids()[c]);
                assert(next.last() == self.scene_ids()[n - 1]);
                assert(bound.push(self.scene_ids()[c]).last() == self.scene_ids()[c]);
                self.lemma_scene_ids_once();
            }
        }
    }

    proof fn lemma_scene_ids_once(self)
        requires
            self.slots@.len() <= u32::MAX,
        ensures
            self.scene_ids().no_duplicates(),
    {
        assert(self.ids().no_duplicates());
        lemma_filter_no_duplicates(self.ids(), |e: Entity| self.scene(e));
    }

    proof fn lemma_all_extensions_once(self, p: PatternView, list: Seq<Seq<Entity>>)
        requires
            self.slots@.len() <= u32::MAX,
            list.no_duplicates(),
        ensures
            self.all_extensions(p, list).no_duplicates(),
        decreases list.len(),
    {
        if list.len() > 0 {
            let init = list.drop_last();
            let a = self.all_extensions(p, init);
            let b = self.extensions(p, list.last(), self.scene_ids().len());
            assert(init.no_duplicates()) by {
                assert forall|i: int, j: int|
                    0 <= i < init.len() && 0 <= j < init.len() && i != j implies init[i]
                    != init[j] by {
                    assert(list[i] != list[j]);
                }
            }
            self.lemma_all_extensions_once(p, init);
            self.lemma_extensions_once(p, list.last(), self.scene_ids().len());
            assert forall|x: Seq<Entity>| !(#[trigger] a.contains(x) && b.contains(x)) by {
                if a.contains(x) && b.contains(x) {
                    self.lemma_all_extensions(p, init, x);
                    self.lemma_extensions(p, list.last(), self.scene_ids().len(), x);
                    let (i, c) = choose|i: int, c: int|
                        #![trigger init[i], self.scene_ids()[c]]
                        0 <= i < init.len() && 0 <= c < self.scene_ids().len() && x
                            == init[i].push(self.scene_ids()[c]);
                    let d = choose|d: int|
                        0 <= d < self.scene_ids().len() && x == list.last().push(
                            #[trigger] self.scene_ids()[d],
                        );
                    assert(x.drop_last() =~= init[i]);
                    assert(x.drop_last() =~= list.last());
                    assert(list[i] != list[list.len() - 1]);
                }
            }
            lemma_concat_no_duplicates(a, b);
        }
    }

    proof fn lemma_bindings_once(self, p: PatternView, k: nat)
        requires
            self.slots@.len() <= u32::MAX,
        ensures
            self.bindings(p, k).no_duplicates(),
        decreases k,
    {
        if k > 0 {
            self.lemma_bindings_once(p, (k - 1) as nat);
            self.lemma_all_extensions_once(p, self.bindings(p, (k - 1) as nat));
        }
    }

    /// A pattern has no two matches with the same nodes in the same slots.
    pub proof fn matches_are_told_once(self, p: PatternView, i: int, j: int)
        requires
            self.slots@.len() <= u32::MAX,
            0 <= i < j < self.matches(p).len(),
        ensures
            self.matches(p)[i].nodes != self.matches(p)[j].nodes,
    {
        self.lemma_bindings_once(p, p.nodes);
        assert(self.matches(p)[i].nodes == self.bindings(p, p.nodes)[i]);
        assert(self.matches(p)[j].nodes == self.bindings(p, p.nodes)[j]);
    }
}

} // verus!
