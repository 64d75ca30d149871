//! The replicated topology as the outside sees it: nodes and edges that appear,
//! move and go.
use std::collections::HashMap;

use vstd::prelude::*;

use crate::agent::scene::Entity;
use crate::agent::world::EntityCrdtIndex;
use crate::editor::msg::app_views;
use crate::editor::msg::tell;
use crate::editor::msg::AppEvent;
use crate::editor::msg::AppEventView;
use crate::editor::msg::ExternalId;
use crate::editor::msg::GraphMessageExt;
use crate::editor::topology::EdgeRow;

verus! {

/// The identities of the nodes and edges that were told of. An entity's
/// identity is forgotten elsewhere as soon as the entity goes; here it is kept
/// until its going was told.
#[derive(Debug)]
pub struct ExternalIdCache {
    pub nodes: HashMap<Entity, ExternalId>,
    pub edges: HashMap<Entity, ExternalId>,
}

impl Default for ExternalIdCache {
    fn default() -> (r: Self)
        ensures
            r.nodes@ == Map::<Entity, ExternalId>::empty(),
            r.edges@ == Map::<Entity, ExternalId>::empty(),
    {
        ExternalIdCache { nodes: HashMap::new(), edges: HashMap::new() }
    }
}

/// The events that tell of new nodes: those whose identity is known.
pub open spec fn appeared<V, P>(
    nodes: Seq<(Entity, P)>,
    ids: Map<Entity, ExternalId>,
) -> Seq<AppEventView<V, P>>
    decreases nodes.len(),
{
    if nodes.len() == 0 {
        Seq::empty()
    } else {
        let before = appeared(nodes.drop_last(), ids);
        let (entity, position) = nodes.last();
        if ids.dom().contains(entity) {
            before.push(
                AppEventView::Graph(GraphMessageExt::NodeAppeared { id: ids[entity], position }),
            )
        } else {
            before
        }
    }
}

/// The cache, once the new nodes whose identity is known have gone in.
pub open spec fn cached<P>(
    cache: Map<Entity, ExternalId>,
    nodes: Seq<(Entity, P)>,
    ids: Map<Entity, ExternalId>,
) -> Map<Entity, ExternalId>
    decreases nodes.len(),
{
    if nodes.len() == 0 {
        cache
    } else {
        let before = cached(cache, nodes.drop_last(), ids);
        let entity = nodes.last().0;
        if ids.dom().contains(entity) {
            before.insert(entity, ids[entity])
        } else {
            before
        }
    }
}

/// Tells of new nodes, with their positions.
pub fn emit_node_appeared<T: View, P: Copy>(
    nodes: &Vec<(Entity, P)>,
    index: &EntityCrdtIndex,
    cache: &mut ExternalIdCache,
    events: &mut Vec<AppEvent<T, P>>,
)
    ensures
        final(cache).edges == old(cache).edges,
        final(cache).nodes@ == cached(old(cache).nodes@, nodes@, index.node_of_entity@),
        app_views(final(events)@) == app_views(old(events)@) + appeared(
            nodes@,
            index.node_of_entity@,
        ),
{
    let mut i: usize = 0;
    assert(app_views(events@) =~= app_views(old(events)@) + appeared::<T::V, P>(
        nodes@.take(0),
        index.node_of_entity@,
    ));
    while i < nodes.len()
        invariant
            i <= nodes@.len(),
            cache.edges == old(cache).edges,
            cache.nodes@ == cached(
                old(cache).nodes@,
                nodes@.take(i as int),
                index.node_of_entity@,
            ),
            app_views(events@) == app_views(old(events)@) + appeared(
                nodes@.take(i as int),
                index.node_of_entity@,
            ),
        decreases nodes@.len() - i,
    {
        let ghost told = app_views(events@);
        let (entity, position) = nodes[i];
        if let Some(id) = index.node_of_entity.get(&entity) {
            cache.nodes.insert(entity, *id);
            tell(events, AppEvent::Graph(GraphMessageExt::NodeAppeared { id: *id, position }));
        }
        assert(nodes@.take(i + 1).drop_last() =~= nodes@.take(i as int));
        i = i + 1;
        assert(app_views(events@) =~= app_views(old(events)@) + appeared::<T::V, P>(
            nodes@.take(i as int),
            index.node_of_entity@,
        ));
    }
    assert(nodes@.take(i as int) =~= nodes@);
}

/// The events that tell of moved nodes: those whose identity is known.
pub open spec fn moves_told<V, P>(
    nodes: Seq<(Entity, P)>,
    ids: Map<Entity, ExternalId>,
) -> Seq<AppEventView<V, P>>
    decreases nodes.len(),
{
    if nodes.len() == 0 {
        Seq::empty()
    } else {
        let before = moves_told(nodes.drop_last(), ids);
        let (entity, position) = nodes.last();
        if ids.dom().contains(entity) {
            before.push(
                AppEventView::Graph(GraphMessageExt::NodeMoved { id: ids[entity], position }),
            )
        } else {
            before
        }
    }
}

/// Tells of moved nodes, with their new positions.
pub fn emit_node_moved<T: View, P: Copy>(
    moved: &Vec<(Entity, P)>,
    index: &EntityCrdtIndex,
    events: &mut Vec<AppEvent<T, P>>,
)
    ensures
        app_views(final(events)@) == app_views(old(events)@) + moves_told(
            moved@,
            index.node_of_entity@,
        ),
{
    let mut i: usize = 0;
    assert(app_views(events@) =~= app_views(old(events)@) + moves_told::<T::V, P>(
        moved@.take(0),
        index.node_of_entity@,
    ));
    while i < moved.len()
        invariant
            i <= moved@.len(),
            app_views(events@) == app_views(old(events)@) + moves_told(
                moved@.take(i as int),
                index.node_of_entity@,
            ),
        decreases moved@.len() - i,
    {
        let (entity, position) = moved[i];
        if let Some(id) = index.node_of_entity.get(&entity) {
            tell(events, AppEvent::Graph(GraphMessageExt::NodeMoved { id: *id, position }));
        }
        assert(moved@.take(i + 1).drop_last() =~= moved@.take(i as int));
        i = i + 1;
        assert(app_views(events@) =~= app_views(old(events)@) + moves_told::<T::V, P>(
            moved@.take(i as int),
            index.node_of_entity@,
        ));
    }
    assert(moved@.take(i as int) =~= moved@);
}

/// The cache without the entities that went.
pub open spec fn forgotten(
    cache: Map<Entity, ExternalId>,
    removed: Seq<Entity>,
) -> Map<Entity, ExternalId>
    decreases removed.len(),
{
    if removed.len() == 0 {
        cache
    } else {
        forgotten(cache, removed.drop_last()).remove(removed.last())
    }
}

/// The identities of the entities that went, in order, as far as they were in
/// the cache.
pub open spec fn gone_ids(
    cache: Map<Entity, ExternalId>,
    removed: Seq<Entity>,
) -> Seq<ExternalId>
    decreases removed.len(),
{
    if removed.len() == 0 {
        Seq::empty()
    } else {
        let left = forgotten(cache, removed.drop_last());
        let before = gone_ids(cache, removed.drop_last());
        if left.dom().contains(removed.last()) {
            before.push(left[removed.last()])
        } else {
            before
        }
    }
}

pub open spec fn nodes_gone<V, P>(ids: Seq<ExternalId>) -> Seq<AppEventView<V, P>> {
    ids.map_values(|id: ExternalId| AppEventView::Graph(GraphMessageExt::NodeRemoved { id }))
}

/// Edges that go are told with their own identity in the place of both ends.
pub open spec fn edges_gone<V, P>(ids: Seq<ExternalId>) -> Seq<AppEventView<V, P>> {
    ids.map_values(
        |id: ExternalId|
            AppEventView::Graph(GraphMessageExt::EdgeRemoved { id, from: id, to: id }),
    )
}

/// Tells of nodes that went, each once.
pub fn emit_node_removed<T: View, P: Copy>(
    removed: &Vec<Entity>,
    cache: &mut ExternalIdCache,
    events: &mut Vec<AppEvent<T, P>>,
)
    ensures
        final(cache).edges == old(cache).edges,
        final(cache).nodes@ == forgotten(old(cache).nodes@, removed@),
        app_views(final(events)@) == app_views(old(events)@) + nodes_gone(
            gone_ids(old(cache).nodes@, removed@),
        ),
{
    let mut i: usize = 0;
    assert(app_views(events@) =~= app_views(old(events)@) + nodes_gone::<T::V, P>(
        gone_ids(old(cache).nodes@, removed@.take(0)),
    ));
    while i < removed.len()
        invariant
            i <= removed@.len(),
            cache.edges == old(cache).edges,
            cache.nodes@ == forgotten(old(cache).nodes@, removed@.take(i as int)),
            app_views(events@) == app_views(old(events)@) + nodes_gone(
                gone_ids(old(cache).nodes@, removed@.take(i as int)),
            ),
        decreases removed@.len() - i,
    {
        if let Some(id) = cache.nodes.remove(&removed[i]) {
            tell(events, AppEvent::Graph(GraphMessageExt::NodeRemoved { id }));
        }
        assert(removed@.take(i + 1).drop_last() =~= removed@.take(i as int));
        i = i + 1;
        assert(app_views(events@) =~= app_views(old(events)@) + nodes_gone::<T::V, P>(
            gone_ids(old(cache).nodes@, removed@.take(i as int)),
        ));
    }
    assert(removed@.take(i as int) =~= removed@);
}

/// Tells of edges that went, each once.
pub fn emit_edge_removed<T: View, P: Copy>(
    removed: &Vec<Entity>,
    cache: &mut ExternalIdCache,
    events: &mut Vec<AppEvent<T, P>>,
)
    ensures
        final(cache).nodes == old(cache).nodes,
        final(cache).edges@ == forgotten(old(cache).edges@, removed@),
        app_views(final(events)@) == app_views(old(events)@) + edges_gone(
            gone_ids(old(cache).edges@, removed@),
        ),
{
    let mut i: usize = 0;
    assert(app_views(events@) =~= app_views(old(events)@) + edges_gone::<T::V, P>(
        gone_ids(old(cache).edges@, removed@.take(0)),
    ));
    while i < removed.len()
        invariant
            i <= removed@.len(),
            cache.nodes == old(cache).nodes,
            cache.edges@ == forgotten(old(cache).edges@, removed@.take(i as int)),
            app_views(events@) == app_views(old(events)@) + edges_gone(
                gone_ids(old(cache).edges@, removed@.take(i as int)),
            ),
        decreases removed@.len() - i,
    {
        if let Some(id) = cache.edges.remove(&removed[i]) {
            tell(events, AppEvent::Graph(GraphMessageExt::EdgeRemoved { id, from: id, to: id }));
        }
        assert(removed@.take(i + 1).drop_last() =~= removed@.take(i as int));
        i = i + 1;
        assert(app_views(events@) =~= app_views(old(events)@) + edges_gone::<T::V, P>(
            gone_ids(old(cache).edges@, removed@.take(i as int)),
        ));
    }
    assert(removed@.take(i as int) =~= removed@);
}

/// Whether an edge can be told of: it and both its ends have an identity.
pub open spec fn tellable(index: EntityCrdtIndex, row: EdgeRow) -> bool {
    index.edge_of_entity@.dom().contains(row.edge) && index.node_of_entity@.dom().contains(
        row.from,
    ) && index.node_of_entity@.dom().contains(row.to)
}

/// The events that tell of new edges, as far as they can be told of.
pub open spec fn edges_appeared<V, P>(
    edges: Seq<EdgeRow>,
    index: EntityCrdtIndex,
) -> Seq<AppEventView<V, P>>
    decreases edges.len(),
{
    if edges.len() == 0 {
        Seq::empty()
    } else {
        let before = edges_appeared(edges.drop_last(), index);
        let row = edges.last();
        if tellable(index, row) {
            before.push(
                AppEventView::Graph(
                    GraphMessageExt::EdgeAppeared {
                        id: index.edge_of_entity@[row.edge],
                        from: index.node_of_entity@[row.from],
                        to: index.node_of_entity@[row.to],
                    },
                ),
            )
        } else {
            before
        }
    }
}

/// The cache, once the new edges that can be told of have gone in.
pub open spec fn edges_cached(
    cache: Map<Entity, ExternalId>,
    edges: Seq<EdgeRow>,
    index: EntityCrdtIndex,
) -> Map<Entity, ExternalId>
    decreases edges.len(),
{
    if edges.len() == 0 {
        cache
    } else {
        let before = edges_cached(cache, edges.drop_last(), index);
        let row = edges.last();
        if tellable(index, row) {
            before.insert(row.edge, index.edge_of_entity@[row.edge])
        } else {
            before
        }
    }
}

/// Tells of new edges, with both ends.
pub fn emit_edge_appeared<T: View, P: Copy>(
    edges: &Vec<EdgeRow>,
    index: &EntityCrdtIndex,
    cache: &mut ExternalIdCache,
    events: &mut Vec<AppEvent<T, P>>,
)
    ensures
        final(cache).nodes == old(cache).nodes,
        final(cache).edges@ == edges_cached(old(cache).edges@, edges@, *index),
        app_views(final(events)@) == app_views(old(events)@) + edges_appeared(edges@, *index),
{
    let mut i: usize = 0;
    assert(app_views(events@) =~= app_views(old(events)@) + edges_appeared::<T::V, P>(
        edges@.take(0),
        *index,
    ));
    while i < edges.len()
        invariant
            i <= edges@.len(),
            cache.nodes == old(cache).nodes,
            cache.edges@ == edges_cached(old(cache).edges@, edges@.take(i as int), *index),
            app_views(events@) == app_views(old(events)@) + edges_appeared(
                edges@.take(i as int),
                *index,
            ),
        decreases edges@.len() - i,
    {
        let row = edges[i];
        match (
            index.edge_of_entity.get(&row.edge),
            index.node_of_entity.get(&row.from),
            index.node_of_entity.get(&row.to),
        ) {
            (Some(id), Some(from), Some(to)) => {
                cache.edges.insert(row.edge, *id);
                tell(
                    events,
                    AppEvent::Graph(
                        GraphMessageExt::EdgeAppeared { id: *id, from: *from, to: *to },
                    ),
                );
            },
            _ => {},
        }
        assert(edges@.take(i + 1).drop_last() =~= edges@.take(i as int));
        i = i + 1;
        assert(app_views(events@) =~= app_views(old(events)@) + edges_appeared::<T::V, P>(
            edges@.take(i as int),
            *index,
        ));
    }
    assert(edges@.take(i as int) =~= edges@);
}

/// A node that appeared with an identity and then goes is told of as gone
/// exactly once, under that identity, even if its going is reported twice and
/// nothing else knows the identity any more.
pub proof fn appeared_node_goes_once<P>(
    cache: Map<Entity, ExternalId>,
    entity: Entity,
    position: P,
    ids: Map<Entity, ExternalId>,
)
    requires
        ids.dom().contains(entity),
    ensures
        ({
            let after = cached(cache, seq![(entity, position)], ids);
            &&& gone_ids(after, seq![entity]) == seq![ids[entity]]
            &&& gone_ids(after, seq![entity, entity]) == seq![ids[entity]]
            &&& !forgotten(after, seq![entity]).dom().contains(entity)
        }),
{
    let nodes = seq![(entity, position)];
    assert(nodes.drop_last() =~= Seq::<(Entity, P)>::empty());
    let after = cached(cache, nodes, ids);
    assert(cached(cache, Seq::<(Entity, P)>::empty(), ids) == cache);
    assert(after == cache.insert(entity, ids[entity]));
    let one = seq![entity];
    let two = seq![entity, entity];
    assert(one.drop_last() =~= Seq::<Entity>::empty());
    assert(two.drop_last() =~= one);
    assert(forgotten(after, Seq::<Entity>::empty()) == after);
    assert(gone_ids(after, Seq::<Entity>::empty()) =~= Seq::<ExternalId>::empty());
    assert(forgotten(after, one) == after.remove(entity));
    assert(gone_ids(after, one) =~= seq![ids[entity]]);
    assert(gone_ids(after, two) =~= seq![ids[entity]]);
}

/// The same of an edge: once told of with both its ends, its going is told
/// exactly once.
pub proof fn appeared_edge_goes_once(
    cache: Map<Entity, ExternalId>,
    row: EdgeRow,
    index: EntityCrdtIndex,
)
    requires
        tellable(index, row),
    ensures
        ({
            let after = edges_cached(cache, seq![row], index);
            let id = index.edge_of_entity@[row.edge];
            &&& gone_ids(after, seq![row.edge]) == seq![id]
            &&& gone_ids(after, seq![row.edge, row.edge]) == seq![id]
            &&& !forgotten(after, seq![row.edge]).dom().contains(row.edge)
        }),
{
    let id = index.edge_of_entity@[row.edge];
    let edges = seq![row];
    assert(edges.drop_last() =~= Seq::<EdgeRow>::empty());
    let after = edges_cached(cache, edges, index);
    assert(edges_cached(cache, Seq::<EdgeRow>::empty(), index) == cache);
    assert(after == cache.insert(row.edge, id));
    let one = seq![row.edge];
    let two = seq![row.edge, row.edge];
    assert(one.drop_last() =~= Seq::<Entity>::empty());
    assert(two.drop_last() =~= one);
    assert(forgotten(after, Seq::<Entity>::empty()) == after);
    assert(gone_ids(after, Seq::<Entity>::empty()) =~= Seq::<ExternalId>::empty());
    assert(forgotten(after, one) == after.remove(row.edge));
    assert(gone_ids(after, one) =~= seq![id]);
    assert(gone_ids(after, two) =~= seq![id]);
}

/// New nodes are told in order, each under its identity and with its position;
/// those without an identity are passed over.
pub proof fn new_nodes_are_told<V, P>(nodes: Seq<(Entity, P)>, next: (Entity, P), ids: Map<Entity, ExternalId>)
    ensures
        appeared::<V, P>(Seq::empty(), ids).len() == 0,
        ids.dom().contains(next.0) ==> appeared::<V, P>(nodes.push(next), ids) == appeared::<V, P>(
            nodes,
            ids,
        ).push(
            AppEventView::Graph(
                GraphMessageExt::NodeAppeared { id: ids[next.0], position: next.1 },
            ),
        ),
        !ids.dom().contains(next.0) ==> appeared::<V, P>(nodes.push(next), ids) == appeared::<V, P>(
            nodes,
            ids,
        ),
{
    assert(nodes.push(next).drop_last() =~= nodes);
}

/// Moved nodes are told in order, each under its identity and with its new
/// position; those without an identity are passed over.
pub proof fn moved_nodes_are_told<V, P>(nodes: Seq<(Entity, P)>, next: (Entity, P), ids: Map<Entity, ExternalId>)
    ensures
        moves_told::<V, P>(Seq::empty(), ids).len() == 0,
        ids.dom().contains(next.0) ==> moves_told::<V, P>(nodes.push(next), ids) == moves_told::<
            V,
            P,
        >(nodes, ids).push(
            AppEventView::Graph(GraphMessageExt::NodeMoved { id: ids[next.0], position: next.1 }),
        ),
        !ids.dom().contains(next.0) ==> moves_told::<V, P>(nodes.push(next), ids) == moves_told::<
            V,
            P,
        >(nodes, ids),
{
    assert(nodes.push(next).drop_last() =~= nodes);
}

/// New edges are told in order, each under its identity and with the identities
/// of the nodes that it leads from and to; those that lack one of the three are
/// passed over.
pub proof fn new_edges_are_told<V, P>(edges: Seq<EdgeRow>, next: EdgeRow, index: EntityCrdtIndex)
    ensures
        edges_appeared::<V, P>(Seq::empty(), index).len() == 0,
        ({
            let known = index.edge_of_entity@.dom().contains(next.edge)
                && index.node_of_entity@.dom().contains(next.from)
                && index.node_of_entity@.dom().contains(next.to);
            &&& known ==> edges_appeared::<V, P>(edges.push(next), index) == edges_appeared::<V, P>(
                edges,
                index,
            ).push(
                AppEventView::Graph(
                    GraphMessageExt::EdgeAppeared {
                        id: index.edge_of_entity@[next.edge],
                        from: index.node_of_entity@[next.from],
                        to: index.node_of_entity@[next.to],
                    },
                ),
            )
            &&& !known ==> edges_appeared::<V, P>(edges.push(next), index) == edges_appeared::<V, P>(
                edges,
                index,
            )
        }),
{
    assert(edges.push(next).drop_last() =~= edges);
}

/// The cache remembers of each new node and edge that was told of the identity
/// it was told under, and keeps all else.
pub proof fn told_identities_are_kept<P>(
    cache: Map<Entity, ExternalId>,
    nodes: Seq<(Entity, P)>,
    ids: Map<Entity, ExternalId>,
    x: Entity,
)
    ensures
        ({
            let after = cached(cache, nodes, ids);
            let told = ids.dom().contains(x) && exists|i: int|
                0 <= i < nodes.len() && (#[trigger] nodes[i]).0 == x;
            &&& after.dom().contains(x) <==> cache.dom().contains(x) || told
            &&& told ==> after[x] == ids[x]
            &&& !told && cache.dom().contains(x) ==> after[x] == cache[x]
        }),
    decreases nodes.len(),
{
    if nodes.len() > 0 {
        let init = nodes.drop_last();
        told_identities_are_kept(cache, init, ids, x);
        assert(nodes[nodes.len() - 1].0 == nodes.last().0);
        if exists|i: int| 0 <= i < nodes.len() && (#[trigger] nodes[i]).0 == x {
            let i = choose|i: int| 0 <= i < nodes.len() && (#[trigger] nodes[i]).0 == x;
            if i < init.len() {
                assert(init[i] == nodes[i]);
            }
        }
        if exists|i: int| 0 <= i < init.len() && (#[trigger] init[i]).0 == x {
            let i = choose|i: int| 0 <= i < init.len() && (#[trigger] init[i]).0 == x;
            assert(nodes[i] == init[i]);
        }
    }
}

/// What went is forgotten, and nothing else is.
pub proof fn gone_is_forgotten(cache: Map<Entity, ExternalId>, removed: Seq<Entity>, x: Entity)
    ensures
        forgotten(cache, removed).dom().contains(x) <==> cache.dom().contains(x)
            && !removed.contains(x),
        forgotten(cache, removed).dom().contains(x) ==> forgotten(cache, removed)[x] == cache[x],
    decreases removed.len(),
{
    if removed.len() > 0 {
        let init = removed.drop_last();
        gone_is_forgotten(cache, init, x);
        assert(removed =~= init.push(removed.last()));
        crate::seqs::lemma_push_contains(init, removed.last(), x);
    }
}

/// What went is told in order, each entity once and under the identity that the
/// cache has for it; what the cache does not know is passed over.
pub proof fn gone_is_told_once(cache: Map<Entity, ExternalId>, removed: Seq<Entity>, next: Entity)
    ensures
        gone_ids(cache, Seq::empty()).len() == 0,
        cache.dom().contains(next) && !removed.contains(next) ==> gone_ids(
            cache,
            removed.push(next),
        ) == gone_ids(cache, removed).push(cache[next]),
        !cache.dom().contains(next) || removed.contains(next) ==> gone_ids(
            cache,
            removed.push(next),
        ) == gone_ids(cache, removed),
{
    assert(removed.push(next).drop_last() =~= removed);
    gone_is_forgotten(cache, removed, next);
}

/// A node that went is told as a node, an edge as an edge.
pub proof fn goings_are_told_as_what_they_were<V, P>(ids: Seq<ExternalId>, i: int)
    ensures
        nodes_gone::<V, P>(ids).len() == ids.len(),
        edges_gone::<V, P>(ids).len() == ids.len(),
        0 <= i < ids.len() ==> nodes_gone::<V, P>(ids)[i] == AppEventView::<V, P>::Graph(
            GraphMessageExt::NodeRemoved { id: ids[i] },
        ),
        0 <= i < ids.len() ==> (edges_gone::<V, P>(ids)[i] matches AppEventView::Graph(
            GraphMessageExt::EdgeRemoved { id, from, to },
        ) && id == ids[i]),
{
}

} // verus!
