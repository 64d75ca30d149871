//! Commands on the replicated topology: what they do to the world, or why they
//! cannot be carried out.
use vstd::prelude::*;

use crate::agent::scene::Entity;
use crate::agent::world::lookup;
use crate::agent::world::EntityCrdtIndex;
use crate::editor::msg::about_id;
use crate::editor::msg::app_views;
use crate::editor::msg::id_text;
use crate::editor::msg::push_id;
use crate::editor::msg::tell_error;
use crate::editor::msg::AppEvent;
use crate::editor::msg::AppEventView;
use crate::editor::msg::ExternalId;
use crate::seqs::lemma_filter_contains;
use crate::seqs::lemma_filter_step;
use crate::text::decimal;
use crate::text::push_all;

verus! {

/// An edge and its two ends.
#[derive(Clone, Copy, Debug, PartialEq, Eq, Structural)]
pub struct EdgeRow {
    pub edge: Entity,
    pub from: Entity,
    pub to: Entity,
}

/// Something to be done to the world. `S` is what an editor can spawn, `K` its
/// kinds of edges.
#[derive(Debug, PartialEq, Eq, Structural)]
pub enum Effect<S, K> {
    Spawn(S),
    SpawnEdge { from: Entity, to: Entity, kind: K },
    Despawn { entity: Entity },
}

/// What comes of a command: effects, or the text of an error.
pub type Outcome<S, K> = Result<Vec<Effect<S, K>>, String>;

pub open spec fn outcome_view<S, K>(r: Outcome<S, K>) -> Result<Seq<Effect<S, K>>, Seq<char>> {
    match r {
        Ok(effects) => Ok(effects@),
        Err(text) => Err(text@),
    }
}

/// Adding an edge between two nodes: both must be known.
pub open spec fn connect_outcome<S, K>(
    index: EntityCrdtIndex,
    from: ExternalId,
    to: ExternalId,
    kind: K,
) -> Result<Seq<Effect<S, K>>, Seq<char>> {
    match (lookup(index.entity_of_node@, from), lookup(index.entity_of_node@, to)) {
        (None, _) => Err("Graph::Connect: unknown from-id "@ + id_text(from)),
        (_, None) => Err("Graph::Connect: unknown to-id "@ + id_text(to)),
        (Some(a), Some(b)) => Ok(seq![Effect::SpawnEdge { from: a, to: b, kind }]),
    }
}

pub fn dispatch_connect<S, K>(
    index: &EntityCrdtIndex,
    from: ExternalId,
    to: ExternalId,
    kind: K,
) -> (r: Outcome<S, K>)
    requires
        index.wf(),
    ensures
        outcome_view(r) == connect_outcome::<S, K>(*index, from, to, kind),
{
    match index.entity_of_node.get(from) {
        None => Err(about_id("Graph::Connect: unknown from-id ", from)),
        Some(a) => match index.entity_of_node.get(to) {
            None => Err(about_id("Graph::Connect: unknown to-id ", to)),
            Some(b) => {
                let mut effects: Vec<Effect<S, K>> = Vec::new();
                effects.push(Effect::SpawnEdge { from: *a, to: *b, kind });
                assert(effects@ =~= seq![Effect::SpawnEdge { from: *a, to: *b, kind }]);
                Ok(effects)
            },
        },
    }
}

/// The first edge that leads from the one entity to the other.
pub open spec fn edge_between(edges: Seq<EdgeRow>, from: Entity, to: Entity) -> Option<Entity>
    decreases edges.len(),
{
    if edges.len() == 0 {
        None
    } else if edges[0].from == from && edges[0].to == to {
        Some(edges[0].edge)
    } else {
        edge_between(edges.skip(1), from, to)
    }
}

fn first_edge(edges: &Vec<EdgeRow>, from: Entity, to: Entity) -> (r: Option<Entity>)
    ensures
        r == edge_between(edges@, from, to),
{
    let mut i: usize = 0;
    assert(edges@.skip(0) =~= edges@);
    while i < edges.len()
        invariant
            i <= edges@.len(),
            edge_between(edges@, from, to) == edge_between(edges@.skip(i as int), from, to),
        decreases edges@.len() - i,
    {
        if edges[i].from == from && edges[i].to == to {
            return Some(edges[i].edge);
        }
        assert(edges@.skip(i as int).skip(1) =~= edges@.skip(i + 1));
        i = i + 1;
    }
    None
}

/// Removing the edge between two nodes, whatever its kind: both nodes must be
/// known, and there must be one.
pub open spec fn disconnect_outcome<S, K>(
    index: EntityCrdtIndex,
    edges: Seq<EdgeRow>,
    from: ExternalId,
    to: ExternalId,
) -> Result<Seq<Effect<S, K>>, Seq<char>> {
    match (lookup(index.entity_of_node@, from), lookup(index.entity_of_node@, to)) {
        (None, _) => Err("Graph::Disconnect: unknown from-id "@ + id_text(from)),
        (_, None) => Err("Graph::Disconnect: unknown to-id "@ + id_text(to)),
        (Some(a), Some(b)) => match edge_between(edges, a, b) {
            Some(entity) => Ok(seq![Effect::Despawn { entity }]),
            None => Err(
                "Graph::Disconnect: no edge "@ + id_text(from) + " -> "@ + id_text(to),
            ),
        },
    }
}

pub fn dispatch_disconnect<S, K>(
    index: &EntityCrdtIndex,
    edges: &Vec<EdgeRow>,
    from: ExternalId,
    to: ExternalId,
) -> (r: Outcome<S, K>)
    requires
        index.wf(),
    ensures
        outcome_view(r) == disconnect_outcome::<S, K>(*index, edges@, from, to),
{
    match index.entity_of_node.get(from) {
        None => Err(about_id("Graph::Disconnect: unknown from-id ", from)),
        Some(a) => match index.entity_of_node.get(to) {
            None => Err(about_id("Graph::Disconnect: unknown to-id ", to)),
            Some(b) => match first_edge(edges, *a, *b) {
                Some(entity) => {
                    let mut effects: Vec<Effect<S, K>> = Vec::new();
                    effects.push(Effect::Despawn { entity });
                    assert(effects@ =~= seq![Effect::Despawn { entity }]);
                    Ok(effects)
                },
                None => {
                    let mut text = about_id("Graph::Disconnect: no edge ", from);
                    push_all(&mut text, " -> ");
                    push_id(&mut text, to);
                    Err(text)
                },
            },
        },
    }
}

/// Whether an edge has an end at `entity`.
pub open spec fn ends_at(entity: Entity) -> spec_fn(EdgeRow) -> bool {
    |e: EdgeRow| e.from == entity || e.to == entity
}

pub open spec fn despawns<S, K>(edges: Seq<EdgeRow>) -> Seq<Effect<S, K>> {
    edges.map_values(|e: EdgeRow| Effect::Despawn { entity: e.edge })
}

/// Removing a node: the edges that end at it go first, the node itself last.
pub open spec fn remove_node_outcome<S, K>(
    index: EntityCrdtIndex,
    edges: Seq<EdgeRow>,
    id: ExternalId,
) -> Result<Seq<Effect<S, K>>, Seq<char>> {
    match lookup(index.entity_of_node@, id) {
        Some(entity) => Ok(
            despawns::<S, K>(edges.filter(ends_at(entity))).push(Effect::Despawn { entity }),
        ),
        None => Err("Graph::RemoveNode: unknown id "@ + id_text(id)),
    }
}

pub fn dispatch_remove_node<S, K>(
    index: &EntityCrdtIndex,
    edges: &Vec<EdgeRow>,
    id: ExternalId,
) -> (r: Outcome<S, K>)
    requires
        index.wf(),
    ensures
        outcome_view(r) == remove_node_outcome::<S, K>(*index, edges@, id),
{
    match index.entity_of_node.get(id) {
        None => Err(about_id("Graph::RemoveNode: unknown id ", id)),
        Some(node) => {
            let entity: Entity = *node;
            let mut effects: Vec<Effect<S, K>> = Vec::new();
            let mut i: usize = 0;
            proof {
                reveal(Seq::filter);
                assert(effects@ =~= despawns::<S, K>(edges@.take(0).filter(ends_at(entity))));
            }
            while i < edges.len()
                invariant
                    i <= edges@.len(),
                    effects@ == despawns::<S, K>(edges@.take(i as int).filter(ends_at(entity))),
                decreases edges@.len() - i,
            {
                proof {
                    lemma_filter_step(edges@, i as int, ends_at(entity));
                }
                if edges[i].from == entity || edges[i].to == entity {
                    effects.push(Effect::Despawn { entity: edges[i].edge });
                }
                i = i + 1;
                assert(effects@ =~= despawns::<S, K>(
                    edges@.take(i as int).filter(ends_at(entity)),
                ));
            }
            assert(edges@.take(i as int) =~= edges@);
            effects.push(Effect::Despawn { entity });
            Ok(effects)
        },
    }
}

/// Removing one edge.
pub open spec fn remove_edge_outcome<S, K>(index: EntityCrdtIndex, id: ExternalId) -> Result<
    Seq<Effect<S, K>>,
    Seq<char>,
> {
    match lookup(index.entity_of_edge@, id) {
        Some(entity) => Ok(seq![Effect::Despawn { entity }]),
        None => Err("Graph::RemoveEdge: unknown id "@ + id_text(id)),
    }
}

pub fn dispatch_remove_edge<S, K>(index: &EntityCrdtIndex, id: ExternalId) -> (r: Outcome<S, K>)
    requires
        index.wf(),
    ensures
        outcome_view(r) == remove_edge_outcome::<S, K>(*index, id),
{
    match index.entity_of_edge.get(id) {
        Some(edge) => {
            let mut effects: Vec<Effect<S, K>> = Vec::new();
            effects.push(Effect::Despawn { entity: *edge });
            assert(effects@ =~= seq![Effect::Despawn { entity: *edge }]);
            Ok(effects)
        },
        None => Err(about_id("Graph::RemoveEdge: unknown id ", id)),
    }
}

/// The effects so far, once a command came out as `outcome`.
pub open spec fn effects_after<S, K>(
    effects: Seq<Effect<S, K>>,
    outcome: Result<Seq<Effect<S, K>>, Seq<char>>,
) -> Seq<Effect<S, K>> {
    match outcome {
        Ok(more) => effects + more,
        Err(_) => effects,
    }
}

/// The events so far, once a command came out as `outcome`: an error is told.
pub open spec fn events_after<S, K, V, P>(
    events: Seq<AppEventView<V, P>>,
    outcome: Result<Seq<Effect<S, K>>, Seq<char>>,
) -> Seq<AppEventView<V, P>> {
    match outcome {
        Ok(_) => events,
        Err(message) => events.push(AppEventView::CommandError { message }),
    }
}

/// Takes in what came of a command.
pub fn settle<S, K, T: View, P>(
    outcome: Outcome<S, K>,
    effects: &mut Vec<Effect<S, K>>,
    events: &mut Vec<AppEvent<T, P>>,
)
    ensures
        final(effects)@ == effects_after(old(effects)@, outcome_view(outcome)),
        app_views(final(events)@) == events_after(
            app_views(old(events)@),
            outcome_view(outcome),
        ),
{
    match outcome {
        Ok(more) => {
            let mut more = more;
            effects.append(&mut more);
        },
        Err(message) => {
            tell_error(events, message);
        },
    }
}

/// Connecting two known nodes and then disconnecting them, once the edge is in
/// the world, takes exactly that edge out again, if there was none before.
pub proof fn disconnect_undoes_connect<S, K>(
    index: EntityCrdtIndex,
    edges: Seq<EdgeRow>,
    edge: Entity,
    from: ExternalId,
    to: ExternalId,
    kind: K,
)
    requires
        index.entity_of_node@.dom().contains(from),
        index.entity_of_node@.dom().contains(to),
        edge_between(edges, index.entity_of_node@[from], index.entity_of_node@[to]) is None,
    ensures
        ({
            let a = index.entity_of_node@[from];
            let b = index.entity_of_node@[to];
            &&& connect_outcome::<S, K>(index, from, to, kind) == Ok::<
                Seq<Effect<S, K>>,
                Seq<char>,
            >(
                seq![Effect::SpawnEdge { from: a, to: b, kind }],
            )
            &&& disconnect_outcome::<S, K>(
                index,
                edges.push(EdgeRow { edge, from: a, to: b }),
                from,
                to,
            ) == Ok::<Seq<Effect<S, K>>, Seq<char>>(seq![Effect::Despawn { entity: edge }])
        }),
{
    let a = index.entity_of_node@[from];
    let b = index.entity_of_node@[to];
    lemma_edge_pushed(edges, EdgeRow { edge, from: a, to: b });
}

proof fn lemma_edge_pushed(edges: Seq<EdgeRow>, row: EdgeRow)
    requires
        edge_between(edges, row.from, row.to) is None,
    ensures
        edge_between(edges.push(row), row.from, row.to) == Some(row.edge),
    decreases edges.len(),
{
    if edges.len() > 0 {
        lemma_edge_pushed(edges.skip(1), row);
        assert(edges.push(row).skip(1) =~= edges.skip(1).push(row));
    }
}

/// Removing a node leaves no edge with an end at it: every such edge is
/// despawned, and the node too.
pub proof fn removed_node_leaves_no_edge<S, K>(
    index: EntityCrdtIndex,
    edges: Seq<EdgeRow>,
    id: ExternalId,
    row: EdgeRow,
)
    requires
        index.entity_of_node@.dom().contains(id),
        edges.contains(row),
        row.from == index.entity_of_node@[id] || row.to == index.entity_of_node@[id],
    ensures
        ({
            let effects = remove_node_outcome::<S, K>(index, edges, id)->Ok_0;
            &&& remove_node_outcome::<S, K>(index, edges, id) is Ok
            &&& effects.contains(Effect::Despawn { entity: row.edge })
            &&& effects.last() == Effect::<S, K>::Despawn { entity: index.entity_of_node@[id] }
        }),
{
    let entity = index.entity_of_node@[id];
    let kept = edges.filter(ends_at(entity));
    crate::seqs::lemma_filter_contains(edges, ends_at(entity), row);
    let i = choose|i: int| 0 <= i < kept.len() && kept[i] == row;
    let effects = remove_node_outcome::<S, K>(index, edges, id)->Ok_0;
    assert(effects[i] == Effect::<S, K>::Despawn { entity: row.edge });
}

/// Connecting two known nodes adds one edge from the first to the second, of the
/// kind given. An unknown first node is told before an unknown second one.
pub proof fn connect_adds_one_edge<S, K>(
    index: EntityCrdtIndex,
    from: ExternalId,
    to: ExternalId,
    kind: K,
)
    ensures
        ({
            let nodes = index.entity_of_node@;
            let r = connect_outcome::<S, K>(index, from, to, kind);
            &&& nodes.dom().contains(from) && nodes.dom().contains(to) ==> (r matches Ok(effects)
                && effects.len() == 1 && effects[0] == Effect::<S, K>::SpawnEdge {
                from: nodes[from],
                to: nodes[to],
                kind,
            })
            &&& !nodes.dom().contains(from) ==> r == Err::<Seq<Effect<S, K>>, Seq<char>>(
                "Graph::Connect: unknown from-id "@ + (decimal(from.peer as nat) + ":"@ + decimal(
                    from.counter as nat,
                )),
            )
            &&& nodes.dom().contains(from) && !nodes.dom().contains(to) ==> r == Err::<
                Seq<Effect<S, K>>,
                Seq<char>,
            >(
                "Graph::Connect: unknown to-id "@ + (decimal(to.peer as nat) + ":"@ + decimal(
                    to.counter as nat,
                )),
            )
        }),
{
}

proof fn lemma_edge_between(edges: Seq<EdgeRow>, from: Entity, to: Entity)
    ensures
        match edge_between(edges, from, to) {
            Some(e) => exists|i: int|
                0 <= i < edges.len() && (#[trigger] edges[i]).from == from && edges[i].to == to
                    && edges[i].edge == e && forall|j: int|
                    0 <= j < i ==> (#[trigger] edges[j]).from != from || edges[j].to != to,
            None => forall|j: int|
                0 <= j < edges.len() ==> (#[trigger] edges[j]).from != from || edges[j].to != to,
        },
    decreases edges.len(),
{
    if edges.len() > 0 {
        let rest = edges.skip(1);
        lemma_edge_between(rest, from, to);
        if edges[0].from == from && edges[0].to == to {
            assert(edges[0].edge == edge_between(edges, from, to)->0);
        } else {
            match edge_between(rest, from, to) {
                Some(e) => {
                    let i = choose|i: int|
                        0 <= i < rest.len() && (#[trigger] rest[i]).from == from && rest[i].to
                            == to && rest[i].edge == e && forall|j: int|
                            0 <= j < i ==> (#[trigger] rest[j]).from != from || rest[j].to != to;
                    assert(edges[i + 1] == rest[i]);
                    assert forall|j: int| 0 <= j < i + 1 implies (#[trigger] edges[j]).from != from
                        || edges[j].to != to by {
                        if j > 0 {
                            assert(rest[j - 1] == edges[j]);
                        }
                    }
                },
                None => {
                    assert forall|j: int| 0 <= j < edges.len() implies (#[trigger] edges[j]).from
                        != from || edges[j].to != to by {
                        if j > 0 {
                            assert(rest[j - 1] == edges[j]);
                        }
                    }
                },
            }
        }
    }
}

/// Disconnecting two known nodes takes out one edge: the first of those that
/// lead from the first node to the second, never one that leads the other way.
/// It fails where a node is unknown or there is no such edge.
pub proof fn disconnect_takes_the_first_edge<S, K>(
    index: EntityCrdtIndex,
    edges: Seq<EdgeRow>,
    from: ExternalId,
    to: ExternalId,
)
    ensures
        ({
            let nodes = index.entity_of_node@;
            let r = disconnect_outcome::<S, K>(index, edges, from, to);
            let known = nodes.dom().contains(from) && nodes.dom().contains(to);
            &&& r is Ok <==> known && exists|i: int|
                0 <= i < edges.len() && (#[trigger] edges[i]).from == nodes[from] && edges[i].to
                    == nodes[to]
            &&& r matches Ok(effects) ==> effects.len() == 1 && exists|i: int|
                0 <= i < edges.len() && (#[trigger] edges[i]).from == nodes[from] && edges[i].to
                    == nodes[to] && effects[0] == (Effect::<S, K>::Despawn {
                    entity: edges[i].edge,
                }) && forall|j: int|
                    0 <= j < i ==> (#[trigger] edges[j]).from != nodes[from] || edges[j].to
                        != nodes[to]
            &&& !nodes.dom().contains(from) ==> r == Err::<Seq<Effect<S, K>>, Seq<char>>(
                "Graph::Disconnect: unknown from-id "@ + (decimal(from.peer as nat) + ":"@
                    + decimal(from.counter as nat)),
            )
            &&& nodes.dom().contains(from) && !nodes.dom().contains(to) ==> r == Err::<
                Seq<Effect<S, K>>,
                Seq<char>,
            >(
                "Graph::Disconnect: unknown to-id "@ + (decimal(to.peer as nat) + ":"@ + decimal(
                    to.counter as nat,
                )),
            )
            &&& known && r is Err ==> r->Err_0 == "Graph::Disconnect: no edge "@ + (decimal(
                from.peer as nat,
            ) + ":"@ + decimal(from.counter as nat)) + " -> "@ + (decimal(to.peer as nat) + ":"@
                + decimal(to.counter as nat))
        }),
{
    let nodes = index.entity_of_node@;
    if nodes.dom().contains(from) && nodes.dom().contains(to) {
        lemma_edge_between(edges, nodes[from], nodes[to]);
    }
}

/// Removing a known node takes out the node and the edges that end at it, and
/// nothing else; removing an unknown one fails.
pub proof fn removal_takes_nothing_else<S, K>(
    index: EntityCrdtIndex,
    edges: Seq<EdgeRow>,
    id: ExternalId,
    k: int,
)
    ensures
        ({
            let nodes = index.entity_of_node@;
            let r = remove_node_outcome::<S, K>(index, edges, id);
            &&& r is Ok <==> nodes.dom().contains(id)
            &&& r is Ok && 0 <= k < r->Ok_0.len() ==> (r->Ok_0[k] matches Effect::Despawn {
                entity,
            } && (if k == r->Ok_0.len() - 1 {
                entity == nodes[id]
            } else {
                exists|i: int|
                    0 <= i < edges.len() && (#[trigger] edges[i]).edge == entity && (edges[i].from
                        == nodes[id] || edges[i].to == nodes[id])
            }))
            &&& r is Err ==> r->Err_0 == "Graph::RemoveNode: unknown id "@ + (decimal(
                id.peer as nat,
            ) + ":"@ + decimal(id.counter as nat))
        }),
{
    let nodes = index.entity_of_node@;
    if nodes.dom().contains(id) {
        let kept = edges.filter(ends_at(nodes[id]));
        if 0 <= k < kept.len() {
            assert(kept.contains(kept[k]));
            lemma_filter_contains(edges, ends_at(nodes[id]), kept[k]);
            let i = choose|i: int| 0 <= i < edges.len() && edges[i] == kept[k];
            assert(edges[i].edge == kept[k].edge);
        }
    }
}

/// Removing a known edge takes out that edge alone; removing an unknown one
/// fails.
pub proof fn edge_removal_takes_one<S, K>(index: EntityCrdtIndex, id: ExternalId)
    ensures
        ({
            let r = remove_edge_outcome::<S, K>(index, id);
            &&& index.entity_of_edge@.dom().contains(id) ==> (r matches Ok(effects)
                && effects.len() == 1 && effects[0] == Effect::<S, K>::Despawn {
                entity: index.entity_of_edge@[id],
            })
            &&& !index.entity_of_edge@.dom().contains(id) ==> r == Err::<
                Seq<Effect<S, K>>,
                Seq<char>,
            >(
                "Graph::RemoveEdge: unknown id "@ + (decimal(id.peer as nat) + ":"@ + decimal(
                    id.counter as nat,
                )),
            )
        }),
{
}

/// What comes of a command goes behind what came of those before it: its effects
/// to the effects, or its error to the events, and never both.
pub proof fn outcomes_settle_in_order<S, K, V, P>(
    effects: Seq<Effect<S, K>>,
    events: Seq<AppEventView<V, P>>,
    outcome: Result<Seq<Effect<S, K>>, Seq<char>>,
)
    ensures
        effects.is_prefix_of(effects_after(effects, outcome)),
        outcome matches Ok(more) ==> {
            &&& effects_after(effects, outcome).skip(effects.len() as int) == more
            &&& events_after(events, outcome) == events
        },
        outcome matches Err(text) ==> {
            &&& effects_after(effects, outcome) == effects
            &&& events_after(events, outcome) == events.push(
                AppEventView::CommandError { message: text },
            )
        },
{
    if let Ok(more) = outcome {
        assert((effects + more).skip(effects.len() as int) =~= more);
    }
}

} // verus!
