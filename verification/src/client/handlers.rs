//! The commands of the design editor, fanned out, and the events of its tools,
//! gathered.
use vstd::prelude::*;

use crate::agent::world::EntityCrdtIndex;
use crate::client::create::FrameSpawn;
use crate::client::msg::AppCommand;
use crate::client::msg::AppEvent;
use crate::client::msg::AppEventView;
use crate::client::msg::GraphCommandExt;
use crate::client::tool::CreateCommand;
use crate::client::tool::CreateEvent;
use crate::client::tool::Tool;
use crate::client::tool::ToolCommand;
use crate::client::tool::ToolEvent;
use crate::client::tool::ToolEventView;
use crate::client::weave::WeaveEdgeKind;
use crate::editor::connect::ConnectCommand;
use crate::editor::connect::ConnectEvent;
use crate::editor::msg::app_views;
use crate::editor::msg::tell;
use crate::editor::msg::tell_error;
use crate::editor::select::select_views;
use crate::editor::select::SelectCommand;
use crate::editor::select::SelectEvent;
use crate::editor::select::SelectEventView;
use crate::editor::status::tool_changed;
use crate::editor::msg::ExternalId;
use crate::editor::msg::SyncCommand;
use crate::geometry::Pos2;
use crate::editor::topology::removed_node_leaves_no_edge;
use crate::editor::topology::removal_takes_nothing_else;
use crate::editor::topology::edge_removal_takes_one;
use crate::editor::topology::disconnect_takes_the_first_edge;
use crate::editor::topology::connect_adds_one_edge;
use crate::editor::topology::connect_outcome;
use crate::editor::topology::disconnect_outcome;
use crate::editor::topology::dispatch_connect;
use crate::editor::topology::dispatch_disconnect;
use crate::editor::topology::dispatch_remove_edge;
use crate::editor::topology::dispatch_remove_node;
use crate::editor::topology::effects_after;
use crate::editor::topology::events_after;
use crate::editor::topology::remove_edge_outcome;
use crate::editor::topology::remove_node_outcome;
use crate::editor::topology::settle;
use crate::editor::topology::EdgeRow;

verus! {

pub type Effect = crate::editor::topology::Effect<FrameSpawn, WeaveEdgeKind>;

/// What the commands act upon: the choices of the user, the streams of the
/// tools, what is to be done to the world, and what is to be told.
#[derive(Debug)]
pub struct Desk {
    /// The tool to switch to, where one was asked for.
    pub next_tool: Option<Tool>,
    pub connect_kind: WeaveEdgeKind,
    pub select: Vec<SelectCommand>,
    pub create: Vec<CreateCommand>,
    pub connect: Vec<ConnectCommand>,
    pub effects: Vec<Effect>,
    pub events: Vec<AppEvent>,
}

#[verifier::ext_equal]
pub struct DeskView {
    pub next_tool: Option<Tool>,
    pub connect_kind: WeaveEdgeKind,
    pub select: Seq<SelectCommand>,
    pub create: Seq<CreateCommand>,
    pub connect: Seq<ConnectCommand>,
    pub effects: Seq<Effect>,
    pub events: Seq<AppEventView>,
}

impl View for Desk {
    type V = DeskView;

    open spec fn view(&self) -> DeskView {
        DeskView {
            next_tool: self.next_tool,
            connect_kind: self.connect_kind,
            select: self.select@,
            create: self.create@,
            connect: self.connect@,
            effects: self.effects@,
            events: app_views(self.events@),
        }
    }
}

impl Default for Desk {
    fn default() -> (r: Self)
        ensures
            r@.next_tool is None,
            r@.connect_kind == WeaveEdgeKind::Reference,
            r@.select.len() == 0,
            r@.create.len() == 0,
            r@.connect.len() == 0,
            r@.effects.len() == 0,
            r@.events.len() == 0,
    {
        Desk {
            next_tool: None,
            connect_kind: WeaveEdgeKind::default(),
            select: Vec::new(),
            create: Vec::new(),
            connect: Vec::new(),
            effects: Vec::new(),
            events: Vec::new(),
        }
    }
}

/// What came of a command on the graph, taken in.
pub open spec fn settled(desk: DeskView, outcome: Result<Seq<Effect>, Seq<char>>) -> DeskView {
    DeskView {
        effects: effects_after(desk.effects, outcome),
        events: events_after(desk.events, outcome),
        ..desk
    }
}

/// What one command does.
pub open spec fn dispatched(
    desk: DeskView,
    index: EntityCrdtIndex,
    edges: Seq<EdgeRow>,
    command: AppCommand,
) -> DeskView {
    match command {
        AppCommand::SetTool(tool) => DeskView { next_tool: Some(tool), ..desk },
        AppCommand::SetConnectKind(kind) => DeskView { connect_kind: kind, ..desk },
        AppCommand::Tool(ToolCommand::Select(c)) => DeskView {
            select: desk.select.push(c),
            ..desk
        },
        AppCommand::Tool(ToolCommand::Create(c)) => DeskView { create: desk.create.push(c), ..desk },
        AppCommand::Tool(ToolCommand::Connect(c)) => DeskView {
            connect: desk.connect.push(c),
            ..desk
        },
        AppCommand::Graph(GraphCommandExt::Connect { from, to, kind }) => settled(
            desk,
            connect_outcome(index, from, to, kind),
        ),
        AppCommand::Graph(GraphCommandExt::Disconnect { from, to }) => settled(
            desk,
            disconnect_outcome(index, edges, from, to),
        ),
        AppCommand::Graph(GraphCommandExt::RemoveNode { id }) => settled(
            desk,
            remove_node_outcome(index, edges, id),
        ),
        AppCommand::Graph(GraphCommandExt::RemoveEdge { id }) => settled(
            desk,
            remove_edge_outcome(index, id),
        ),
        AppCommand::Sync(_) => DeskView {
            events: desk.events.push(
                crate::editor::msg::AppEventView::CommandError {
                    message: "Sync control commands not yet wired in the transport"@,
                },
            ),
            ..desk
        },
    }
}

/// What several commands do, one after the other.
pub open spec fn dispatched_all(
    desk: DeskView,
    index: EntityCrdtIndex,
    edges: Seq<EdgeRow>,
    commands: Seq<AppCommand>,
) -> DeskView
    decreases commands.len(),
{
    if commands.len() == 0 {
        desk
    } else {
        dispatched(
            dispatched_all(desk, index, edges, commands.drop_last()),
            index,
            edges,
            commands.last(),
        )
    }
}

fn dispatch_graph(
    command: GraphCommandExt,
    index: &EntityCrdtIndex,
    edges: &Vec<EdgeRow>,
    desk: &mut Desk,
)
    requires
        index.wf(),
    ensures
        final(desk)@ == dispatched(old(desk)@, *index, edges@, AppCommand::Graph(command)),
{
    match command {
        GraphCommandExt::Connect { from, to, kind } => {
            settle(
                dispatch_connect(index, from, to, kind),
                &mut desk.effects,
                &mut desk.events,
            );
        },
        GraphCommandExt::Disconnect { from, to } => {
            settle(
                dispatch_disconnect(index, edges, from, to),
                &mut desk.effects,
                &mut desk.events,
            );
        },
        GraphCommandExt::RemoveNode { id } => {
            settle(
                dispatch_remove_node(index, edges, id),
                &mut desk.effects,
                &mut desk.events,
            );
        },
        GraphCommandExt::RemoveEdge { id } => {
            settle(dispatch_remove_edge(index, id), &mut desk.effects, &mut desk.events);
        },
    }
}

fn dispatch_one(
    command: AppCommand,
    index: &EntityCrdtIndex,
    edges: &Vec<EdgeRow>,
    desk: &mut Desk,
)
    requires
        index.wf(),
    ensures
        final(desk)@ == dispatched(old(desk)@, *index, edges@, command),
{
    match command {
        AppCommand::SetTool(tool) => {
            desk.next_tool = Some(tool);
        },
        AppCommand::SetConnectKind(kind) => {
            desk.connect_kind = kind;
        },
        AppCommand::Tool(ToolCommand::Select(c)) => {
            desk.select.push(c);
        },
        AppCommand::Tool(ToolCommand::Create(c)) => {
            desk.create.push(c);
        },
        AppCommand::Tool(ToolCommand::Connect(c)) => {
            desk.connect.push(c);
        },
        AppCommand::Graph(c) => {
            dispatch_graph(c, index, edges, desk);
        },
        AppCommand::Sync(_) => {
            tell_error(
                &mut desk.events,
                "Sync control commands not yet wired in the transport".to_owned(),
            );
        },
    }
}

/// Carries out the commands of one frame, in order. `edges` are the edges of
/// the world as the frame begins.
pub fn dispatch_app_commands(
    commands: Vec<AppCommand>,
    index: &EntityCrdtIndex,
    edges: &Vec<EdgeRow>,
    desk: &mut Desk,
)
    requires
        index.wf(),
    ensures
        final(desk)@ == dispatched_all(old(desk)@, *index, edges@, commands@),
{
    let mut queue = commands;
    let ghost mut done: int = 0;
    while queue.len() > 0
        invariant
            index.wf(),
            0 <= done <= commands@.len(),
            queue@ == commands@.skip(done),
            desk@ == dispatched_all(old(desk)@, *index, edges@, commands@.take(done)),
        decreases queue@.len(),
    {
        let command = queue.remove(0);
        dispatch_one(command, index, edges, desk);
        proof {
            assert(commands@.take(done + 1).drop_last() =~= commands@.take(done));
            assert(commands@.take(done + 1).last() == command);
            done = done + 1;
        }
    }
    assert(commands@.take(done) =~= commands@);
}

/// Tells of a change of tool.
pub fn emit_tool_changed(now: Tool, last: &mut Option<Tool>, events: &mut Vec<AppEvent>)
    ensures
        *final(last) == Some(now),
        app_views(final(events)@) == (if *old(last) == Some(now) {
            app_views(old(events)@)
        } else {
            app_views(old(events)@).push(
                crate::editor::msg::AppEventView::Tool(ToolEventView::Switched { tool: now }),
            )
        }),
{
    match tool_changed(now, last) {
        Some(tool) => {
            tell(events, crate::editor::msg::AppEvent::Tool(ToolEvent::Switched { tool }));
        },
        None => {},
    }
}

pub open spec fn select_told(events: Seq<SelectEventView>) -> Seq<AppEventView> {
    events.map_values(
        |e: SelectEventView| crate::editor::msg::AppEventView::Tool(ToolEventView::Select(e)),
    )
}

pub open spec fn create_told(events: Seq<CreateEvent>) -> Seq<AppEventView> {
    events.map_values(
        |e: CreateEvent| crate::editor::msg::AppEventView::Tool(ToolEventView::Create(e)),
    )
}

pub open spec fn connect_told(events: Seq<ConnectEvent>) -> Seq<AppEventView> {
    events.map_values(
        |e: ConnectEvent| crate::editor::msg::AppEventView::Tool(ToolEventView::Connect(e)),
    )
}

/// Passes the tools' own events on to the outside: those of the select tool
/// first, then those of the create tool, then those of the connect tool.
pub fn forward_tool_events(
    select: Vec<SelectEvent>,
    create: &Vec<CreateEvent>,
    connect: &Vec<ConnectEvent>,
    events: &mut Vec<AppEvent>,
)
    ensures
        app_views(final(events)@) == app_views(old(events)@) + select_told(select_views(select@))
            + create_told(create@) + connect_told(connect@),
{
    let ghost start = app_views(events@);
    let ghost chosen = select_views(select@);
    let mut queue = select;
    let ghost mut done: int = 0;
    assert(app_views(events@) =~= start + select_told(chosen.take(0)));
    while queue.len() > 0
        invariant
            0 <= done <= select@.len(),
            chosen == select_views(select@),
            queue@ == select@.skip(done),
            app_views(events@) == start + select_told(chosen.take(done)),
        decreases queue@.len(),
    {
        let event = queue.remove(0);
        tell(events, crate::editor::msg::AppEvent::Tool(ToolEvent::Select(event)));
        proof {
            done = done + 1;
            assert(app_views(events@) =~= start + select_told(chosen.take(done)));
        }
    }
    assert(chosen.take(done) =~= chosen);
    let ghost mid = app_views(events@);
    let mut i: usize = 0;
    assert(mid =~= mid + create_told(create@.take(0)));
    while i < create.len()
        invariant
            i <= create@.len(),
            app_views(events@) == mid + create_told(create@.take(i as int)),
        decreases create@.len() - i,
    {
        tell(events, crate::editor::msg::AppEvent::Tool(ToolEvent::Create(create[i])));
        i = i + 1;
        assert(app_views(events@) =~= mid + create_told(create@.take(i as int)));
    }
    assert(create@.take(i as int) =~= create@);
    let ghost late = app_views(events@);
    let mut k: usize = 0;
    assert(late =~= late + connect_told(connect@.take(0)));
    while k < connect.len()
        invariant
            k <= connect@.len(),
            app_views(events@) == late + connect_told(connect@.take(k as int)),
        decreases connect@.len() - k,
    {
        tell(events, crate::editor::msg::AppEvent::Tool(ToolEvent::Connect(connect[k])));
        k = k + 1;
        assert(app_views(events@) =~= late + connect_told(connect@.take(k as int)));
    }
    assert(connect@.take(k as int) =~= connect@);
}

/// Commands to the tools pass through unchanged, each into its own stream, and
/// nothing else happens.
pub proof fn tool_commands_pass_through(
    desk: DeskView,
    index: EntityCrdtIndex,
    edges: Seq<EdgeRow>,
    command: ToolCommand,
)
    ensures
        ({
            let after = dispatched(desk, index, edges, AppCommand::Tool(command));
            &&& after == (DeskView {
                select: after.select,
                create: after.create,
                connect: after.connect,
                ..desk
            })
            &&& after.select == (match command {
                ToolCommand::Select(c) => desk.select.push(c),
                _ => desk.select,
            })
            &&& after.create == (match command {
                ToolCommand::Create(c) => desk.create.push(c),
                _ => desk.create,
            })
            &&& after.connect == (match command {
                ToolCommand::Connect(c) => desk.connect.push(c),
                _ => desk.connect,
            })
        }),
{
}

/// Choosing a tool and choosing a kind may come in either order.
pub proof fn choices_commute(
    desk: DeskView,
    index: EntityCrdtIndex,
    edges: Seq<EdgeRow>,
    tool: Tool,
    kind: WeaveEdgeKind,
)
    ensures
        dispatched(
            dispatched(desk, index, edges, AppCommand::SetTool(tool)),
            index,
            edges,
            AppCommand::SetConnectKind(kind),
        ) == dispatched(
            dispatched(desk, index, edges, AppCommand::SetConnectKind(kind)),
            index,
            edges,
            AppCommand::SetTool(tool),
        ),
{
}

/// Commands are carried out in the order in which they came: what some do and
/// then one more is what they do together, and none do nothing.
pub proof fn commands_run_in_order(
    desk: DeskView,
    index: EntityCrdtIndex,
    edges: Seq<EdgeRow>,
    commands: Seq<AppCommand>,
    last: AppCommand,
)
    ensures
        dispatched_all(desk, index, edges, Seq::<AppCommand>::empty()) == desk,
        dispatched_all(desk, index, edges, commands.push(last)) == dispatched(
            dispatched_all(desk, index, edges, commands),
            index,
            edges,
            last,
        ),
{
    assert(commands.push(last).drop_last() =~= commands);
}

/// Choosing a tool or a kind of relation changes that choice alone, to what was
/// chosen; control of the connection changes nothing but tells an error.
pub proof fn choices_change_themselves_alone(
    desk: DeskView,
    index: EntityCrdtIndex,
    edges: Seq<EdgeRow>,
    tool: Tool,
    kind: WeaveEdgeKind,
    sync: SyncCommand,
)
    ensures
        dispatched(desk, index, edges, AppCommand::SetTool(tool)) == (DeskView {
            next_tool: Some(tool),
            ..desk
        }),
        dispatched(desk, index, edges, AppCommand::SetConnectKind(kind)) == (DeskView {
            connect_kind: kind,
            ..desk
        }),
        ({
            let after = dispatched(desk, index, edges, AppCommand::Sync(sync));
            &&& after == (DeskView { events: after.events, ..desk })
            &&& after.events.len() == desk.events.len() + 1
            &&& after.events.last() is CommandError
        }),
{
}

/// Asking for an edge between two known nodes has one effect, the edge from the
/// one to the other with its kind, behind those before it, and tells nothing.
/// With an unknown node it has no effect and tells one error.
pub proof fn connect_command_spawns_the_edge(
    desk: DeskView,
    index: EntityCrdtIndex,
    edges: Seq<EdgeRow>,
    from: ExternalId,
    to: ExternalId,
    kind: WeaveEdgeKind,
)
    ensures
        ({
            let nodes = index.entity_of_node@;
            let after = dispatched(
                desk,
                index,
                edges,
                AppCommand::Graph(GraphCommandExt::Connect { from, to, kind }),
            );
            &&& nodes.dom().contains(from) && nodes.dom().contains(to) ==> after == (DeskView {
                effects: desk.effects.push(
                    Effect::SpawnEdge {
                        from: nodes[from],
                        to: nodes[to],
                        kind,
                    },
                ),
                ..desk
            })
            &&& !nodes.dom().contains(from) || !nodes.dom().contains(to) ==> {
                &&& after == (DeskView { events: after.events, ..desk })
                &&& after.events.len() == desk.events.len() + 1
                &&& after.events.drop_last() == desk.events
                &&& after.events.last() is CommandError
            }
        }),
{
    let nodes = index.entity_of_node@;
    let after = dispatched(
        desk,
        index,
        edges,
        AppCommand::Graph(GraphCommandExt::Connect { from, to, kind }),
    );
    connect_adds_one_edge::<FrameSpawn, WeaveEdgeKind>(index, from, to, kind);
    if nodes.dom().contains(from) && nodes.dom().contains(to) {
        assert(after.effects =~= desk.effects.push(
            Effect::SpawnEdge { from: nodes[from], to: nodes[to], kind },
        ));
    } else {
        assert(after.events.drop_last() =~= desk.events);
    }
}

/// Asking for the removal of a node despawns the edges that end at it and, last,
/// the node; of an edge, the edge; of the edge between two nodes, an edge that
/// leads from the one to the other. Nothing else on the desk changes but, where
/// it cannot be done, that one error is told.
pub proof fn removal_commands_despawn(
    desk: DeskView,
    index: EntityCrdtIndex,
    edges: Seq<EdgeRow>,
    id: ExternalId,
    to: ExternalId,
    row: EdgeRow,
)
    ensures
        ({
            let after = dispatched(
                desk,
                index,
                edges,
                AppCommand::Graph(GraphCommandExt::RemoveNode { id }),
            );
            let nodes = index.entity_of_node@;
            &&& after == (DeskView { effects: after.effects, events: after.events, ..desk })
            &&& nodes.dom().contains(id) ==> {
                &&& after.events == desk.events
                &&& desk.effects.is_prefix_of(after.effects)
                &&& after.effects.len() > desk.effects.len()
                &&& after.effects.last() == (Effect::Despawn {
                    entity: nodes[id],
                })
                &&& edges.contains(row) && (row.from == nodes[id] || row.to == nodes[id])
                    ==> after.effects.contains(
                    Effect::Despawn { entity: row.edge },
                )
            }
            &&& !nodes.dom().contains(id) ==> after.effects == desk.effects && after.events.len()
                == desk.events.len() + 1 && after.events.last() is CommandError
        }),
        ({
            let after = dispatched(
                desk,
                index,
                edges,
                AppCommand::Graph(GraphCommandExt::RemoveEdge { id }),
            );
            let known = index.entity_of_edge@;
            &&& after == (DeskView { effects: after.effects, events: after.events, ..desk })
            &&& known.dom().contains(id) ==> after.events == desk.events && after.effects
                == desk.effects.push(
                Effect::Despawn { entity: known[id] },
            )
            &&& !known.dom().contains(id) ==> after.effects == desk.effects && after.events.len()
                == desk.events.len() + 1 && after.events.last() is CommandError
        }),
        ({
            let after = dispatched(
                desk,
                index,
                edges,
                AppCommand::Graph(GraphCommandExt::Disconnect { from: id, to }),
            );
            let nodes = index.entity_of_node@;
            let there = nodes.dom().contains(id) && nodes.dom().contains(to) && exists|i: int|
                0 <= i < edges.len() && (#[trigger] edges[i]).from == nodes[id] && edges[i].to
                    == nodes[to];
            &&& after == (DeskView { effects: after.effects, events: after.events, ..desk })
            &&& there ==> after.events == desk.events && after.effects.len() == desk.effects.len()
                + 1 && exists|i: int|
                0 <= i < edges.len() && (#[trigger] edges[i]).from == nodes[id] && edges[i].to
                    == nodes[to] && after.effects.last() == (
                Effect::Despawn { entity: edges[i].edge })
            &&& !there ==> after.effects == desk.effects && after.events.len() == desk.events.len()
                + 1 && after.events.last() is CommandError
        }),
{
    let nodes = index.entity_of_node@;
    if nodes.dom().contains(id) {
        let r = remove_node_outcome::<FrameSpawn, WeaveEdgeKind>(index, edges, id)->Ok_0;
        removal_takes_nothing_else::<FrameSpawn, WeaveEdgeKind>(index, edges, id, r.len() - 1);
        if edges.contains(row) && (row.from == nodes[id] || row.to == nodes[id]) {
            removed_node_leaves_no_edge::<FrameSpawn, WeaveEdgeKind>(index, edges, id, row);
            let k = choose|k: int| 0 <= k < r.len() && r[k] == (Effect::Despawn {
                entity: row.edge,
            });
            assert((desk.effects + r)[desk.effects.len() + k] == r[k]);
        }
    }
    edge_removal_takes_one::<FrameSpawn, WeaveEdgeKind>(index, id);
    if index.entity_of_edge@.dom().contains(id) {
        let after = dispatched(
            desk,
            index,
            edges,
            AppCommand::Graph(GraphCommandExt::RemoveEdge { id }),
        );
        assert(after.effects =~= desk.effects.push(
            Effect::Despawn { entity: index.entity_of_edge@[id] },
        ));
    }
    disconnect_takes_the_first_edge::<FrameSpawn, WeaveEdgeKind>(index, edges, id, to);
}

/// The tools' own events are passed on unchanged and in order, each as an event
/// of its tool.
pub proof fn tool_events_pass_through(
    select: Seq<SelectEventView>,
    create: Seq<CreateEvent>,
    connect: Seq<ConnectEvent>,
    i: int,
)
    ensures
        select_told(select).len() == select.len(),
        create_told(create).len() == create.len(),
        connect_told(connect).len() == connect.len(),
        0 <= i < select.len() ==> select_told(select)[i]
            == crate::editor::msg::AppEventView::<ToolEventView, Pos2>::Tool(
            ToolEventView::Select(select[i]),
        ),
        0 <= i < create.len() ==> create_told(create)[i]
            == crate::editor::msg::AppEventView::<ToolEventView, Pos2>::Tool(
            ToolEventView::Create(create[i]),
        ),
        0 <= i < connect.len() ==> connect_told(connect)[i]
            == crate::editor::msg::AppEventView::<ToolEventView, Pos2>::Tool(
            ToolEventView::Connect(connect[i]),
        ),
{
}

} // verus!
