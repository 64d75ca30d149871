//! The connect tool: click one node, then another, to draw an edge.
use vstd::prelude::*;

use crate::agent::scene::Entity;
use crate::agent::world::lookup;
use crate::agent::world::EntityCrdtIndex;
use crate::editor::keys::went_down;
use crate::editor::keys::KeyCode;
use crate::editor::keys::Keys;
use crate::editor::msg::ExternalId;

verus! {

/// Commands to the connect tool.
#[derive(Clone, Copy, Debug, PartialEq, Eq, Structural)]
pub enum ConnectCommand {
    /// Give up the connection that is in progress.
    Cancel,
}

#[derive(Clone, Copy, Debug, PartialEq, Eq, Structural)]
pub enum ConnectEvent {
    /// The first node was clicked.
    Armed { from: ExternalId },
    /// The second node was clicked, and the edge was asked for.
    Completed { from: ExternalId, to: ExternalId },
    /// The connection was given up.
    Cancelled,
}

/// The node clicked first, while a connection is in progress.
#[derive(Debug)]
pub struct ConnectState {
    pub from: Option<Entity>,
}

impl Default for ConnectState {
    fn default() -> (r: Self)
        ensures
            r.from is None,
    {
        ConnectState { from: None }
    }
}

/// What a click on a node comes to.
#[derive(Clone, Copy, Debug, PartialEq, Eq, Structural)]
pub enum ClickOutcome {
    Ignored,
    Armed { from: ExternalId },
    Cancelled,
    /// The node clicked first has no identity yet.
    SourceUnknown,
    /// The node clicked second has no identity yet.
    TargetUnknown,
    Completed { from: ExternalId, to: ExternalId },
}

/// The node that is armed after a click on `target`, and what the click comes
/// to. A click on the armed node cancels; an unknown source is disarmed, an
/// unknown target leaves the source armed.
pub open spec fn click(
    armed: Option<Entity>,
    target: Entity,
    ids: Map<Entity, ExternalId>,
) -> (Option<Entity>, ClickOutcome) {
    match armed {
        Some(source) => if source == target {
            (None, ClickOutcome::Cancelled)
        } else {
            match (lookup(ids, source), lookup(ids, target)) {
                (None, _) => (None, ClickOutcome::SourceUnknown),
                (_, None) => (armed, ClickOutcome::TargetUnknown),
                (Some(from), Some(to)) => (None, ClickOutcome::Completed { from, to }),
            }
        },
        None => match lookup(ids, target) {
            Some(from) => (Some(target), ClickOutcome::Armed { from }),
            None => (None, ClickOutcome::Ignored),
        },
    }
}

/// An entity was clicked. The click counts where the connect tool is active
/// and the entity is a node.
pub fn node_clicked(
    on_tool: bool,
    is_node: bool,
    target: Entity,
    index: &EntityCrdtIndex,
    connect: &mut ConnectState,
) -> (r: ClickOutcome)
    ensures
        on_tool && is_node ==> (final(connect).from, r) == click(
            old(connect).from,
            target,
            index.node_of_entity@,
        ),
        !(on_tool && is_node) ==> final(connect).from == old(connect).from && r
            == ClickOutcome::Ignored,
{
    if !on_tool || !is_node {
        return ClickOutcome::Ignored;
    }
    match connect.from {
        Some(source) => {
            if source == target {
                connect.from = None;
                return ClickOutcome::Cancelled;
            }
            match index.node_of_entity.get(&source) {
                None => {
                    connect.from = None;
                    ClickOutcome::SourceUnknown
                },
                Some(from) => match index.node_of_entity.get(&target) {
                    None => ClickOutcome::TargetUnknown,
                    Some(to) => {
                        connect.from = None;
                        ClickOutcome::Completed { from: *from, to: *to }
                    },
                },
            }
        },
        None => match index.node_of_entity.get(&target) {
            None => ClickOutcome::Ignored,
            Some(from) => {
                connect.from = Some(target);
                ClickOutcome::Armed { from: *from }
            },
        },
    }
}

/// The event that a click comes to, where it comes to one.
pub open spec fn click_event(outcome: ClickOutcome) -> Option<ConnectEvent> {
    match outcome {
        ClickOutcome::Armed { from } => Some(ConnectEvent::Armed { from }),
        ClickOutcome::Cancelled => Some(ConnectEvent::Cancelled),
        ClickOutcome::Completed { from, to } => Some(ConnectEvent::Completed { from, to }),
        _ => None,
    }
}

pub fn event_of_click(outcome: ClickOutcome) -> (r: Option<ConnectEvent>)
    ensures
        r == click_event(outcome),
{
    match outcome {
        ClickOutcome::Armed { from } => Some(ConnectEvent::Armed { from }),
        ClickOutcome::Cancelled => Some(ConnectEvent::Cancelled),
        ClickOutcome::Completed { from, to } => Some(ConnectEvent::Completed { from, to }),
        _ => None,
    }
}

/// Gives up the connection in progress, and tells so if there was one.
pub fn reset_connect_state(connect: &mut ConnectState, events: &mut Vec<ConnectEvent>)
    ensures
        final(connect).from is None,
        final(events)@ == (if old(connect).from is Some {
            old(events)@.push(ConnectEvent::Cancelled)
        } else {
            old(events)@
        }),
{
    if connect.from.is_some() {
        connect.from = None;
        events.push(ConnectEvent::Cancelled);
    }
}

/// Carries out the commands, where the connect tool is active. However many
/// there are, a connection in progress is given up once.
pub fn handle_connect_commands(
    on_tool: bool,
    commands: &Vec<ConnectCommand>,
    connect: &mut ConnectState,
    events: &mut Vec<ConnectEvent>,
)
    ensures
        !on_tool || commands@.len() == 0 ==> final(connect).from == old(connect).from,
        on_tool && commands@.len() > 0 ==> final(connect).from is None,
        final(events)@ == (if on_tool && commands@.len() > 0 && old(connect).from is Some {
            old(events)@.push(ConnectEvent::Cancelled)
        } else {
            old(events)@
        }),
{
    if !on_tool {
        return;
    }
    let mut i: usize = 0;
    while i < commands.len()
        invariant
            i <= commands@.len(),
            on_tool,
            i == 0 ==> connect.from == old(connect).from,
            i > 0 ==> connect.from is None,
            events@ == (if i > 0 && old(connect).from is Some {
                old(events)@.push(ConnectEvent::Cancelled)
            } else {
                old(events)@
            }),
        decreases commands@.len() - i,
    {
        match commands[i] {
            ConnectCommand::Cancel => {
                reset_connect_state(connect, events);
            },
        }
        i = i + 1;
    }
}

/// With the connect tool, escape gives up the connection in progress.
pub fn cancel_on_escape(
    on_tool: bool,
    keys: &Option<Keys>,
    connect: &mut ConnectState,
    events: &mut Vec<ConnectEvent>,
)
    ensures
        final(connect).from == (if on_tool && went_down(*keys, KeyCode::Escape) {
            None
        } else {
            old(connect).from
        }),
        final(events)@ == (if on_tool && went_down(*keys, KeyCode::Escape) && old(
            connect,
        ).from is Some {
            old(events)@.push(ConnectEvent::Cancelled)
        } else {
            old(events)@
        }),
{
    match keys {
        Some(k) => {
            if on_tool && k.just_pressed(KeyCode::Escape) {
                reset_connect_state(connect, events);
            }
        },
        None => {},
    }
}

/// Two clicks on different known nodes draw one edge from the first to the
/// second, and leave the tool ready for the next pair.
pub proof fn click_pair_connects(first: Entity, second: Entity, ids: Map<Entity, ExternalId>)
    requires
        first != second,
        ids.dom().contains(first),
        ids.dom().contains(second),
    ensures
        ({
            let (armed, one) = click(None, first, ids);
            let (rest, two) = click(armed, second, ids);
            &&& one == (ClickOutcome::Armed { from: ids[first] })
            &&& two == (ClickOutcome::Completed { from: ids[first], to: ids[second] })
            &&& rest is None
        }),
{
}

/// Two clicks on the same known node draw nothing and leave the tool as it was.
pub proof fn same_node_twice_cancels(node: Entity, ids: Map<Entity, ExternalId>)
    requires
        ids.dom().contains(node),
    ensures
        ({
            let (armed, one) = click(None, node, ids);
            &&& one == (ClickOutcome::Armed { from: ids[node] })
            &&& click(armed, node, ids) == (None::<Entity>, ClickOutcome::Cancelled)
        }),
{
}

/// Whatever node is armed, the connection that a click completes leads from it
/// to the clicked node, and only a click on another node completes one. An armed
/// node without an identity is given up; a clicked one without leaves the armed
/// one armed.
pub proof fn connections_lead_from_first_to_second(
    armed: Option<Entity>,
    target: Entity,
    ids: Map<Entity, ExternalId>,
)
    ensures
        ({
            let (next, outcome) = click(armed, target, ids);
            &&& outcome matches ClickOutcome::Completed { from, to } ==> {
                &&& armed is Some && armed->0 != target
                &&& ids.dom().contains(armed->0) && ids[armed->0] == from
                &&& ids.dom().contains(target) && ids[target] == to
                &&& next is None
            }
            &&& outcome matches ClickOutcome::Armed { from } ==> armed is None && next == Some(
                target,
            ) && ids.dom().contains(target) && ids[target] == from
            &&& armed is None ==> (outcome is Armed <==> ids.dom().contains(target))
            &&& armed is None && !ids.dom().contains(target) ==> next is None && outcome
                == ClickOutcome::Ignored
            &&& armed is Some && armed->0 == target ==> next is None && outcome
                == ClickOutcome::Cancelled
            &&& armed is Some && armed->0 != target && !ids.dom().contains(armed->0) ==> next
                is None && outcome == ClickOutcome::SourceUnknown
            &&& armed is Some && armed->0 != target && ids.dom().contains(armed->0)
                && !ids.dom().contains(target) ==> next == armed && outcome
                == ClickOutcome::TargetUnknown
            &&& armed is Some && armed->0 != target && ids.dom().contains(armed->0)
                && ids.dom().contains(target) ==> outcome is Completed
        }),
{
}

/// A click is told where it arms, cancels or completes, as what it is; any other
/// is not told.
pub proof fn clicks_are_told(outcome: ClickOutcome, from: ExternalId, to: ExternalId)
    ensures
        click_event(outcome) == Some(ConnectEvent::Armed { from }) <==> outcome == (
        ClickOutcome::Armed { from }),
        click_event(outcome) == Some(ConnectEvent::Completed { from, to }) <==> outcome == (
        ClickOutcome::Completed { from, to }),
        click_event(outcome) == Some(ConnectEvent::Cancelled) <==> outcome
            == ClickOutcome::Cancelled,
        click_event(outcome) is None <==> outcome == ClickOutcome::Ignored || outcome
            == ClickOutcome::SourceUnknown || outcome == ClickOutcome::TargetUnknown,
{
}

} // verus!
