//! Drawing relations by dragging: from the handle of one frame to the handle of
//! another.
use vstd::prelude::*;

use crate::agent::scene::Entity;
use crate::agent::world::lookup;
use crate::agent::world::EntityCrdtIndex;
use crate::client::msg::AppCommand;
use crate::client::msg::AppEvent;
use crate::client::msg::GraphCommandExt;
use crate::client::tool::Tool;
use crate::client::weave::WeaveEdgeKind;
use crate::editor::connect::ConnectCommand;
use crate::editor::connect::ConnectEvent;
use crate::editor::connect::ConnectState;
use crate::editor::msg::app_views;
use crate::editor::msg::tell_error;
use crate::editor::msg::ExternalId;
use crate::seqs::lemma_filter_step;

verus! {

/// The frame from which a drag started, while one is in progress.
#[derive(Debug)]
pub struct ConnectDrag {
    pub source: Option<Entity>,
}

impl Default for ConnectDrag {
    fn default() -> (r: Self)
        ensures
            r.source is None,
    {
        ConnectDrag { source: None }
    }
}

/// The handle of a frame.
#[derive(Clone, Copy, Debug, PartialEq, Eq, Structural)]
pub struct ConnectionHandle {
    pub frame: Entity,
}

/// Whether a frame has a handle.
pub open spec fn handled(handles: Seq<ConnectionHandle>, frame: Entity) -> bool {
    handles.contains(ConnectionHandle { frame })
}

fn has_handle(handles: &Vec<ConnectionHandle>, frame: Entity) -> (r: bool)
    ensures
        r == handled(handles@, frame),
{
    let mut i: usize = 0;
    while i < handles.len()
        invariant
            i <= handles@.len(),
            forall|k: int| 0 <= k < i ==> handles@[k] != (ConnectionHandle { frame }),
        decreases handles@.len() - i,
    {
        if handles[i].frame == frame {
            assert(handles@[i as int] == ConnectionHandle { frame });
            return true;
        }
        i = i + 1;
    }
    false
}

pub open spec fn without_handle(handles: Seq<ConnectionHandle>) -> spec_fn(Entity) -> bool {
    |frame: Entity| !handled(handles, frame)
}

/// The frames that are to get a handle: those that have none. Asked of all
/// frames as the connect tool is entered, and of new ones while it is active.
pub fn spawn_handles(frames: &Vec<Entity>, handles: &Vec<ConnectionHandle>) -> (r: Vec<Entity>)
    ensures
        r@ == frames@.filter(without_handle(handles@)),
{
    let ghost bare = without_handle(handles@);
    let mut r: Vec<Entity> = Vec::new();
    let mut i: usize = 0;
    proof {
        reveal(Seq::filter);
        assert(r@ =~= frames@.take(0).filter(bare));
    }
    while i < frames.len()
        invariant
            i <= frames@.len(),
            bare == without_handle(handles@),
            r@ == frames@.take(i as int).filter(bare),
        decreases frames@.len() - i,
    {
        proof {
            lemma_filter_step(frames@, i as int, bare);
        }
        if !has_handle(handles, frames[i]) {
            r.push(frames[i]);
        }
        i = i + 1;
    }
    assert(frames@.take(i as int) =~= frames@);
    r
}

/// The connect tool was left: the drag in progress is dropped. All handles are
/// to go.
pub fn despawn_handles_on_exit(handles: Vec<Entity>, drag: &mut ConnectDrag) -> (r: Vec<Entity>)
    ensures
        r == handles,
        final(drag).source is None,
{
    drag.source = None;
    handles
}

/// A drag started: on a handle, with the connect tool, it arms the handle's
/// frame.
pub fn on_handle_drag_start(tool: Tool, handle: Option<ConnectionHandle>, drag: &mut ConnectDrag)
    ensures
        final(drag).source == (match handle {
            Some(h) if tool == Tool::Connect => Some(h.frame),
            _ => old(drag).source,
        }),
{
    if tool == Tool::Connect {
        if let Some(h) = handle {
            drag.source = Some(h.frame);
        }
    }
}

/// What a drop comes to.
#[derive(Clone, Copy, Debug, PartialEq, Eq, Structural)]
pub enum DropOutcome {
    /// The drop was not from handle to handle with the connect tool.
    Ignored,
    /// The drop was on the frame from which the drag started.
    Cancelled,
    SourceUnknown,
    TargetUnknown,
    Completed { from: ExternalId, to: ExternalId },
}

pub open spec fn dropped(
    tool: Tool,
    target: Option<ConnectionHandle>,
    source: Option<ConnectionHandle>,
    ids: Map<Entity, ExternalId>,
) -> DropOutcome {
    match (target, source) {
        (Some(t), Some(s)) if tool == Tool::Connect => if s.frame == t.frame {
            DropOutcome::Cancelled
        } else {
            match (lookup(ids, s.frame), lookup(ids, t.frame)) {
                (None, _) => DropOutcome::SourceUnknown,
                (_, None) => DropOutcome::TargetUnknown,
                (Some(from), Some(to)) => DropOutcome::Completed { from, to },
            }
        },
        _ => DropOutcome::Ignored,
    }
}

/// The text of the error that a drop comes to, where it comes to one.
pub open spec fn drop_error(outcome: DropOutcome) -> Option<Seq<char>> {
    match outcome {
        DropOutcome::SourceUnknown => Some("Connect-drag: source frame has no CrdtId yet"@),
        DropOutcome::TargetUnknown => Some("Connect-drag: target frame has no CrdtId yet"@),
        _ => None,
    }
}

/// A drag was dropped on an entity. From one frame's handle to another's it
/// asks for a relation of the chosen kind; from handle to handle it ends the
/// drag in any case.
pub fn on_handle_drag_drop(
    tool: Tool,
    target: Option<ConnectionHandle>,
    source: Option<ConnectionHandle>,
    kind: WeaveEdgeKind,
    index: &EntityCrdtIndex,
    drag: &mut ConnectDrag,
    commands: &mut Vec<AppCommand>,
    events: &mut Vec<AppEvent>,
    connect_events: &mut Vec<ConnectEvent>,
)
    ensures
        ({
            let outcome = dropped(tool, target, source, index.node_of_entity@);
            &&& final(drag).source == (if outcome is Ignored {
                old(drag).source
            } else {
                None
            })
            &&& final(commands)@ == (match outcome {
                DropOutcome::Completed { from, to } => old(commands)@.push(
                    AppCommand::Graph(GraphCommandExt::Connect { from, to, kind }),
                ),
                _ => old(commands)@,
            })
            &&& final(connect_events)@ == (match outcome {
                DropOutcome::Completed { from, to } => old(connect_events)@.push(
                    ConnectEvent::Completed { from, to },
                ),
                DropOutcome::Cancelled => old(connect_events)@.push(ConnectEvent::Cancelled),
                _ => old(connect_events)@,
            })
            &&& app_views(final(events)@) == (match drop_error(outcome) {
                Some(message) => app_views(old(events)@).push(
                    crate::editor::msg::AppEventView::CommandError { message },
                ),
                None => app_views(old(events)@),
            })
        }),
{
    if tool != Tool::Connect {
        return;
    }
    let (to_frame, from_frame): (Entity, Entity) = match (target, source) {
        (Some(t), Some(s)) => (t.frame, s.frame),
        _ => {
            return;
        },
    };
    drag.source = None;
    if from_frame == to_frame {
        connect_events.push(ConnectEvent::Cancelled);
        return;
    }
    match index.node_of_entity.get(&from_frame) {
        None => {
            tell_error(events, "Connect-drag: source frame has no CrdtId yet".to_owned());
        },
        Some(from) => match index.node_of_entity.get(&to_frame) {
            None => {
                tell_error(events, "Connect-drag: target frame has no CrdtId yet".to_owned());
            },
            Some(to) => {
                commands.push(
                    AppCommand::Graph(GraphCommandExt::Connect { from: *from, to: *to, kind }),
                );
                connect_events.push(ConnectEvent::Completed { from: *from, to: *to });
            },
        },
    }
}

/// A drag ended. Where it is still armed, nothing was drawn, and that is told.
pub fn on_drag_end(tool: Tool, drag: &mut ConnectDrag, connect_events: &mut Vec<ConnectEvent>)
    ensures
        final(drag).source == (if tool == Tool::Connect {
            None
        } else {
            old(drag).source
        }),
        final(connect_events)@ == (if tool == Tool::Connect && old(drag).source is Some {
            old(connect_events)@.push(ConnectEvent::Cancelled)
        } else {
            old(connect_events)@
        }),
{
    if tool == Tool::Connect {
        if drag.source.is_some() {
            drag.source = None;
            connect_events.push(ConnectEvent::Cancelled);
        }
    }
}

/// Carries out commands to the connect tool while it is active: a connection in
/// progress is given up once, whether it was begun by a click or by a drag.
pub fn handle_connect_commands(
    tool: Tool,
    commands: &Vec<ConnectCommand>,
    connect: &mut ConnectState,
    drag: &mut ConnectDrag,
    events: &mut Vec<ConnectEvent>,
)
    ensures
        tool != Tool::Connect || commands@.len() == 0 ==> final(connect).from == old(connect).from && final(drag).source
            == old(drag).source,
        tool == Tool::Connect && commands@.len() > 0 ==> final(connect).from is None && final(drag).source is None,
        final(events)@ == (if tool == Tool::Connect && commands@.len() > 0 && (old(connect).from is Some || old(
            drag,
        ).source is Some) {
            old(events)@.push(ConnectEvent::Cancelled)
        } else {
            old(events)@
        }),
{
    if tool != Tool::Connect {
        return;
    }
    let mut i: usize = 0;
    while i < commands.len()
        invariant
            i <= commands@.len(),
            tool == Tool::Connect,
            i == 0 ==> connect.from == old(connect).from && drag.source == old(drag).source,
            i > 0 ==> connect.from is None && drag.source is None,
            events@ == (if i > 0 && (old(connect).from is Some || old(drag).source is Some) {
                old(events)@.push(ConnectEvent::Cancelled)
            } else {
                old(events)@
            }),
        decreases commands@.len() - i,
    {
        match commands[i] {
            ConnectCommand::Cancel => {
                if connect.from.is_some() || drag.source.is_some() {
                    connect.from = None;
                    drag.source = None;
                    events.push(ConnectEvent::Cancelled);
                }
            },
        }
        i = i + 1;
    }
}

/// Dropping on another frame's handle comes to the same as clicking the one
/// frame and then the other: the same edge is asked for.
pub proof fn drag_equals_click_pair(first: Entity, second: Entity, ids: Map<Entity, ExternalId>)
    requires
        first != second,
        ids.dom().contains(first),
        ids.dom().contains(second),
    ensures
        ({
            let (armed, _) = crate::editor::connect::click(None, first, ids);
            let (_, pair) = crate::editor::connect::click(armed, second, ids);
            let drop = dropped(
                Tool::Connect,
                Some(ConnectionHandle { frame: second }),
                Some(ConnectionHandle { frame: first }),
                ids,
            );
            &&& drop == (DropOutcome::Completed { from: ids[first], to: ids[second] })
            &&& pair == (crate::editor::connect::ClickOutcome::Completed {
                from: ids[first],
                to: ids[second],
            })
        }),
{
}

/// After the frames that lacked a handle got one, every frame has a handle, and
/// asking again spawns none.
pub proof fn every_frame_gets_one_handle(
    frames: Seq<Entity>,
    handles: Seq<ConnectionHandle>,
    frame: Entity,
)
    requires
        frames.contains(frame),
    ensures
        ({
            let fresh = frames.filter(without_handle(handles));
            &&& handled(handles, frame) != fresh.contains(frame)
            &&& handled(handles + fresh.map_values(|f: Entity| ConnectionHandle { frame: f }), frame)
        }),
{
    let fresh = frames.filter(without_handle(handles));
    let more = fresh.map_values(|f: Entity| ConnectionHandle { frame: f });
    crate::seqs::lemma_filter_contains(frames, without_handle(handles), frame);
    if handled(handles, frame) {
        let i = choose|i: int| 0 <= i < handles.len() && handles[i] == ConnectionHandle { frame };
        assert((handles + more)[i] == ConnectionHandle { frame });
    } else {
        let i = choose|i: int| 0 <= i < fresh.len() && fresh[i] == frame;
        assert((handles + more)[handles.len() + i] == ConnectionHandle { frame });
    }
}

/// A drop draws a relation only with the connect tool and between the handles of
/// two different frames that both have an identity, and then from the frame
/// where the drag started to the frame where it was dropped.
pub proof fn drops_lead_from_source_to_target(
    tool: Tool,
    target: Option<ConnectionHandle>,
    source: Option<ConnectionHandle>,
    ids: Map<Entity, ExternalId>,
)
    ensures
        ({
            let outcome = dropped(tool, target, source, ids);
            let counts = tool == Tool::Connect && target is Some && source is Some;
            &&& outcome == DropOutcome::Ignored <==> !counts
            &&& counts && source->0.frame == target->0.frame ==> outcome == DropOutcome::Cancelled
            &&& counts && source->0.frame != target->0.frame && !ids.dom().contains(source->0.frame)
                ==> outcome == DropOutcome::SourceUnknown
            &&& counts && source->0.frame != target->0.frame && ids.dom().contains(source->0.frame)
                && !ids.dom().contains(target->0.frame) ==> outcome == DropOutcome::TargetUnknown
            &&& counts && source->0.frame != target->0.frame && ids.dom().contains(source->0.frame)
                && ids.dom().contains(target->0.frame) ==> outcome == (DropOutcome::Completed {
                from: ids[source->0.frame],
                to: ids[target->0.frame],
            })
        }),
{
}

/// A drop comes to an error exactly where one of the frames has no identity yet,
/// and the error says which.
pub proof fn drop_errors_say_which(outcome: DropOutcome)
    ensures
        drop_error(outcome) is Some <==> outcome == DropOutcome::SourceUnknown || outcome
            == DropOutcome::TargetUnknown,
        outcome == DropOutcome::SourceUnknown ==> drop_error(outcome)
            == Some("Connect-drag: source frame has no CrdtId yet"@),
        outcome == DropOutcome::TargetUnknown ==> drop_error(outcome)
            == Some("Connect-drag: target frame has no CrdtId yet"@),
{
}

/// A frame has a handle exactly where one of the handles names it.
pub proof fn handles_name_their_frames(handles: Seq<ConnectionHandle>, frame: Entity)
    ensures
        handled(handles, frame) <==> exists|i: int|
            0 <= i < handles.len() && (#[trigger] handles[i]).frame == frame,
{
    if handled(handles, frame) {
        let i = choose|i: int| 0 <= i < handles.len() && handles[i] == (ConnectionHandle { frame });
        assert(handles[i].frame == frame);
    }
    if exists|i: int| 0 <= i < handles.len() && (#[trigger] handles[i]).frame == frame {
        let i = choose|i: int| 0 <= i < handles.len() && (#[trigger] handles[i]).frame == frame;
        assert(handles[i] == ConnectionHandle { frame });
    }
}

} // verus!
