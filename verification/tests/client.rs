use kyoso::agent::scene::CrdtId;
use kyoso::agent::world::EntityCrdtIndex;
use kyoso::bridge::{create_duplex_plugin, DuplexPlugin, GlobalEventChannel};
use kyoso::client::create::{handle_canvas_clicks, handle_create_commands, spawned_event};
use kyoso::client::drag::{
    despawn_handles_on_exit, handle_connect_commands, on_drag_end, on_handle_drag_drop,
    on_handle_drag_start, spawn_handles, ConnectDrag, ConnectionHandle,
};
use kyoso::client::handlers::{
    dispatch_app_commands, emit_tool_changed, forward_tool_events, Desk,
};
use kyoso::client::input::{
    dispatch_hotkeys, handle_delete_key, on_canvas_clicked_for_select,
    on_node_clicked_for_connect, on_node_clicked_for_select,
};
use kyoso::client::msg::{AppCommand, AppEvent, GraphCommandExt};
use kyoso::client::scene::{
    drawn_size, edge_color, frame_solid_color, remove_selection_outline, Paint,
};
use kyoso::client::tool::{
    keycode_from_letter, CreateCommand, CreateEvent, Tool, ToolCommand, ToolEvent,
};
use kyoso::client::toolbar::{
    handle_button_clicks, handle_weave_kind_clicks, spawn_toolbar, sync_button_visuals,
    sync_weave_kind_visuals, ToolbarItem,
};
use kyoso::client::weave::{insert_marker_for, kind_of_entity, WeaveEdgeKind, WeaveMarkers};
use kyoso::editor::connect::{ConnectCommand, ConnectEvent, ConnectState};
use kyoso::editor::keys::{ButtonLook, Interaction, KeyCode, Keys};
use kyoso::editor::msg::SyncCommand;
use kyoso::editor::select::{SelectCommand, SelectEvent};
use kyoso::editor::topology::Effect;
use kyoso::geometry::{Pos2, Rgb};

fn id(counter: u64) -> CrdtId {
    CrdtId::new(1, counter)
}

fn index() -> EntityCrdtIndex {
    let mut index = EntityCrdtIndex::new();
    index.bind_node(10, id(1));
    index.bind_node(20, id(2));
    index
}

fn at(x: f32, y: f32) -> Pos2 {
    Pos2 { x: x.to_bits(), y: y.to_bits() }
}

fn rgb(r: f32, g: f32, b: f32) -> Rgb {
    Rgb { r: r.to_bits(), g: g.to_bits(), b: b.to_bits() }
}

/// One frame: take the commands in, carry them out, switch the tool.
fn pump(
    duplex: &DuplexPlugin<AppCommand, AppEvent>,
    tool: &mut Tool,
    last: &mut Option<Tool>,
    desk: &mut Desk,
) {
    let mut inbox = Vec::new();
    duplex.receive_external_event(&mut inbox);
    dispatch_app_commands(inbox, &index(), &vec![], desk);
    if let Some(next) = desk.next_tool.take() {
        *tool = next;
    }
    emit_tool_changed(*tool, last, &mut desk.events);
    duplex.send_events_externally(std::mem::take(&mut desk.events));
}

#[test]
fn spawn_via_duplex_lands_in_ecs() {
    let (duplex, _ext_rx, ext_tx) = create_duplex_plugin::<AppCommand, AppEvent>();
    let (mut tool, mut last, mut desk) = (Tool::default(), None, Desk::default());
    assert!(ext_tx.send(AppCommand::SetTool(Tool::Create)).is_ok(), "ext_tx alive");
    assert!(
        ext_tx
            .send(AppCommand::Tool(ToolCommand::Create(CreateCommand::SpawnNodeAt {
                position: at(50.0, 80.0),
                color: rgb(1.0, 0.0, 0.0),
            })))
            .is_ok(),
        "ext_tx alive"
    );
    pump(&duplex, &mut tool, &mut last, &mut desk);
    let spawns = handle_create_commands(tool, &desk.create, None);
    assert!(spawns.iter().any(|s| match s {
        Ok(frame) =>
            (f32::from_bits(frame.position.x) - 50.0).abs() < 0.001
                && (f32::from_bits(frame.position.y) - 80.0).abs() < 0.001,
        Err(_) => false,
    }));
}

#[test]
fn set_tool_changes_state() {
    let (duplex, _ext_rx, ext_tx) = create_duplex_plugin::<AppCommand, AppEvent>();
    let (mut tool, mut last, mut desk) = (Tool::default(), None, Desk::default());
    // Default is Select.
    assert_eq!(tool, Tool::Select);
    assert!(ext_tx.send(AppCommand::SetTool(Tool::Connect)).is_ok());
    pump(&duplex, &mut tool, &mut last, &mut desk);
    assert_eq!(tool, Tool::Connect);
}

#[test]
fn global_channel_round_trip() {
    let (duplex, ext_rx, ext_tx) = create_duplex_plugin::<AppCommand, AppEvent>();
    let mut global = GlobalEventChannel::new();
    global.set_sender(ext_tx);
    global.set_receiver(ext_rx);
    let (mut tool, mut last, mut desk) = (Tool::default(), None, Desk::default());
    global.send(AppCommand::SetTool(Tool::Create)).unwrap();
    global
        .send(AppCommand::Tool(ToolCommand::Create(CreateCommand::SpawnNodeAt {
            position: at(-10.0, 25.0),
            color: rgb(0.0, 1.0, 0.0),
        })))
        .unwrap();
    pump(&duplex, &mut tool, &mut last, &mut desk);
    let spawns = handle_create_commands(tool, &desk.create, None);
    assert!(spawns.iter().any(|s| match s {
        Ok(frame) =>
            (f32::from_bits(frame.position.x) - -10.0).abs() < 0.001
                && (f32::from_bits(frame.position.y) - 25.0).abs() < 0.001,
        Err(_) => false,
    }));
    let mut saw_event = false;
    while let Ok(Some(_)) = global.try_receive() {
        saw_event = true;
    }
    assert!(saw_event, "try_receive should observe at least one AppEvent");
}

#[test]
fn tools_ignore_commands_while_inactive() {
    let commands =
        vec![CreateCommand::SpawnNodeAt { position: at(0.0, 0.0), color: rgb(0.0, 0.0, 0.0) }];
    assert!(handle_create_commands(Tool::Select, &commands, None).is_empty());
    assert!(handle_canvas_clicks(Tool::Select, Some(true), &vec![]).is_none());
}

#[test]
fn frames_are_created_under_the_pointer() {
    let red = rgb(1.0, 0.0, 0.0);
    let commands = vec![CreateCommand::SpawnNodeAtCursor { color: red }];
    assert_eq!(
        handle_create_commands(Tool::Create, &commands, None),
        vec![Err("Create::SpawnNodeAtCursor: no cursor or no 2D camera".to_string())]
    );
    let made = handle_create_commands(Tool::Create, &commands, Some(at(3.0, 4.0)));
    let frame = made[0].as_ref().unwrap();
    assert_eq!(frame.position, at(3.0, 4.0));
    assert_eq!(f32::from_bits(frame.size.width), 180.0);
    assert_eq!(f32::from_bits(frame.size.height), 100.0);
    let one = 1.0f32.to_bits();
    assert_eq!(frame.fill, Paint::Solid { r: one, g: 0, b: 0, a: one });
    assert!(frame.clips_content);
    assert_eq!(spawned_event(7), CreateEvent::NodeSpawned { entity: 7 });
    assert!(matches!(
        handle_canvas_clicks(Tool::Create, Some(true), &vec![Interaction::Idle]),
        Some(AppCommand::Tool(ToolCommand::Create(CreateCommand::SpawnNodeAtCursor { color })))
            if color == rgb(0.4, 0.7, 1.0)
    ));
}

#[test]
fn commands_are_fanned_out() {
    let mut desk = Desk::default();
    dispatch_app_commands(
        vec![
            AppCommand::SetConnectKind(WeaveEdgeKind::Comment),
            AppCommand::Tool(ToolCommand::Select(SelectCommand::ClearSelection)),
            AppCommand::Tool(ToolCommand::Connect(ConnectCommand::Cancel)),
            AppCommand::Graph(GraphCommandExt::Connect {
                from: id(1),
                to: id(2),
                kind: WeaveEdgeKind::Dependency,
            }),
            AppCommand::Graph(GraphCommandExt::RemoveEdge { id: id(9) }),
            AppCommand::Sync(SyncCommand::Reconnect),
        ],
        &index(),
        &vec![],
        &mut desk,
    );
    assert_eq!(desk.connect_kind, WeaveEdgeKind::Comment);
    assert_eq!(desk.select.len(), 1);
    assert_eq!(desk.connect, vec![ConnectCommand::Cancel]);
    assert_eq!(
        desk.effects,
        vec![Effect::SpawnEdge { from: 10, to: 20, kind: WeaveEdgeKind::Dependency }]
    );
    let errors: Vec<&str> = desk
        .events
        .iter()
        .map(|e| match e {
            AppEvent::CommandError { message } => message.as_str(),
            other => panic!("unexpected {other:?}"),
        })
        .collect();
    assert_eq!(
        errors,
        vec![
            "Graph::RemoveEdge: unknown id 1:9",
            "Sync control commands not yet wired in the transport",
        ]
    );
}

#[test]
fn tool_events_are_forwarded_in_order() {
    let mut events: Vec<AppEvent> = Vec::new();
    forward_tool_events(
        vec![SelectEvent::SelectionCleared],
        &vec![CreateEvent::NodeSpawned { entity: 1 }],
        &vec![ConnectEvent::Cancelled],
        &mut events,
    );
    assert!(matches!(events[0], AppEvent::Tool(ToolEvent::Select(_))));
    assert!(matches!(events[1], AppEvent::Tool(ToolEvent::Create(_))));
    assert!(matches!(events[2], AppEvent::Tool(ToolEvent::Connect(_))));
    let mut last = None;
    emit_tool_changed(Tool::Select, &mut last, &mut events);
    emit_tool_changed(Tool::Select, &mut last, &mut events);
    assert_eq!(events.len(), 4);
    assert!(matches!(
        events[3],
        AppEvent::Tool(ToolEvent::Switched { tool: Tool::Select })
    ));
}

#[test]
fn dragging_connects_frames() {
    let index = index();
    let (a, b) = (ConnectionHandle { frame: 10 }, ConnectionHandle { frame: 20 });
    let stranger = ConnectionHandle { frame: 99 };
    let kind = WeaveEdgeKind::Annotation;
    let mut drag = ConnectDrag::default();
    let (mut commands, mut events, mut told) = (Vec::new(), Vec::new(), Vec::new());
    on_handle_drag_start(Tool::Select, Some(a), &mut drag);
    assert_eq!(drag.source, None);
    on_handle_drag_start(Tool::Connect, Some(a), &mut drag);
    assert_eq!(drag.source, Some(10));
    on_handle_drag_drop(
        Tool::Connect, Some(b), Some(a), kind, &index, &mut drag, &mut commands, &mut events,
        &mut told,
    );
    assert!(matches!(
        commands[..],
        [AppCommand::Graph(GraphCommandExt::Connect { from, to, kind: WeaveEdgeKind::Annotation })]
            if from == id(1) && to == id(2)
    ));
    assert_eq!(told, vec![ConnectEvent::Completed { from: id(1), to: id(2) }]);
    on_drag_end(Tool::Connect, &mut drag, &mut told);
    assert_eq!(told.len(), 1);

    // Dropped nowhere, on itself, from and onto a frame without an identity.
    drag.source = Some(10);
    on_handle_drag_drop(
        Tool::Connect, None, Some(a), kind, &index, &mut drag, &mut commands, &mut events,
        &mut told,
    );
    assert_eq!(drag.source, Some(10));
    on_drag_end(Tool::Connect, &mut drag, &mut told);
    assert_eq!(told[1..], [ConnectEvent::Cancelled]);
    on_handle_drag_drop(
        Tool::Connect, Some(a), Some(a), kind, &index, &mut drag, &mut commands, &mut events,
        &mut told,
    );
    assert_eq!(told.len(), 3);
    on_handle_drag_drop(
        Tool::Connect, Some(a), Some(stranger), kind, &index, &mut drag, &mut commands,
        &mut events, &mut told,
    );
    on_handle_drag_drop(
        Tool::Connect, Some(stranger), Some(a), kind, &index, &mut drag, &mut commands,
        &mut events, &mut told,
    );
    assert_eq!(commands.len(), 1);
    assert!(matches!(&events[0], AppEvent::CommandError { message }
        if message == "Connect-drag: source frame has no CrdtId yet"));
    assert!(matches!(&events[1], AppEvent::CommandError { message }
        if message == "Connect-drag: target frame has no CrdtId yet"));
}

#[test]
fn cancelling_gives_up_a_drag_too() {
    let mut connect = ConnectState::default();
    let mut drag = ConnectDrag { source: Some(10) };
    let mut told = Vec::new();
    handle_connect_commands(
        Tool::Connect,
        &vec![ConnectCommand::Cancel, ConnectCommand::Cancel],
        &mut connect,
        &mut drag,
        &mut told,
    );
    assert_eq!(drag.source, None);
    assert_eq!(told, vec![ConnectEvent::Cancelled]);
    drag.source = Some(10);
    assert_eq!(despawn_handles_on_exit(vec![1, 2], &mut drag), vec![1, 2]);
    assert_eq!(drag.source, None);
    assert_eq!(spawn_handles(&vec![10, 20], &vec![ConnectionHandle { frame: 10 }]), vec![20]);
}

#[test]
fn clicking_connects_frames() {
    let index = index();
    let mut connect = ConnectState::default();
    let (mut commands, mut events, mut told) = (Vec::new(), Vec::new(), Vec::new());
    let mut go = |target: u64, connect: &mut ConnectState| {
        on_node_clicked_for_connect(
            Tool::Connect, true, target, WeaveEdgeKind::Reference, &index, connect,
            &mut commands, &mut events, &mut told,
        )
    };
    go(10, &mut connect);
    go(99, &mut connect);
    go(20, &mut connect);
    connect.from = Some(99);
    go(20, &mut connect);
    assert_eq!(commands.len(), 1);
    assert_eq!(
        told,
        vec![
            ConnectEvent::Armed { from: id(1) },
            ConnectEvent::Completed { from: id(1), to: id(2) },
        ]
    );
    assert!(matches!(&events[0], AppEvent::CommandError { message }
        if message == "Connect: target frame has no CrdtId yet"));
    assert!(matches!(&events[1], AppEvent::CommandError { message }
        if message == "Connect: armed frame has no CrdtId yet"));
}

#[test]
fn selecting_by_click_and_key() {
    let index = index();
    assert!(matches!(
        on_node_clicked_for_select(Tool::Select, true, 10, &None, &index),
        Some(AppCommand::Tool(ToolCommand::Select(SelectCommand::Select { target })))
            if target == id(1)
    ));
    assert!(on_node_clicked_for_select(Tool::Create, true, 10, &None, &index).is_none());
    assert!(matches!(
        on_canvas_clicked_for_select(Tool::Select, Some(true), &vec![], false),
        Some(AppCommand::Tool(ToolCommand::Select(SelectCommand::ClearSelection)))
    ));
    assert!(on_canvas_clicked_for_select(Tool::Select, Some(true), &vec![], true).is_none());
    let delete = Some(Keys { held: vec![], fresh: vec![KeyCode::Delete] });
    assert!(matches!(
        handle_delete_key(Tool::Select, &delete, &vec![20], &index)[..],
        [AppCommand::Graph(GraphCommandExt::RemoveNode { id: x })] if x == id(2)
    ));
    assert!(handle_delete_key(Tool::Connect, &delete, &vec![20], &index).is_empty());
}

#[test]
fn shortcuts_switch_tools() {
    let labels: Vec<&str> = Tool::all().iter().map(|t| t.label()).collect();
    assert_eq!(labels, vec!["Select", "Create", "Connect"]);
    assert_eq!(Tool::Create.shortcut(), Some("C"));
    assert_eq!(Tool::Create.shortcut_keycode(), Some(KeyCode::Letter('C')));
    assert_eq!(keycode_from_letter("V"), Some(KeyCode::Letter('V')));
    for none in ["v", "", "VV", "1", "É"] {
        assert_eq!(keycode_from_letter(none), None);
    }
    let keys = Keys {
        held: vec![],
        fresh: vec![KeyCode::Letter('E'), KeyCode::Letter('V'), KeyCode::Letter('X')],
    };
    assert!(matches!(
        dispatch_hotkeys(&keys)[..],
        [AppCommand::SetTool(Tool::Select), AppCommand::SetTool(Tool::Connect)]
    ));
}

#[test]
fn the_toolbar_offers_tools_and_kinds() {
    let items = spawn_toolbar();
    assert_eq!(items.len(), 8);
    assert_eq!(items[3], ToolbarItem::Divider);
    assert_eq!(items[7], ToolbarItem::Weave(WeaveEdgeKind::Annotation));
    assert!(matches!(
        handle_button_clicks(&vec![
            (Interaction::Hovered, Tool::Select),
            (Interaction::Pressed, Tool::Create),
        ])[..],
        [AppCommand::SetTool(Tool::Create)]
    ));
    assert!(matches!(
        handle_weave_kind_clicks(&vec![(Interaction::Pressed, WeaveEdgeKind::Comment)])[..],
        [
            AppCommand::SetTool(Tool::Connect),
            AppCommand::SetConnectKind(WeaveEdgeKind::Comment)
        ]
    ));
    assert_eq!(
        sync_button_visuals(Tool::Select, &vec![(Interaction::Idle, Tool::Select)]),
        vec![ButtonLook::Active]
    );
    let row = vec![(Interaction::Idle, WeaveEdgeKind::Comment)];
    assert_eq!(
        sync_weave_kind_visuals(Tool::Connect, WeaveEdgeKind::Comment, &row),
        vec![ButtonLook::Active]
    );
    assert_eq!(
        sync_weave_kind_visuals(Tool::Select, WeaveEdgeKind::Comment, &row),
        vec![ButtonLook::Normal]
    );
}

#[test]
fn kinds_have_markers_and_colors() {
    let bare =
        WeaveMarkers { reference: None, dependency: None, comment: None, annotation: None };
    assert_eq!(kind_of_entity(&bare), None);
    let expected = [
        (WeaveEdgeKind::Reference, "Reference", rgb(0.20, 0.55, 0.95)),
        (WeaveEdgeKind::Dependency, "Dependency", rgb(0.95, 0.30, 0.20)),
        (WeaveEdgeKind::Comment, "Comment", rgb(0.30, 0.80, 0.40)),
        (WeaveEdgeKind::Annotation, "Annotation", rgb(0.85, 0.60, 0.20)),
    ];
    for (kind, label, color) in expected {
        let mut markers = bare;
        insert_marker_for(&mut markers, kind);
        assert_eq!(kind_of_entity(&markers), Some(kind));
        assert_eq!(kind.label(), label);
        assert_eq!(kind.color(), color);
        assert_eq!(edge_color(&markers), color);
    }
    assert_eq!(edge_color(&bare), rgb(0.20, 0.55, 0.95));
    assert_eq!(WeaveEdgeKind::default(), WeaveEdgeKind::Reference);
}

#[test]
fn frames_take_their_first_solid_fill() {
    let one = 1.0f32.to_bits();
    let red = Paint::Solid { r: one, g: 0, b: 0, a: one };
    let blue = Paint::Solid { r: 0, g: 0, b: one, a: one };
    assert_eq!(frame_solid_color(&vec![Paint::Other { id: 1 }, red, blue]), red);
    assert_eq!(
        frame_solid_color(&vec![Paint::Other { id: 1 }]),
        Paint::Solid {
            r: 0.85f32.to_bits(),
            g: 0.86f32.to_bits(),
            b: 0.90f32.to_bits(),
            a: one,
        }
    );
    assert_eq!(f32::from_bits(drawn_size(None).width), 180.0);
    assert_eq!(remove_selection_outline(&vec![1, 2, 3], &vec![3, 1]), vec![1, 3]);
}
