use kyoso::agent::scene::CrdtId;
use kyoso::agent::world::EntityCrdtIndex;
use kyoso::editor::connect::{
    cancel_on_escape, handle_connect_commands, node_clicked, reset_connect_state, ClickOutcome,
    ConnectCommand, ConnectEvent, ConnectState,
};
use kyoso::editor::keys::{
    button_look, canvas_clicked, letter_key, ButtonLook, Interaction, KeyCode, Keys,
};
use kyoso::editor::msg::{about_id, AppEvent, GraphMessageExt, SyncEvent};
use kyoso::editor::project::{
    emit_edge_appeared, emit_edge_removed, emit_node_appeared, emit_node_moved,
    emit_node_removed, ExternalIdCache,
};
use kyoso::editor::select::{
    clear_selection_on_tool_exit, handle_select_commands, ids_to_delete,
    node_clicked_for_select, SelectCommand, SelectEffect, SelectEvent, SelectOutput,
};
use kyoso::editor::status::{emit_connected_once, emit_disconnected, tool_changed};
use kyoso::editor::toolbar::{button_looks, pressed_buttons};
use kyoso::editor::topology::{
    dispatch_connect, dispatch_disconnect, dispatch_remove_edge, dispatch_remove_node, EdgeRow,
    Effect,
};
use kyoso::geometry::Pos2;
use kyoso::client::tool::ToolEvent;
use kyoso::presence::SyncStatus;

type Event = AppEvent<ToolEvent, Pos2>;

fn id(counter: u64) -> CrdtId {
    CrdtId::new(1, counter)
}

fn index() -> EntityCrdtIndex {
    let mut index = EntityCrdtIndex::new();
    index.bind_node(10, id(1));
    index.bind_node(20, id(2));
    index.bind_node(30, id(3));
    index.bind_edge(40, id(4));
    index
}

fn keys(held: Vec<KeyCode>, fresh: Vec<KeyCode>) -> Option<Keys> {
    Some(Keys { held, fresh })
}

#[test]
fn ids_are_spelt_out() {
    assert_eq!(about_id("x ", CrdtId::new(12, 345)), "x 12:345");
}

#[test]
fn connecting_needs_both_ends() {
    let index = index();
    assert_eq!(
        dispatch_connect::<u8, u8>(&index, id(1), id(2), 7),
        Ok(vec![Effect::SpawnEdge { from: 10, to: 20, kind: 7 }])
    );
    assert_eq!(
        dispatch_connect::<u8, u8>(&index, id(9), id(8), 7),
        Err("Graph::Connect: unknown from-id 1:9".to_string())
    );
    assert_eq!(
        dispatch_connect::<u8, u8>(&index, id(1), id(8), 7),
        Err("Graph::Connect: unknown to-id 1:8".to_string())
    );
}

#[test]
fn disconnecting_takes_the_first_edge() {
    let index = index();
    let edges = vec![
        EdgeRow { edge: 41, from: 20, to: 10 },
        EdgeRow { edge: 42, from: 10, to: 20 },
        EdgeRow { edge: 43, from: 10, to: 20 },
    ];
    assert_eq!(
        dispatch_disconnect::<u8, u8>(&index, &edges, id(1), id(2)),
        Ok(vec![Effect::Despawn { entity: 42 }])
    );
    assert_eq!(
        dispatch_disconnect::<u8, u8>(&index, &edges, id(1), id(3)),
        Err("Graph::Disconnect: no edge 1:1 -> 1:3".to_string())
    );
    assert_eq!(
        dispatch_disconnect::<u8, u8>(&index, &edges, id(7), id(3)),
        Err("Graph::Disconnect: unknown from-id 1:7".to_string())
    );
    assert_eq!(
        dispatch_disconnect::<u8, u8>(&index, &edges, id(1), id(7)),
        Err("Graph::Disconnect: unknown to-id 1:7".to_string())
    );
}

#[test]
fn removing_a_node_takes_its_edges() {
    let index = index();
    let edges = vec![
        EdgeRow { edge: 41, from: 20, to: 10 },
        EdgeRow { edge: 42, from: 20, to: 30 },
        EdgeRow { edge: 43, from: 10, to: 20 },
    ];
    assert_eq!(
        dispatch_remove_node::<u8, u8>(&index, &edges, id(1)),
        Ok(vec![
            Effect::Despawn { entity: 41 },
            Effect::Despawn { entity: 43 },
            Effect::Despawn { entity: 10 },
        ])
    );
    assert_eq!(
        dispatch_remove_node::<u8, u8>(&index, &edges, id(9)),
        Err("Graph::RemoveNode: unknown id 1:9".to_string())
    );
    assert_eq!(
        dispatch_remove_edge::<u8, u8>(&index, id(4)),
        Ok(vec![Effect::Despawn { entity: 40 }])
    );
    assert_eq!(
        dispatch_remove_edge::<u8, u8>(&index, id(1)),
        Err("Graph::RemoveEdge: unknown id 1:1".to_string())
    );
}

fn output(selected: Vec<u64>) -> SelectOutput<ToolEvent, Pos2> {
    SelectOutput {
        selected,
        effects: Vec::new(),
        events: Vec::new(),
        app_events: Vec::new(),
    }
}

fn errors(events: &[Event]) -> Vec<&str> {
    events
        .iter()
        .map(|e| match e {
            AppEvent::CommandError { message } => message.as_str(),
            other => panic!("expected an error, got {other:?}"),
        })
        .collect()
}

#[test]
fn selecting_replaces_the_selection() {
    let mut out = output(vec![20, 30]);
    handle_select_commands(
        true,
        &vec![SelectCommand::Select { target: id(1) }],
        &index(),
        &mut out,
    );
    assert_eq!(
        out.effects,
        vec![
            SelectEffect::Deselect { entity: 20 },
            SelectEffect::Deselect { entity: 30 },
            SelectEffect::Select { entity: 10 },
        ]
    );
    assert!(matches!(out.events[..], [SelectEvent::Selected { target }] if target == id(1)));
    assert!(out.app_events.is_empty());
    assert_eq!(out.selected, vec![10]);
}

#[test]
fn selecting_twice_leaves_the_last() {
    let mut out = output(vec![]);
    handle_select_commands(
        true,
        &vec![
            SelectCommand::Select { target: id(1) },
            SelectCommand::Select { target: id(2) },
        ],
        &index(),
        &mut out,
    );
    assert_eq!(
        out.effects,
        vec![
            SelectEffect::Select { entity: 10 },
            SelectEffect::Deselect { entity: 10 },
            SelectEffect::Select { entity: 20 },
        ]
    );
    assert_eq!(out.selected, vec![20]);
}

#[test]
fn toggling_twice_restores() {
    let mut out = output(vec![20]);
    let toggle = || SelectCommand::Toggle { target: id(1) };
    handle_select_commands(true, &vec![toggle(), toggle()], &index(), &mut out);
    assert_eq!(
        out.effects,
        vec![SelectEffect::Select { entity: 10 }, SelectEffect::Deselect { entity: 10 }]
    );
    assert_eq!(out.selected, vec![20]);
}

#[test]
fn other_tools_leave_the_selection() {
    let mut out = output(vec![20]);
    handle_select_commands(
        false,
        &vec![
            SelectCommand::Select { target: id(1) },
            SelectCommand::Select { target: id(7) },
            SelectCommand::ClearSelection,
        ],
        &index(),
        &mut out,
    );
    assert_eq!(out.selected, vec![20]);
    assert!(out.effects.is_empty());
    assert!(out.events.is_empty());
    assert!(out.app_events.is_empty());
}

#[test]
fn toggling_flips_one_node() {
    let mut out = output(vec![20]);
    handle_select_commands(
        true,
        &vec![
            SelectCommand::Toggle { target: id(1) },
            SelectCommand::Toggle { target: id(2) },
        ],
        &index(),
        &mut out,
    );
    assert_eq!(out.selected, vec![10]);
    assert_eq!(
        out.effects,
        vec![SelectEffect::Select { entity: 10 }, SelectEffect::Deselect { entity: 20 }]
    );
    assert!(matches!(out.events[0], SelectEvent::Toggled { selected: true, .. }));
    assert!(matches!(out.events[1], SelectEvent::Toggled { selected: false, .. }));
}

#[test]
fn unknown_ids_are_errors() {
    let mut out = output(vec![]);
    handle_select_commands(
        true,
        &vec![
            SelectCommand::Select { target: id(7) },
            SelectCommand::Toggle { target: id(8) },
            SelectCommand::DeleteTargets { ids: vec![id(9)] },
        ],
        &index(),
        &mut out,
    );
    assert!(out.effects.is_empty());
    assert!(out.events.is_empty());
    assert_eq!(
        errors(&out.app_events),
        vec![
            "Select::Select: unknown id 1:7",
            "Select::Toggle: unknown id 1:8",
            "Select::DeleteTargets: unknown id 1:9",
        ]
    );
}

#[test]
fn deleting_and_clearing() {
    let mut out = output(vec![20]);
    handle_select_commands(
        true,
        &vec![
            SelectCommand::DeleteTargets { ids: vec![id(1), id(9), id(3)] },
            SelectCommand::ClearSelection,
        ],
        &index(),
        &mut out,
    );
    assert_eq!(
        out.effects,
        vec![
            SelectEffect::Despawn { entity: 10 },
            SelectEffect::Despawn { entity: 30 },
            SelectEffect::Deselect { entity: 20 },
        ]
    );
    assert!(
        matches!(&out.events[0], SelectEvent::DeletedTargets { ids } if *ids == vec![id(1), id(3)])
    );
    assert!(matches!(out.events[1], SelectEvent::SelectionCleared));

    let mut out = output(vec![]);
    clear_selection_on_tool_exit(&mut out);
    assert!(out.events.is_empty());
    let mut out = output(vec![20]);
    clear_selection_on_tool_exit(&mut out);
    assert!(out.selected.is_empty());
    assert_eq!(out.effects, vec![SelectEffect::Deselect { entity: 20 }]);
    assert_eq!(out.events.len(), 1);
}

#[test]
fn clicks_select_and_keys_delete() {
    let index = index();
    let shift = keys(vec![KeyCode::ShiftRight], vec![]);
    assert!(matches!(
        node_clicked_for_select(true, true, 10, &None, &index),
        Some(SelectCommand::Select { target }) if target == id(1)
    ));
    assert!(matches!(
        node_clicked_for_select(true, true, 10, &shift, &index),
        Some(SelectCommand::Toggle { .. })
    ));
    assert!(node_clicked_for_select(false, true, 10, &None, &index).is_none());
    assert!(node_clicked_for_select(true, false, 10, &None, &index).is_none());
    assert!(node_clicked_for_select(true, true, 99, &None, &index).is_none());
    let back = keys(vec![], vec![KeyCode::Backspace]);
    assert_eq!(ids_to_delete(&back, &vec![10, 99, 30], &index), vec![id(1), id(3)]);
    assert!(ids_to_delete(&None, &vec![10], &index).is_empty());
    assert!(ids_to_delete(&shift, &vec![10], &index).is_empty());
}

#[test]
fn two_clicks_connect() {
    let index = index();
    let mut state = ConnectState::default();
    assert_eq!(node_clicked(true, true, 99, &index, &mut state), ClickOutcome::Ignored);
    assert_eq!(
        node_clicked(true, true, 10, &index, &mut state),
        ClickOutcome::Armed { from: id(1) }
    );
    assert_eq!(node_clicked(true, true, 99, &index, &mut state), ClickOutcome::TargetUnknown);
    assert_eq!(state.from, Some(10));
    assert_eq!(
        node_clicked(true, true, 20, &index, &mut state),
        ClickOutcome::Completed { from: id(1), to: id(2) }
    );
    assert_eq!(state.from, None);
    state.from = Some(99);
    assert_eq!(node_clicked(true, true, 20, &index, &mut state), ClickOutcome::SourceUnknown);
    assert_eq!(state.from, None);
    state.from = Some(10);
    assert_eq!(node_clicked(true, true, 10, &index, &mut state), ClickOutcome::Cancelled);
    assert_eq!(state.from, None);
}

#[test]
fn a_connection_is_given_up_once() {
    let mut state = ConnectState { from: Some(10) };
    let mut events = Vec::new();
    handle_connect_commands(
        false,
        &vec![ConnectCommand::Cancel],
        &mut state,
        &mut events,
    );
    assert!(events.is_empty());
    handle_connect_commands(
        true,
        &vec![ConnectCommand::Cancel, ConnectCommand::Cancel],
        &mut state,
        &mut events,
    );
    assert_eq!(events, vec![ConnectEvent::Cancelled]);
    reset_connect_state(&mut state, &mut events);
    assert_eq!(events.len(), 1);
    state.from = Some(10);
    cancel_on_escape(true, &keys(vec![], vec![KeyCode::Escape]), &mut state, &mut events);
    assert_eq!(events.len(), 2);
    assert_eq!(state.from, None);
}

#[test]
fn what_appears_goes_once() {
    let index = index();
    let mut cache = ExternalIdCache::default();
    let mut events: Vec<Event> = Vec::new();
    let at = Pos2 { x: 1, y: 2 };
    emit_node_appeared(&vec![(10, at), (99, at)], &index, &mut cache, &mut events);
    emit_node_moved(&vec![(20, at)], &index, &mut events);
    emit_node_removed(&vec![10, 10, 99], &mut cache, &mut events);
    emit_edge_appeared(
        &vec![
            EdgeRow { edge: 40, from: 10, to: 20 },
            EdgeRow { edge: 40, from: 10, to: 99 },
        ],
        &index,
        &mut cache,
        &mut events,
    );
    emit_edge_removed(&vec![40, 40], &mut cache, &mut events);
    let told: Vec<GraphMessageExt<Pos2>> = events
        .into_iter()
        .map(|e| match e {
            AppEvent::Graph(g) => g,
            other => panic!("unexpected {other:?}"),
        })
        .collect();
    assert_eq!(
        told,
        vec![
            GraphMessageExt::NodeAppeared { id: id(1), position: at },
            GraphMessageExt::NodeMoved { id: id(2), position: at },
            GraphMessageExt::NodeRemoved { id: id(1) },
            GraphMessageExt::EdgeAppeared { id: id(4), from: id(1), to: id(2) },
            GraphMessageExt::EdgeRemoved { id: id(4), from: id(4), to: id(4) },
        ]
    );
}

#[test]
fn connections_are_told_once_each() {
    let on = SyncStatus::Connected { peer: 3 };
    let mut announced = false;
    let mut events: Vec<Event> = Vec::new();
    for status in [on, on, SyncStatus::Disconnected, SyncStatus::Connecting, on] {
        emit_connected_once(status, &mut announced, &mut events);
    }
    assert_eq!(events.len(), 2);
    assert!(matches!(events[0], AppEvent::Sync(SyncEvent::Connected { peer: 3 })));

    let mut last = false;
    let mut events: Vec<Event> = Vec::new();
    for status in [on, SyncStatus::Disconnected, SyncStatus::Disconnected, on] {
        emit_disconnected(status, &mut last, &mut events);
    }
    assert_eq!(events.len(), 1);

    let mut tool: Option<u64> = None;
    assert_eq!(tool_changed(5, &mut tool), Some(5));
    assert_eq!(tool_changed(5, &mut tool), None);
    assert_eq!(tool_changed(6, &mut tool), Some(6));
}

#[test]
fn buttons_look_as_they_should() {
    assert_eq!(button_look(true, Interaction::Hovered), ButtonLook::Active);
    assert_eq!(button_look(false, Interaction::Pressed), ButtonLook::Hover);
    assert_eq!(button_look(false, Interaction::Idle), ButtonLook::Normal);
    let row = vec![(Interaction::Idle, 1u64), (Interaction::Pressed, 2u64)];
    assert_eq!(button_looks(Some(1u64), &row), vec![ButtonLook::Active, ButtonLook::Hover]);
    assert_eq!(pressed_buttons(&row), vec![2]);
}

#[test]
fn clicks_on_the_interface_do_not_count() {
    assert!(canvas_clicked(Some(true), &vec![Interaction::Idle]));
    assert!(!canvas_clicked(Some(true), &vec![Interaction::Idle, Interaction::Hovered]));
    assert!(!canvas_clicked(Some(false), &vec![]));
    assert!(!canvas_clicked(None, &vec![]));
}

#[test]
fn letters_have_keys() {
    assert_eq!(letter_key('q'), Some(KeyCode::Letter('Q')));
    assert_eq!(letter_key('Z'), Some(KeyCode::Letter('Z')));
    assert_eq!(letter_key('1'), None);
    assert_eq!(letter_key('é'), None);
}
