use std::collections::HashMap;

use kyoso::agent::scene::CrdtId;
use kyoso::agent::world::EntityCrdtIndex;
use kyoso::circuit::grid_manager::{
    grid_planes, preview_layer, snap_hotkey, snap_on_drag_end, GridManager,
};
use kyoso::circuit::handlers::{
    dispatch_app_commands, emit_tool_changed, forward_tool_events, Desk,
};
use kyoso::circuit::input::{
    dispatch_hotkeys, handle_delete_key, on_node_clicked_for_connect,
    on_node_clicked_for_select,
};
use kyoso::circuit::kinds::{
    drawn_kind, marker_for, CircuitEdgeKind, CircuitLayer, ComponentKind, EdgeMarkers, OnLayer,
};
use kyoso::circuit::layer_manager::{
    apply_edge_visibility, apply_node_visibility, forget_removed_nodes, index_node_layers,
    layer_hotkeys, LayerManager, Visibility,
};
use kyoso::circuit::msg::{AppCommand, AppEvent, GraphCommandExt};
use kyoso::circuit::place::{
    ground_label, handle_canvas_clicks, handle_place_commands, spawn_component, spawned_event,
    LayerHits, Preset,
};
use kyoso::circuit::scene::{
    component_color, component_mesh, sync_layer_y, update_polyline_endpoints, ComponentTags,
    Solid,
};
use kyoso::circuit::tool::{
    keycode_from_letter, PlaceCommand, PlaceEvent, Tool, ToolCommand, ToolEvent,
};
use kyoso::circuit::toolbar::{
    handle_button_clicks, handle_component_kind_clicks, handle_layer_clicks,
    handle_wire_kind_clicks, spawn_toolbar, sync_button_visuals, sync_component_kind_visuals,
    sync_layer_visuals, sync_wire_kind_visuals, ToolbarItem,
};
use kyoso::editor::connect::{ConnectCommand, ConnectEvent, ConnectState};
use kyoso::editor::keys::{ButtonLook, Interaction, KeyCode, Keys};
use kyoso::editor::msg::SyncCommand;
use kyoso::editor::select::{SelectCommand, SelectEvent};
use kyoso::editor::topology::{EdgeRow, Effect};
use kyoso::geometry::{Pos3, Rgb};

fn id(counter: u64) -> CrdtId {
    CrdtId::new(1, counter)
}

fn index() -> EntityCrdtIndex {
    let mut index = EntityCrdtIndex::new();
    index.bind_node(10, id(1));
    index.bind_node(20, id(2));
    index
}

fn at(x: f32, y: f32, z: f32) -> Pos3 {
    Pos3 { x: x.to_bits(), y: y.to_bits(), z: z.to_bits() }
}

fn rgb(r: f32, g: f32, b: f32) -> Rgb {
    Rgb { r: r.to_bits(), g: g.to_bits(), b: b.to_bits() }
}

fn fresh(codes: Vec<KeyCode>) -> Option<Keys> {
    Some(Keys { held: vec![], fresh: codes })
}

#[test]
fn layers_have_ids() {
    let ids: Vec<u32> = CircuitLayer::all().iter().map(|l| l.id()).collect();
    assert_eq!(ids, vec![1, 2, 3, 4]);
    for layer in CircuitLayer::all() {
        assert_eq!(CircuitLayer::from_id(layer.id()), Some(layer));
        assert_eq!(OnLayer::new(layer).layer(), Some(layer));
    }
    assert_eq!(CircuitLayer::from_id(0), None);
    assert_eq!(OnLayer { id: 5 }.layer(), None);
}

#[test]
fn the_active_layer_is_set_once() {
    let mut layers = LayerManager::default();
    assert_eq!(layers.active(), CircuitLayer::Signal);
    assert!(!layers.set_active(CircuitLayer::Signal));
    assert!(layers.set_active(CircuitLayer::Power));
    assert!(!layers.set_active(CircuitLayer::Power));
    assert_eq!(layers.active(), CircuitLayer::Power);
}

#[test]
fn hidden_layers_come_back() {
    let mut layers = LayerManager::default();
    assert!(!layers.toggle_visibility(CircuitLayer::Ground));
    assert!(!layers.is_visible(CircuitLayer::Ground));
    assert!(layers.is_visible(CircuitLayer::Signal));
    assert!(layers.toggle_visibility(CircuitLayer::Ground));
    layers.set_visible(CircuitLayer::Power, false);
    assert!(!layers.is_visible(CircuitLayer::Power));
}

#[test]
fn the_layer_index_follows_the_tags() {
    let mut layers = LayerManager::default();
    index_node_layers(
        &mut layers,
        &vec![(1, OnLayer { id: 1 }), (2, OnLayer { id: 1 }), (3, OnLayer { id: 9 })],
    );
    assert_eq!(*layers.entities_on(CircuitLayer::Signal), vec![1, 2]);
    assert_eq!(layers.layer_of(3), None);
    index_node_layers(&mut layers, &vec![(1, OnLayer { id: 3 }), (2, OnLayer { id: 9 })]);
    assert_eq!(*layers.entities_on(CircuitLayer::Signal), vec![2]);
    assert_eq!(*layers.entities_on(CircuitLayer::Ground), vec![1]);
    assert_eq!(layers.layer_of(1), Some(CircuitLayer::Ground));
    forget_removed_nodes(&mut layers, &vec![1, 7]);
    assert!(layers.entities_on(CircuitLayer::Ground).is_empty());
    assert_eq!(layers.layer_of(1), None);
    assert_eq!(layers.layer_of(2), Some(CircuitLayer::Signal));
}

#[test]
fn digits_choose_and_hide_layers() {
    let mut layers = LayerManager::default();
    layer_hotkeys(&fresh(vec![KeyCode::Digit(3), KeyCode::Digit(2)]), &mut layers);
    assert_eq!(layers.active(), CircuitLayer::Power);
    let shifted =
        Some(Keys { held: vec![KeyCode::ShiftLeft], fresh: vec![KeyCode::Digit(4)] });
    layer_hotkeys(&shifted, &mut layers);
    assert_eq!(layers.active(), CircuitLayer::Power);
    assert!(!layers.is_visible(CircuitLayer::Mechanical));
    layer_hotkeys(&shifted, &mut layers);
    assert!(layers.is_visible(CircuitLayer::Mechanical));
    layer_hotkeys(&None, &mut layers);
    layer_hotkeys(&fresh(vec![KeyCode::Digit(5)]), &mut layers);
    assert_eq!(layers.active(), CircuitLayer::Power);
}

#[test]
fn edges_hide_with_either_end() {
    let mut layers = LayerManager::default();
    index_node_layers(&mut layers, &vec![(1, OnLayer { id: 1 }), (2, OnLayer { id: 2 })]);
    layers.set_visible(CircuitLayer::Power, false);
    let nodes = vec![
        (1, OnLayer { id: 1 }, Visibility::Inherited),
        (2, OnLayer { id: 2 }, Visibility::Visible),
        (3, OnLayer { id: 7 }, Visibility::Visible),
        (4, OnLayer { id: 2 }, Visibility::Hidden),
    ];
    assert_eq!(
        apply_node_visibility(&layers, true, &nodes),
        vec![(1, Visibility::Visible), (2, Visibility::Hidden)]
    );
    assert!(apply_node_visibility(&layers, false, &nodes).is_empty());
    let edges = vec![
        (EdgeRow { edge: 5, from: 1, to: 2 }, Some(Visibility::Visible)),
        (EdgeRow { edge: 6, from: 1, to: 9 }, Some(Visibility::Hidden)),
        (EdgeRow { edge: 7, from: 2, to: 1 }, None),
        (EdgeRow { edge: 8, from: 2, to: 9 }, Some(Visibility::Hidden)),
    ];
    assert_eq!(
        apply_edge_visibility(&layers, true, &edges),
        vec![(5, Visibility::Hidden), (6, Visibility::Visible)]
    );
    assert!(apply_edge_visibility(&layers, false, &edges).is_empty());
}

#[test]
fn every_layer_has_a_grid() {
    let mut grid = GridManager::new(1, 2, 3, 4);
    let found: Vec<i32> = CircuitLayer::all().into_iter().map(|l| *grid.layout(l)).collect();
    assert_eq!(found, vec![1, 2, 3, 4]);
    grid.set_layout(CircuitLayer::Ground, 30);
    assert_eq!(*grid.layout(CircuitLayer::Ground), 30);
    assert_eq!(*grid.layout(CircuitLayer::Power), 2);
}

#[test]
fn snapping_can_be_switched_off() {
    let mut grid = GridManager::new((), (), (), ());
    let mut layers = LayerManager::default();
    let mut tags = HashMap::new();
    tags.insert(1, OnLayer { id: 2 });
    tags.insert(2, OnLayer { id: 8 });
    assert!(grid.snap_enabled());
    assert_eq!(
        snap_on_drag_end(&grid, &vec![1, 2, 3, 1], &tags),
        vec![(1, CircuitLayer::Power), (1, CircuitLayer::Power)]
    );
    assert_eq!(preview_layer(&grid, &layers), Some(CircuitLayer::Signal));
    layers.set_visible(CircuitLayer::Signal, false);
    assert_eq!(preview_layer(&grid, &layers), None);
    assert_eq!(
        grid_planes(&layers),
        vec![
            (CircuitLayer::Power, false),
            (CircuitLayer::Ground, false),
            (CircuitLayer::Mechanical, false),
        ]
    );
    layers.set_active(CircuitLayer::Ground);
    assert_eq!(grid_planes(&layers)[1], (CircuitLayer::Ground, true));
    snap_hotkey(&fresh(vec![KeyCode::Letter('Q')]), &mut grid);
    assert!(!grid.snap_enabled());
    assert!(snap_on_drag_end(&grid, &vec![1], &tags).is_empty());
    assert_eq!(preview_layer(&grid, &layers), None);
    assert!(grid.toggle_snap());
}

#[test]
fn components_are_placed() {
    let everywhere = LayerHits {
        signal: Some(at(1.0, 0.0, 2.0)),
        power: None,
        ground: None,
        mechanical: None,
    };
    let spot = at(-2.5, 9.0, 4.0);
    let commands = vec![
        PlaceCommand::SpawnAt {
            position: spot,
            kind: ComponentKind::Capacitor,
            layer: CircuitLayer::Power,
        },
        PlaceCommand::SpawnAtCursor {
            kind: ComponentKind::Ground,
            layer: CircuitLayer::Signal,
        },
        PlaceCommand::SpawnAtCursor { kind: ComponentKind::Ground, layer: CircuitLayer::Power },
    ];
    let made = handle_place_commands(Tool::Place, &commands, Some(everywhere), true);
    let first = made[0].as_ref().unwrap();
    assert_eq!((first.x, first.z), (spot.x, spot.z));
    assert_eq!(first.tag.layer(), Some(CircuitLayer::Power));
    assert_eq!(first.preset, Preset::Capacitor { microfarads: 1 });
    assert!(first.snap);
    assert_eq!(made[1].as_ref().unwrap().z, 2.0f32.to_bits());
    assert_eq!(
        made[2],
        Err("Place::SpawnAtCursor: no cursor / camera ray / layer plane intersection"
            .to_string())
    );
    let headless = handle_place_commands(Tool::Place, &commands, None, false);
    assert!(headless[0].is_ok());
    assert_eq!(
        headless[1],
        Err("Place::SpawnAtCursor: picking pipeline not present (headless?)".to_string())
    );
    assert!(handle_place_commands(Tool::Select, &commands, None, false).is_empty());
    assert_eq!(
        spawned_event(5, first),
        PlaceEvent::ComponentSpawned {
            entity: 5,
            kind: ComponentKind::Capacitor,
            layer: CircuitLayer::Power,
        }
    );
}

#[test]
fn presets_are_not_the_defaults() {
    let preset = |kind| spawn_component(at(0.0, 0.0, 0.0), kind, CircuitLayer::Signal).preset;
    assert_eq!(preset(ComponentKind::Resistor), Preset::Resistor { ohms: 1000 });
    assert_eq!(preset(ComponentKind::Inductor), Preset::Inductor { millihenries: 1 });
    assert_eq!(preset(ComponentKind::VoltageSource), Preset::VoltageSource { volts: 5 });
    assert_eq!(preset(ComponentKind::Ground), Preset::Ground);
    assert_eq!(ground_label(), "GND");
    assert_eq!(
        ComponentKind::all(),
        vec![
            ComponentKind::Resistor,
            ComponentKind::Capacitor,
            ComponentKind::Inductor,
            ComponentKind::VoltageSource,
            ComponentKind::Ground,
        ]
    );
}

#[test]
fn canvas_clicks_place_on_the_active_layer() {
    let mut layers = LayerManager::default();
    layers.set_active(CircuitLayer::Mechanical);
    let click = |tool, busy| {
        handle_canvas_clicks(tool, Some(true), &vec![busy], ComponentKind::Inductor, &layers)
    };
    assert!(matches!(
        click(Tool::Place, Interaction::Idle),
        Some(AppCommand::Tool(ToolCommand::Place(PlaceCommand::SpawnAtCursor {
            kind: ComponentKind::Inductor,
            layer: CircuitLayer::Mechanical,
        })))
    ));
    assert!(click(Tool::Place, Interaction::Hovered).is_none());
    assert!(click(Tool::Select, Interaction::Idle).is_none());
}

#[test]
fn commands_reach_the_desk() {
    let mut desk = Desk::default();
    dispatch_app_commands(
        vec![
            AppCommand::SetTool(Tool::Place),
            AppCommand::SetTool(Tool::Connect),
            AppCommand::SetWireKind(CircuitEdgeKind::SameNet),
            AppCommand::SetComponentKind(ComponentKind::Ground),
            AppCommand::SetActiveLayer(CircuitLayer::Power),
            AppCommand::Tool(ToolCommand::Select(SelectCommand::ClearSelection)),
            AppCommand::Tool(ToolCommand::Place(PlaceCommand::SpawnAtCursor {
                kind: ComponentKind::Ground,
                layer: CircuitLayer::Power,
            })),
            AppCommand::Tool(ToolCommand::Connect(ConnectCommand::Cancel)),
            AppCommand::Graph(GraphCommandExt::SpawnComponent {
                position: at(1.0, 2.0, 3.0),
                kind: ComponentKind::Resistor,
                layer: CircuitLayer::Ground,
            }),
            AppCommand::Graph(GraphCommandExt::Connect {
                from: id(1),
                to: id(2),
                kind: CircuitEdgeKind::DifferentialPair,
            }),
            AppCommand::Graph(GraphCommandExt::Disconnect { from: id(2), to: id(1) }),
            AppCommand::Graph(GraphCommandExt::RemoveNode { id: id(1) }),
            AppCommand::Graph(GraphCommandExt::RemoveEdge { id: id(5) }),
            AppCommand::Sync(SyncCommand::RestoreFromSnapshot),
        ],
        &index(),
        &vec![EdgeRow { edge: 50, from: 20, to: 10 }],
        &mut desk,
    );
    assert_eq!(desk.next_tool, Some(Tool::Connect));
    assert_eq!(desk.connect_kind, CircuitEdgeKind::SameNet);
    assert_eq!(desk.place_kind, ComponentKind::Ground);
    assert_eq!(desk.layers.active(), CircuitLayer::Power);
    assert_eq!((desk.select.len(), desk.place.len(), desk.connect.len()), (1, 1, 1));
    let spawn =
        spawn_component(at(1.0, 2.0, 3.0), ComponentKind::Resistor, CircuitLayer::Ground);
    assert!(!spawn.snap);
    assert_eq!(
        desk.effects,
        vec![
            Effect::Spawn(spawn),
            Effect::SpawnEdge { from: 10, to: 20, kind: CircuitEdgeKind::DifferentialPair },
            Effect::Despawn { entity: 50 },
            Effect::Despawn { entity: 50 },
            Effect::Despawn { entity: 10 },
        ]
    );
    assert_eq!(desk.events.len(), 2);
    assert!(matches!(&desk.events[1], AppEvent::CommandError { message }
        if message == "Sync control commands not yet wired in the transport"));
}

#[test]
fn circuit_tool_events_are_forwarded() {
    let mut events: Vec<AppEvent> = Vec::new();
    forward_tool_events(
        vec![SelectEvent::SelectionCleared],
        &vec![PlaceEvent::ComponentSpawned {
            entity: 1,
            kind: ComponentKind::Resistor,
            layer: CircuitLayer::Signal,
        }],
        &vec![ConnectEvent::Cancelled],
        &mut events,
    );
    assert!(matches!(events[0], AppEvent::Tool(ToolEvent::Select(_))));
    assert!(matches!(events[1], AppEvent::Tool(ToolEvent::Place(_))));
    assert!(matches!(events[2], AppEvent::Tool(ToolEvent::Connect(_))));
    let mut last = Some(Tool::Select);
    emit_tool_changed(Tool::Place, &mut last, &mut events);
    assert!(matches!(events[3], AppEvent::Tool(ToolEvent::Switched { tool: Tool::Place })));
}

#[test]
fn clicking_connects_components() {
    let index = index();
    let mut connect = ConnectState::default();
    let (mut commands, mut events, mut told) = (Vec::new(), Vec::new(), Vec::new());
    let mut go = |tool, target: u64, connect: &mut ConnectState| {
        on_node_clicked_for_connect(
            tool, true, target, CircuitEdgeKind::Wire, &index, connect, &mut commands,
            &mut events, &mut told,
        )
    };
    go(Tool::Select, 10, &mut connect);
    go(Tool::Connect, 10, &mut connect);
    go(Tool::Connect, 99, &mut connect);
    go(Tool::Connect, 20, &mut connect);
    go(Tool::Connect, 20, &mut connect);
    go(Tool::Connect, 20, &mut connect);
    connect.from = Some(99);
    go(Tool::Connect, 20, &mut connect);
    assert!(matches!(
        commands[..],
        [AppCommand::Graph(GraphCommandExt::Connect { from, to, kind: CircuitEdgeKind::Wire })]
            if from == id(1) && to == id(2)
    ));
    assert_eq!(
        told,
        vec![
            ConnectEvent::Armed { from: id(1) },
            ConnectEvent::Completed { from: id(1), to: id(2) },
            ConnectEvent::Armed { from: id(2) },
            ConnectEvent::Cancelled,
        ]
    );
    assert!(matches!(&events[0], AppEvent::CommandError { message }
        if message == "Connect: target component has no CrdtId yet"));
    assert!(matches!(&events[1], AppEvent::CommandError { message }
        if message == "Connect: armed component has no CrdtId yet"));
}

#[test]
fn components_are_selected_and_deleted() {
    let index = index();
    let shift = Some(Keys { held: vec![KeyCode::ShiftLeft], fresh: vec![] });
    assert!(matches!(
        on_node_clicked_for_select(Tool::Select, true, 20, &shift, &index),
        Some(AppCommand::Tool(ToolCommand::Select(SelectCommand::Toggle { target })))
            if target == id(2)
    ));
    let delete = fresh(vec![KeyCode::Delete]);
    assert_eq!(handle_delete_key(Tool::Select, &delete, &vec![10, 20, 99], &index).len(), 2);
    assert!(handle_delete_key(Tool::Place, &delete, &vec![10], &index).is_empty());
}

#[test]
fn circuit_shortcuts_switch_tools() {
    assert_eq!(Tool::Place.label(), "Place");
    assert_eq!(Tool::Place.shortcut(), Some("P"));
    assert_eq!(keycode_from_letter("v"), Some(KeyCode::Letter('V')));
    assert_eq!(keycode_from_letter("vv"), None);
    assert_eq!(keycode_from_letter("?"), None);
    let keys = Keys { held: vec![], fresh: vec![KeyCode::Letter('P')] };
    assert!(matches!(dispatch_hotkeys(&keys)[..], [AppCommand::SetTool(Tool::Place)]));
}

#[test]
fn the_circuit_toolbar() {
    let items = spawn_toolbar();
    assert_eq!(items.len(), 18);
    assert_eq!(items[4], ToolbarItem::Component(ComponentKind::Resistor));
    assert_eq!(items[17], ToolbarItem::Layer(CircuitLayer::Mechanical));
    assert!(matches!(
        handle_button_clicks(&vec![(Interaction::Pressed, Tool::Connect)])[..],
        [AppCommand::SetTool(Tool::Connect)]
    ));
    assert!(matches!(
        handle_component_kind_clicks(&vec![(Interaction::Pressed, ComponentKind::Inductor)])[..],
        [
            AppCommand::SetTool(Tool::Place),
            AppCommand::SetComponentKind(ComponentKind::Inductor)
        ]
    ));
    assert!(matches!(
        handle_wire_kind_clicks(&vec![(Interaction::Pressed, CircuitEdgeKind::SameNet)])[..],
        [
            AppCommand::SetTool(Tool::Connect),
            AppCommand::SetWireKind(CircuitEdgeKind::SameNet)
        ]
    ));
    assert!(matches!(
        handle_layer_clicks(&vec![
            (Interaction::Idle, CircuitLayer::Signal),
            (Interaction::Pressed, CircuitLayer::Ground),
        ])[..],
        [AppCommand::SetActiveLayer(CircuitLayer::Ground)]
    ));
    assert_eq!(
        sync_button_visuals(Tool::Place, &vec![(Interaction::Hovered, Tool::Place)]),
        vec![ButtonLook::Active]
    );
    let kinds = vec![(Interaction::Hovered, ComponentKind::Resistor)];
    assert_eq!(
        sync_component_kind_visuals(Tool::Place, ComponentKind::Resistor, &kinds),
        vec![ButtonLook::Active]
    );
    assert_eq!(
        sync_component_kind_visuals(Tool::Select, ComponentKind::Resistor, &kinds),
        vec![ButtonLook::Hover]
    );
    let wires = vec![(Interaction::Idle, CircuitEdgeKind::Wire)];
    assert_eq!(
        sync_wire_kind_visuals(Tool::Connect, CircuitEdgeKind::Wire, &wires),
        vec![ButtonLook::Active]
    );
    assert_eq!(
        sync_layer_visuals(
            &LayerManager::default(),
            &vec![
                (Interaction::Idle, CircuitLayer::Signal),
                (Interaction::Idle, CircuitLayer::Power),
            ]
        ),
        vec![ButtonLook::Active, ButtonLook::Normal]
    );
}

#[test]
fn edge_kinds_have_markers() {
    for kind in CircuitEdgeKind::all() {
        assert_eq!(drawn_kind(marker_for(kind)), kind);
    }
    let bare = EdgeMarkers { wire: false, same_net: false, differential_pair: false };
    assert_eq!(drawn_kind(bare), CircuitEdgeKind::Wire);
}

#[test]
fn components_look_their_kind() {
    let none = ComponentTags {
        resistor: false,
        capacitor: false,
        inductor: false,
        voltage_source: false,
        ground: false,
    };
    let bits = |v: f32| v.to_bits();
    let cases = [
        (
            ComponentTags { resistor: true, ground: true, ..none },
            Solid::Cuboid { x: bits(0.9), y: bits(0.3), z: bits(0.3) },
            rgb(0.85, 0.55, 0.20),
        ),
        (
            ComponentTags { capacitor: true, ..none },
            Solid::Cylinder { radius: bits(0.25), height: bits(0.5) },
            rgb(0.30, 0.55, 0.95),
        ),
        (
            ComponentTags { inductor: true, ..none },
            Solid::Cylinder { radius: bits(0.22), height: bits(0.9) },
            rgb(0.60, 0.30, 0.85),
        ),
        (
            ComponentTags { voltage_source: true, ..none },
            Solid::Sphere { radius: bits(0.32) },
            rgb(0.95, 0.30, 0.30),
        ),
        (
            ComponentTags { ground: true, ..none },
            Solid::Cone { radius: bits(0.32), height: bits(0.45) },
            rgb(0.50, 0.50, 0.55),
        ),
        (
            none,
            Solid::Cuboid { x: bits(0.3), y: bits(0.3), z: bits(0.3) },
            rgb(0.85, 0.86, 0.90),
        ),
    ];
    for (tags, solid, color) in cases {
        assert_eq!(component_mesh(tags), solid);
        assert_eq!(component_color(tags), color);
    }
}

#[test]
fn nodes_rise_to_their_layer_and_lines_follow() {
    assert_eq!(
        sync_layer_y(&vec![(1, OnLayer { id: 4 }), (2, OnLayer { id: 0 })]),
        vec![(1, CircuitLayer::Mechanical)]
    );
    let (a, b) = (at(0.0, 1.0, 2.0), at(3.0, 4.0, 5.0));
    assert_eq!(update_polyline_endpoints(Some(a), Some(b), &vec![]), Some((a, b)));
    assert_eq!(update_polyline_endpoints(Some(a), Some(b), &vec![at(-0.0, 1.0, 2.0), b]), None);
    assert_eq!(update_polyline_endpoints(None, Some(b), &vec![]), None);
    assert_eq!(update_polyline_endpoints(Some(b), Some(a), &vec![a, b]), Some((b, a)));
}
