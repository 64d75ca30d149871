//! The place tool: where components are spawned, and with what.
use vstd::prelude::*;

use crate::circuit::kinds::layer_with_id;
use crate::circuit::kinds::CircuitLayer;
use crate::circuit::kinds::ComponentKind;
use crate::circuit::kinds::OnLayer;
use crate::circuit::layer_manager::LayerManager;
use crate::circuit::msg::AppCommand;
use crate::circuit::tool::PlaceCommand;
use crate::circuit::tool::PlaceEvent;
use crate::circuit::tool::Tool;
use crate::circuit::tool::ToolCommand;
use crate::editor::keys::canvas_clicked;
use crate::editor::keys::pointer_busy;
use crate::editor::keys::Interaction;
use crate::geometry::Pos3;

verus! {

/// The value with which a component starts. None of them is the default of its
/// kind, so that each is replicated to the peers.
#[derive(Clone, Copy, Debug, PartialEq, Eq, Structural)]
pub enum Preset {
    Resistor { ohms: u32 },
    Capacitor { microfarads: u32 },
    Inductor { millihenries: u32 },
    VoltageSource { volts: u32 },
    /// Labelled as [`ground_label`] says.
    Ground,
}

pub open spec fn preset_of(kind: ComponentKind) -> Preset {
    match kind {
        ComponentKind::Resistor => Preset::Resistor { ohms: 1000 },
        ComponentKind::Capacitor => Preset::Capacitor { microfarads: 1 },
        ComponentKind::Inductor => Preset::Inductor { millihenries: 1 },
        ComponentKind::VoltageSource => Preset::VoltageSource { volts: 5 },
        ComponentKind::Ground => Preset::Ground,
    }
}

/// The label of a new ground reference.
pub fn ground_label() -> (r: &'static str)
    ensures
        r@ == "GND"@,
{
    "GND"
}

/// A component to be spawned. Its height is that of its layer; `x` and `z` are
/// moved to the centre of a grid cell where `snap` is set.
#[derive(Clone, Copy, Debug, PartialEq, Eq, Structural)]
pub struct ComponentSpawn {
    pub x: u32,
    pub z: u32,
    pub layer: CircuitLayer,
    pub tag: OnLayer,
    pub kind: ComponentKind,
    pub preset: Preset,
    pub snap: bool,
}

/// The component of `kind` at `position` on `layer`; the height given in the
/// position does not matter.
pub open spec fn component_at(
    position: Pos3,
    kind: ComponentKind,
    layer: CircuitLayer,
    snap: bool,
) -> ComponentSpawn {
    ComponentSpawn {
        x: position.x,
        z: position.z,
        layer,
        tag: OnLayer { id: (layer.spec_slot() + 1) as u32 },
        kind,
        preset: preset_of(kind),
        snap,
    }
}

/// A component at the very position given.
pub fn spawn_component(position: Pos3, kind: ComponentKind, layer: CircuitLayer) -> (r:
    ComponentSpawn)
    ensures
        r == component_at(position, kind, layer, false),
        layer_with_id(r.tag.id) == Some(layer),
{
    spawn_component_with_grid(position, kind, layer, false)
}

/// A component that snaps to the grid of its layer, where there is one.
pub fn spawn_component_with_grid(
    position: Pos3,
    kind: ComponentKind,
    layer: CircuitLayer,
    has_grid: bool,
) -> (r: ComponentSpawn)
    ensures
        r == component_at(position, kind, layer, has_grid),
        layer_with_id(r.tag.id) == Some(layer),
{
    let preset = match kind {
        ComponentKind::Resistor => Preset::Resistor { ohms: 1000 },
        ComponentKind::Capacitor => Preset::Capacitor { microfarads: 1 },
        ComponentKind::Inductor => Preset::Inductor { millihenries: 1 },
        ComponentKind::VoltageSource => Preset::VoltageSource { volts: 5 },
        ComponentKind::Ground => Preset::Ground,
    };
    ComponentSpawn {
        x: position.x,
        z: position.z,
        layer,
        tag: OnLayer::new(layer),
        kind,
        preset,
        snap: has_grid,
    }
}

/// Where the pointer's ray meets the plane of each layer, as far as it does.
#[derive(Clone, Copy, Debug, PartialEq, Eq, Structural)]
pub struct LayerHits {
    pub signal: Option<Pos3>,
    pub power: Option<Pos3>,
    pub ground: Option<Pos3>,
    pub mechanical: Option<Pos3>,
}

impl LayerHits {
    pub open spec fn spec_on(self, layer: CircuitLayer) -> Option<Pos3> {
        match layer {
            CircuitLayer::Signal => self.signal,
            CircuitLayer::Power => self.power,
            CircuitLayer::Ground => self.ground,
            CircuitLayer::Mechanical => self.mechanical,
        }
    }

    pub fn on(&self, layer: CircuitLayer) -> (r: Option<Pos3>)
        ensures
            r == self.spec_on(layer),
    {
        match layer {
            CircuitLayer::Signal => self.signal,
            CircuitLayer::Power => self.power,
            CircuitLayer::Ground => self.ground,
            CircuitLayer::Mechanical => self.mechanical,
        }
    }
}

/// What comes of a command to the place tool: a component to spawn, or the text
/// of an error. `hits` is there only where the pointer is tracked at all.
pub open spec fn placed(
    command: PlaceCommand,
    hits: Option<LayerHits>,
    has_grid: bool,
) -> Result<ComponentSpawn, Seq<char>> {
    match command {
        PlaceCommand::SpawnAt { position, kind, layer } => Ok(
            component_at(position, kind, layer, has_grid),
        ),
        PlaceCommand::SpawnAtCursor { kind, layer } => match hits {
            None => Err("Place::SpawnAtCursor: picking pipeline not present (headless?)"@),
            Some(h) => match h.spec_on(layer) {
                None => Err(
                    "Place::SpawnAtCursor: no cursor / camera ray / layer plane intersection"@,
                ),
                Some(position) => Ok(component_at(position, kind, layer, has_grid)),
            },
        },
    }
}

pub open spec fn placing_view(r: Result<ComponentSpawn, String>) -> Result<
    ComponentSpawn,
    Seq<char>,
> {
    match r {
        Ok(spawn) => Ok(spawn),
        Err(text) => Err(text@),
    }
}

fn place_one(command: PlaceCommand, hits: Option<LayerHits>, has_grid: bool) -> (r: Result<
    ComponentSpawn,
    String,
>)
    ensures
        placing_view(r) == placed(command, hits, has_grid),
{
    match command {
        PlaceCommand::SpawnAt { position, kind, layer } => Ok(
            spawn_component_with_grid(position, kind, layer, has_grid),
        ),
        PlaceCommand::SpawnAtCursor { kind, layer } => match hits {
            None => Err(
                "Place::SpawnAtCursor: picking pipeline not present (headless?)".to_owned(),
            ),
            Some(h) => match h.on(layer) {
                None => Err(
                    "Place::SpawnAtCursor: no cursor / camera ray / layer plane intersection".to_owned(),
                ),
                Some(position) => Ok(spawn_component_with_grid(position, kind, layer, has_grid)),
            },
        },
    }
}

/// Carries out commands to the place tool, one result for each. While another
/// tool is active they come to nothing.
pub fn handle_place_commands(
    tool: Tool,
    commands: &Vec<PlaceCommand>,
    hits: Option<LayerHits>,
    has_grid: bool,
) -> (r: Vec<Result<ComponentSpawn, String>>)
    ensures
        r@.len() == (if tool == Tool::Place {
            commands@.len()
        } else {
            0
        }),
        forall|i: int|
            0 <= i < r@.len() ==> placing_view(#[trigger] r@[i]) == placed(
                commands@[i],
                hits,
                has_grid,
            ),
{
    let mut r: Vec<Result<ComponentSpawn, String>> = Vec::new();
    if tool != Tool::Place {
        return r;
    }
    let mut i: usize = 0;
    while i < commands.len()
        invariant
            i <= commands@.len(),
            r@.len() == i,
            forall|k: int|
                0 <= k < i ==> placing_view(#[trigger] r@[k]) == placed(
                    commands@[k],
                    hits,
                    has_grid,
                ),
        decreases commands@.len() - i,
    {
        r.push(place_one(commands[i], hits, has_grid));
        i = i + 1;
    }
    r
}

/// The event that tells of a component once it has an entity.
pub fn spawned_event(entity: u64, spawn: &ComponentSpawn) -> (r: PlaceEvent)
    ensures
        r == (PlaceEvent::ComponentSpawned { entity, kind: spawn.kind, layer: spawn.layer }),
{
    PlaceEvent::ComponentSpawned { entity, kind: spawn.kind, layer: spawn.layer }
}

/// With the place tool, a left click on the canvas asks for a component of the chosen kind under the
/// pointer, on the active layer. A click on the user interface does not count.
pub fn handle_canvas_clicks(
    tool: Tool,
    just_pressed: Option<bool>,
    interactions: &Vec<Interaction>,
    kind: ComponentKind,
    layers: &LayerManager,
) -> (r: Option<AppCommand>)
    ensures
        r == (if tool == Tool::Place && just_pressed == Some(true) && !pointer_busy(interactions@) {
            Some(
                AppCommand::Tool(
                    ToolCommand::Place(
                        PlaceCommand::SpawnAtCursor { kind, layer: layers@.active },
                    ),
                ),
            )
        } else {
            None
        }),
{
    if tool == Tool::Place && canvas_clicked(just_pressed, interactions) {
        Some(
            AppCommand::Tool(
                ToolCommand::Place(PlaceCommand::SpawnAtCursor { kind, layer: layers.active() }),
            ),
        )
    } else {
        None
    }
}

// ---------------------------------------------------------------------------
// Laws
// ---------------------------------------------------------------------------

/// A component starts with the value of its own kind: 1000 ohms, 1 microfarad,
/// 1 millihenry or 5 volts; a ground has none.
pub proof fn presets_go_with_kinds(kind: ComponentKind)
    ensures
        match kind {
            ComponentKind::Resistor => preset_of(kind) matches Preset::Resistor { ohms } && ohms
                == 1000,
            ComponentKind::Capacitor => preset_of(kind) matches Preset::Capacitor { microfarads }
                && microfarads == 1,
            ComponentKind::Inductor => preset_of(kind) matches Preset::Inductor { millihenries }
                && millihenries == 1,
            ComponentKind::VoltageSource => preset_of(kind) matches Preset::VoltageSource { volts }
                && volts == 5,
            ComponentKind::Ground => preset_of(kind) == Preset::Ground,
        },
{
}

/// A component to be spawned lies at the given place on the given layer, carries
/// the tag that names this layer and the value of its kind, and snaps exactly
/// where it was to.
pub proof fn component_is_as_asked(
    position: Pos3,
    kind: ComponentKind,
    layer: CircuitLayer,
    snap: bool,
)
    ensures
        ({
            let c = component_at(position, kind, layer, snap);
            &&& c.x == position.x
            &&& c.z == position.z
            &&& c.layer == layer
            &&& layer_with_id(c.tag.id) == Some(layer)
            &&& c.kind == kind
            &&& c.preset == preset_of(kind)
            &&& c.snap == snap
        }),
{
}

/// A command to the place tool gives the component that it asks for: at the
/// position named, or where the pointer's ray meets the plane of the layer
/// named. Without a pointer, or where the ray misses that plane, the command that
/// needs it fails and says why.
pub proof fn placed_component_is_as_asked(
    position: Pos3,
    kind: ComponentKind,
    layer: CircuitLayer,
    hits: Option<LayerHits>,
    has_grid: bool,
)
    ensures
        ({
            let at = placed(PlaceCommand::SpawnAt { position, kind, layer }, hits, has_grid);
            &&& at matches Ok(c) && c.x == position.x && c.z == position.z && c.layer == layer
                && c.kind == kind && c.snap == has_grid
        }),
        ({
            let here = placed(PlaceCommand::SpawnAtCursor { kind, layer }, hits, has_grid);
            let hit = match hits {
                Some(h) => match layer {
                    CircuitLayer::Signal => h.signal,
                    CircuitLayer::Power => h.power,
                    CircuitLayer::Ground => h.ground,
                    CircuitLayer::Mechanical => h.mechanical,
                },
                None => None,
            };
            &&& here is Ok <==> hit is Some
            &&& hit is Some ==> (here matches Ok(c) && c.x == hit->0.x && c.z == hit->0.z && c.layer
                == layer && c.kind == kind && c.snap == has_grid)
            &&& hits is None ==> here->Err_0
                == "Place::SpawnAtCursor: picking pipeline not present (headless?)"@
            &&& hits is Some && hit is None ==> here->Err_0
                == "Place::SpawnAtCursor: no cursor / camera ray / layer plane intersection"@
        }),
{
}

} // verus!
