//! The commands and events of the circuit editor.
use vstd::prelude::*;

use crate::circuit::kinds::CircuitEdgeKind;
use crate::circuit::kinds::CircuitLayer;
use crate::circuit::kinds::ComponentKind;
use crate::circuit::tool::Tool;
use crate::circuit::tool::ToolCommand;
use crate::circuit::tool::ToolEvent;
use crate::circuit::tool::ToolEventView;
use crate::editor::msg::ExternalId;
use crate::editor::msg::SyncCommand;
use crate::geometry::Pos3;

verus! {

/// What happened, as told to the outside.
pub type AppEvent = crate::editor::msg::AppEvent<ToolEvent, Pos3>;

pub type AppEventView = crate::editor::msg::AppEventView<ToolEventView, Pos3>;

/// Changes to the replicated graph.
#[derive(Clone, Copy, Debug, PartialEq, Eq, Structural)]
pub enum GraphCommandExt {
    /// Spawn a component on a layer.
    SpawnComponent { position: Pos3, kind: ComponentKind, layer: CircuitLayer },
    Connect { from: ExternalId, to: ExternalId, kind: CircuitEdgeKind },
    /// Remove the edge between two nodes, whatever its kind.
    Disconnect { from: ExternalId, to: ExternalId },
    /// Remove a node and the edges that end at it.
    RemoveNode { id: ExternalId },
    RemoveEdge { id: ExternalId },
}

/// What the outside can ask of the editor.
#[derive(Debug)]
pub enum AppCommand {
    SetTool(Tool),
    /// Choose the kind of the next edge drawn.
    SetWireKind(CircuitEdgeKind),
    /// Choose the kind of the next component placed.
    SetComponentKind(ComponentKind),
    /// Choose the layer of the next component placed.
    SetActiveLayer(CircuitLayer),
    Tool(ToolCommand),
    Graph(GraphCommandExt),
    Sync(SyncCommand),
}

} // verus!
