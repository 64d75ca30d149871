//! The commands and events of the design editor.
use vstd::prelude::*;

use crate::client::tool::Tool;
use crate::client::tool::ToolCommand;
use crate::client::tool::ToolEvent;
use crate::client::tool::ToolEventView;
use crate::client::weave::WeaveEdgeKind;
use crate::editor::msg::ExternalId;
use crate::editor::msg::SyncCommand;
use crate::geometry::Pos2;

verus! {

/// What happened, as told to the outside.
pub type AppEvent = crate::editor::msg::AppEvent<ToolEvent, Pos2>;

pub type AppEventView = crate::editor::msg::AppEventView<ToolEventView, Pos2>;

/// Changes to the replicated graph.
#[derive(Clone, Copy, Debug, PartialEq, Eq, Structural)]
pub enum GraphCommandExt {
    Connect { from: ExternalId, to: ExternalId, kind: WeaveEdgeKind },
    /// Remove the edge between two nodes, whatever its kind.
    Disconnect { from: ExternalId, to: ExternalId },
    /// Remove a node and the edges that end at it.
    RemoveNode { id: ExternalId },
    RemoveEdge { id: ExternalId },
}

/// What the outside can ask of the editor.
#[derive(Debug)]
pub enum AppCommand {
    SetTool(Tool),
    /// Choose the kind of the next relation drawn.
    SetConnectKind(WeaveEdgeKind),
    Tool(ToolCommand),
    Graph(GraphCommandExt),
    Sync(SyncCommand),
}

} // verus!
