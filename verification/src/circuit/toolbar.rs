//! The toolbar of the circuit editor: tools, component kinds, edge kinds and
//! layers.
use vstd::prelude::*;

use crate::circuit::kinds::all_components;
use crate::circuit::kinds::all_layers;
use crate::circuit::kinds::all_wires;
use crate::circuit::kinds::CircuitEdgeKind;
use crate::circuit::kinds::CircuitLayer;
use crate::circuit::kinds::ComponentKind;
use crate::circuit::layer_manager::LayerManager;
use crate::circuit::msg::AppCommand;
use crate::circuit::tool::all_tools;
use crate::circuit::tool::Tool;
use crate::editor::keys::ButtonLook;
use crate::editor::keys::Interaction;
use crate::editor::toolbar::button_looks;
use crate::editor::toolbar::looks;
use crate::editor::toolbar::pressed;
use crate::editor::toolbar::pressed_buttons;
use crate::table::TableKey;

verus! {

impl TableKey for ComponentKind {
    fn same_key(&self, other: &Self) -> (r: bool) {
        *self == *other
    }
}

impl TableKey for CircuitEdgeKind {
    fn same_key(&self, other: &Self) -> (r: bool) {
        *self == *other
    }
}

/// What stands on the toolbar.
#[derive(Clone, Copy, Debug, PartialEq, Eq, Structural)]
pub enum ToolbarItem {
    Tool(Tool),
    Component(ComponentKind),
    Wire(CircuitEdgeKind),
    Layer(CircuitLayer),
    Divider,
}

/// The toolbar from left to right: the tools, the component kinds, the edge
/// kinds and the layers, with a divider between each two groups.
pub open spec fn toolbar_items() -> Seq<ToolbarItem> {
    all_tools().map_values(|t: Tool| ToolbarItem::Tool(t)) + seq![ToolbarItem::Divider]
        + all_components().map_values(|k: ComponentKind| ToolbarItem::Component(k))
        + seq![ToolbarItem::Divider] + all_wires().map_values(
        |k: CircuitEdgeKind| ToolbarItem::Wire(k),
    ) + seq![ToolbarItem::Divider] + all_layers().map_values(
        |l: CircuitLayer| ToolbarItem::Layer(l),
    )
}

/// The items of the toolbar.
pub fn spawn_toolbar() -> (r: Vec<ToolbarItem>)
    ensures
        r@ == toolbar_items(),
{
    let r = vec![
        ToolbarItem::Tool(Tool::Select),
        ToolbarItem::Tool(Tool::Place),
        ToolbarItem::Tool(Tool::Connect),
        ToolbarItem::Divider,
        ToolbarItem::Component(ComponentKind::Resistor),
        ToolbarItem::Component(ComponentKind::Capacitor),
        ToolbarItem::Component(ComponentKind::Inductor),
        ToolbarItem::Component(ComponentKind::VoltageSource),
        ToolbarItem::Component(ComponentKind::Ground),
        ToolbarItem::Divider,
        ToolbarItem::Wire(CircuitEdgeKind::Wire),
        ToolbarItem::Wire(CircuitEdgeKind::SameNet),
        ToolbarItem::Wire(CircuitEdgeKind::DifferentialPair),
        ToolbarItem::Divider,
        ToolbarItem::Layer(CircuitLayer::Signal),
        ToolbarItem::Layer(CircuitLayer::Power),
        ToolbarItem::Layer(CircuitLayer::Ground),
        ToolbarItem::Layer(CircuitLayer::Mechanical),
    ];
    assert(r@ =~= toolbar_items());
    r
}

/// The commands that switch to each of the tools.
pub open spec fn tool_choices(tools: Seq<Tool>) -> Seq<AppCommand> {
    tools.map_values(|t: Tool| AppCommand::SetTool(t))
}

/// A click on a tool's button switches to the tool.
pub fn handle_button_clicks(buttons: &Vec<(Interaction, Tool)>) -> (r: Vec<AppCommand>)
    ensures
        r@ == tool_choices(pressed(buttons@)),
{
    let tools = pressed_buttons(buttons);
    let mut r: Vec<AppCommand> = Vec::new();
    let mut i: usize = 0;
    assert(r@ =~= tool_choices(tools@.take(0)));
    while i < tools.len()
        invariant
            i <= tools@.len(),
            r@ == tool_choices(tools@.take(i as int)),
        decreases tools@.len() - i,
    {
        r.push(AppCommand::SetTool(tools[i]));
        i = i + 1;
        assert(r@ =~= tool_choices(tools@.take(i as int)));
    }
    assert(tools@.take(i as int) =~= tools@);
    r
}

/// For each component kind, the commands that switch to the place tool and
/// choose the kind.
pub open spec fn component_choices(kinds: Seq<ComponentKind>) -> Seq<AppCommand>
    decreases kinds.len(),
{
    if kinds.len() == 0 {
        Seq::empty()
    } else {
        component_choices(kinds.drop_last()).push(AppCommand::SetTool(Tool::Place)).push(
            AppCommand::SetComponentKind(kinds.last()),
        )
    }
}

/// A click on a component kind's button switches to the place tool and chooses
/// the kind.
pub fn handle_component_kind_clicks(buttons: &Vec<(Interaction, ComponentKind)>) -> (r: Vec<
    AppCommand,
>)
    ensures
        r@ == component_choices(pressed(buttons@)),
{
    let kinds = pressed_buttons(buttons);
    let mut r: Vec<AppCommand> = Vec::new();
    let mut i: usize = 0;
    while i < kinds.len()
        invariant
            i <= kinds@.len(),
            r@ == component_choices(kinds@.take(i as int)),
        decreases kinds@.len() - i,
    {
        r.push(AppCommand::SetTool(Tool::Place));
        r.push(AppCommand::SetComponentKind(kinds[i]));
        assert(kinds@.take(i + 1).drop_last() =~= kinds@.take(i as int));
        i = i + 1;
    }
    assert(kinds@.take(i as int) =~= kinds@);
    r
}

/// For each edge kind, the commands that switch to the connect tool and choose
/// the kind.
pub open spec fn wire_choices(kinds: Seq<CircuitEdgeKind>) -> Seq<AppCommand>
    decreases kinds.len(),
{
    if kinds.len() == 0 {
        Seq::empty()
    } else {
        wire_choices(kinds.drop_last()).push(AppCommand::SetTool(Tool::Connect)).push(
            AppCommand::SetWireKind(kinds.last()),
        )
    }
}

/// A click on an edge kind's button switches to the connect tool and chooses
/// the kind.
pub fn handle_wire_kind_clicks(buttons: &Vec<(Interaction, CircuitEdgeKind)>) -> (r: Vec<
    AppCommand,
>)
    ensures
        r@ == wire_choices(pressed(buttons@)),
{
    let kinds = pressed_buttons(buttons);
    let mut r: Vec<AppCommand> = Vec::new();
    let mut i: usize = 0;
    while i < kinds.len()
        invariant
            i <= kinds@.len(),
            r@ == wire_choices(kinds@.take(i as int)),
        decreases kinds@.len() - i,
    {
        r.push(AppCommand::SetTool(Tool::Connect));
        r.push(AppCommand::SetWireKind(kinds[i]));
        assert(kinds@.take(i + 1).drop_last() =~= kinds@.take(i as int));
        i = i + 1;
    }
    assert(kinds@.take(i as int) =~= kinds@);
    r
}

/// The commands that choose each of the layers.
pub open spec fn layer_choices(layers: Seq<CircuitLayer>) -> Seq<AppCommand> {
    layers.map_values(|l: CircuitLayer| AppCommand::SetActiveLayer(l))
}

/// A click on a layer's button chooses the layer, and leaves the tool alone.
pub fn handle_layer_clicks(buttons: &Vec<(Interaction, CircuitLayer)>) -> (r: Vec<AppCommand>)
    ensures
        r@ == layer_choices(pressed(buttons@)),
{
    let layers = pressed_buttons(buttons);
    let mut r: Vec<AppCommand> = Vec::new();
    let mut i: usize = 0;
    assert(r@ =~= layer_choices(layers@.take(0)));
    while i < layers.len()
        invariant
            i <= layers@.len(),
            r@ == layer_choices(layers@.take(i as int)),
        decreases layers@.len() - i,
    {
        r.push(AppCommand::SetActiveLayer(layers[i]));
        i = i + 1;
        assert(r@ =~= layer_choices(layers@.take(i as int)));
    }
    assert(layers@.take(i as int) =~= layers@);
    r
}

/// How the tools' buttons look.
pub fn sync_button_visuals(tool: Tool, buttons: &Vec<(Interaction, Tool)>) -> (r: Vec<ButtonLook>)
    ensures
        r@ == looks(Some(tool), buttons@),
{
    button_looks(Some(tool), buttons)
}

/// How the component kinds' buttons look: the chosen kind is active while the
/// place tool is.
pub fn sync_component_kind_visuals(
    tool: Tool,
    kind: ComponentKind,
    buttons: &Vec<(Interaction, ComponentKind)>,
) -> (r: Vec<ButtonLook>)
    ensures
        r@ == looks(
            if tool == Tool::Place {
                Some(kind)
            } else {
                None
            },
            buttons@,
        ),
{
    let active: Option<ComponentKind> = if tool == Tool::Place {
        Some(kind)
    } else {
        None
    };
    button_looks(active, buttons)
}

/// How the edge kinds' buttons look: the chosen kind is active while the
/// connect tool is.
pub fn sync_wire_kind_visuals(
    tool: Tool,
    kind: CircuitEdgeKind,
    buttons: &Vec<(Interaction, CircuitEdgeKind)>,
) -> (r: Vec<ButtonLook>)
    ensures
        r@ == looks(
            if tool == Tool::Connect {
                Some(kind)
            } else {
                None
            },
            buttons@,
        ),
{
    let active: Option<CircuitEdgeKind> = if tool == Tool::Connect {
        Some(kind)
    } else {
        None
    };
    button_looks(active, buttons)
}

/// How the layers' buttons look: the active layer's is active whatever the
/// tool.
pub fn sync_layer_visuals(
    layers: &LayerManager,
    buttons: &Vec<(Interaction, CircuitLayer)>,
) -> (r: Vec<ButtonLook>)
    ensures
        r@ == looks(Some(layers@.active), buttons@),
{
    button_looks(Some(layers.active()), buttons)
}

// ---------------------------------------------------------------------------
// Laws
// ---------------------------------------------------------------------------

/// The toolbar offers every tool, every kind of component, every kind of edge
/// and every layer, in these groups and this order, with a divider after each of
/// the first three.
pub proof fn toolbar_offers_everything(
    tool: Tool,
    component: ComponentKind,
    wire: CircuitEdgeKind,
    layer: CircuitLayer,
    i: int,
)
    ensures
        toolbar_items().len() == 18,
        toolbar_items().contains(ToolbarItem::Tool(tool)),
        toolbar_items().contains(ToolbarItem::Component(component)),
        toolbar_items().contains(ToolbarItem::Wire(wire)),
        toolbar_items().contains(ToolbarItem::Layer(layer)),
        0 <= i < 3 ==> toolbar_items()[i] is Tool,
        4 <= i < 9 ==> toolbar_items()[i] is Component,
        10 <= i < 13 ==> toolbar_items()[i] is Wire,
        14 <= i < 18 ==> toolbar_items()[i] is Layer,
        i == 3 || i == 9 || i == 13 ==> toolbar_items()[i] == ToolbarItem::Divider,
{
    let items = toolbar_items();
    assert(items[0] == ToolbarItem::Tool(Tool::Select));
    assert(items[1] == ToolbarItem::Tool(Tool::Place));
    assert(items[2] == ToolbarItem::Tool(Tool::Connect));
    assert(items[4] == ToolbarItem::Component(ComponentKind::Resistor));
    assert(items[5] == ToolbarItem::Component(ComponentKind::Capacitor));
    assert(items[6] == ToolbarItem::Component(ComponentKind::Inductor));
    assert(items[7] == ToolbarItem::Component(ComponentKind::VoltageSource));
    assert(items[8] == ToolbarItem::Component(ComponentKind::Ground));
    assert(items[10] == ToolbarItem::Wire(CircuitEdgeKind::Wire));
    assert(items[11] == ToolbarItem::Wire(CircuitEdgeKind::SameNet));
    assert(items[12] == ToolbarItem::Wire(CircuitEdgeKind::DifferentialPair));
    assert(items[14] == ToolbarItem::Layer(CircuitLayer::Signal));
    assert(items[15] == ToolbarItem::Layer(CircuitLayer::Power));
    assert(items[16] == ToolbarItem::Layer(CircuitLayer::Ground));
    assert(items[17] == ToolbarItem::Layer(CircuitLayer::Mechanical));
}

/// A click on a tool's button switches to that tool and one on a layer's button
/// chooses that layer. A click on the button of a kind of component switches to
/// the place tool and then chooses that kind; one on that of a kind of edge
/// switches to the connect tool and then chooses that kind. Clicks count in
/// order.
pub proof fn buttons_choose_what_they_show(
    tools: Seq<Tool>,
    components: Seq<ComponentKind>,
    wires: Seq<CircuitEdgeKind>,
    layers: Seq<CircuitLayer>,
    i: int,
)
    ensures
        tool_choices(tools).len() == tools.len(),
        0 <= i < tools.len() ==> tool_choices(tools)[i] == AppCommand::SetTool(tools[i]),
        layer_choices(layers).len() == layers.len(),
        0 <= i < layers.len() ==> layer_choices(layers)[i] == AppCommand::SetActiveLayer(layers[i]),
        component_choices(components).len() == 2 * components.len(),
        0 <= i < components.len() ==> component_choices(components)[2 * i] == AppCommand::SetTool(
            Tool::Place,
        ) && component_choices(components)[2 * i + 1] == AppCommand::SetComponentKind(
            components[i],
        ),
        wire_choices(wires).len() == 2 * wires.len(),
        0 <= i < wires.len() ==> wire_choices(wires)[2 * i] == AppCommand::SetTool(Tool::Connect)
            && wire_choices(wires)[2 * i + 1] == AppCommand::SetWireKind(wires[i]),
    decreases components.len() + wires.len(),
{
    if components.len() > 0 {
        buttons_choose_what_they_show(tools, components.drop_last(), wires, layers, i);
    }
    if wires.len() > 0 {
        buttons_choose_what_they_show(tools, components, wires.drop_last(), layers, i);
    }
}

} // verus!
