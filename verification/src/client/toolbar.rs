//! The toolbar of the design editor: tools and kinds of relations.
use vstd::prelude::*;

use crate::client::msg::AppCommand;
use crate::client::tool::all_tools;
use crate::client::tool::Tool;
use crate::client::weave::all_kinds;
use crate::client::weave::WeaveEdgeKind;
use crate::editor::keys::ButtonLook;
use crate::editor::keys::Interaction;
use crate::editor::toolbar::button_looks;
use crate::editor::toolbar::looks;
use crate::editor::toolbar::pressed;
use crate::editor::toolbar::pressed_buttons;

verus! {

/// What stands on the toolbar.
#[derive(Clone, Copy, Debug, PartialEq, Eq, Structural)]
pub enum ToolbarItem {
    Tool(Tool),
    Weave(WeaveEdgeKind),
    Divider,
}

/// The toolbar from left to right: the tools, a divider, and the kinds of
/// relations.
pub open spec fn toolbar_items() -> Seq<ToolbarItem> {
    all_tools().map_values(|t: Tool| ToolbarItem::Tool(t)) + seq![ToolbarItem::Divider]
        + all_kinds().map_values(|k: WeaveEdgeKind| ToolbarItem::Weave(k))
}

/// The items of the toolbar.
pub fn spawn_toolbar() -> (r: Vec<ToolbarItem>)
    ensures
        r@ == toolbar_items(),
{
    let r = vec![
        ToolbarItem::Tool(Tool::Select),
        ToolbarItem::Tool(Tool::Create),
        ToolbarItem::Tool(Tool::Connect),
        ToolbarItem::Divider,
        ToolbarItem::Weave(WeaveEdgeKind::Reference),
        ToolbarItem::Weave(WeaveEdgeKind::Dependency),
        ToolbarItem::Weave(WeaveEdgeKind::Comment),
        ToolbarItem::Weave(WeaveEdgeKind::Annotation),
    ];
    assert(r@ =~= toolbar_items());
    r
}

/// The commands that switch to each of the tools.
pub open spec fn tool_choices(tools: Seq<Tool>) -> Seq<AppCommand> {
    tools.map_values(|t: Tool| AppCommand::SetTool(t))
}

/// A click on a tool's button switches to the tool.
pub fn handle_button_clicks(buttons: &Vec<(Interaction, Tool)>) -> (r: Vec<AppCommand>)
    ensures
        r@ == tool_choices(pressed(buttons@)),
{
    let tools = pressed_buttons(buttons);
    let mut r: Vec<AppCommand> = Vec::new();
    let mut i: usize = 0;
    assert(r@ =~= tool_choices(tools@.take(0)));
    while i < tools.len()
        invariant
            i <= tools@.len(),
            r@ == tool_choices(tools@.take(i as int)),
        decreases tools@.len() - i,
    {
        r.push(AppCommand::SetTool(tools[i]));
        i = i + 1;
        assert(r@ =~= tool_choices(tools@.take(i as int)));
    }
    assert(tools@.take(i as int) =~= tools@);
    r
}

/// For each kind, the commands that switch to the connect tool and choose the
/// kind.
pub open spec fn weave_choices(kinds: Seq<WeaveEdgeKind>) -> Seq<AppCommand>
    decreases kinds.len(),
{
    if kinds.len() == 0 {
        Seq::empty()
    } else {
        weave_choices(kinds.drop_last()).push(AppCommand::SetTool(Tool::Connect)).push(
            AppCommand::SetConnectKind(kinds.last()),
        )
    }
}

/// A click on a kind's button switches to the connect tool and chooses the kind.
pub fn handle_weave_kind_clicks(buttons: &Vec<(Interaction, WeaveEdgeKind)>) -> (r: Vec<
    AppCommand,
>)
    ensures
        r@ == weave_choices(pressed(buttons@)),
{
    let kinds = pressed_buttons(buttons);
    let mut r: Vec<AppCommand> = Vec::new();
    let mut i: usize = 0;
    while i < kinds.len()
        invariant
            i <= kinds@.len(),
            r@ == weave_choices(kinds@.take(i as int)),
        decreases kinds@.len() - i,
    {
        r.push(AppCommand::SetTool(Tool::Connect));
        r.push(AppCommand::SetConnectKind(kinds[i]));
        assert(kinds@.take(i + 1).drop_last() =~= kinds@.take(i as int));
        i = i + 1;
    }
    assert(kinds@.take(i as int) =~= kinds@);
    r
}

/// How the tools' buttons look.
pub fn sync_button_visuals(tool: Tool, buttons: &Vec<(Interaction, Tool)>) -> (r: Vec<ButtonLook>)
    ensures
        r@ == looks(Some(tool), buttons@),
{
    button_looks(Some(tool), buttons)
}

/// How the kinds' buttons look: the chosen kind is active while the connect
/// tool is.
pub fn sync_weave_kind_visuals(
    tool: Tool,
    kind: WeaveEdgeKind,
    buttons: &Vec<(Interaction, WeaveEdgeKind)>,
) -> (r: Vec<ButtonLook>)
    ensures
        r@ == looks(
            if tool == Tool::Connect {
                Some(kind)
            } else {
                None
            },
            buttons@,
        ),
{
    let active: Option<WeaveEdgeKind> = if tool == Tool::Connect {
        Some(kind)
    } else {
        None
    };
    button_looks(active, buttons)
}

// ---------------------------------------------------------------------------
// Laws
// ---------------------------------------------------------------------------

/// The toolbar offers every tool and every kind of relation once, the tools
/// first, and one divider between the two groups.
pub proof fn toolbar_offers_everything(tool: Tool, kind: WeaveEdgeKind, i: int, j: int)
    ensures
        toolbar_items().len() == 8,
        toolbar_items().contains(ToolbarItem::Tool(tool)),
        toolbar_items().contains(ToolbarItem::Weave(kind)),
        toolbar_items().no_duplicates(),
        0 <= i < 3 ==> toolbar_items()[i] is Tool,
        toolbar_items()[3] == ToolbarItem::Divider,
        4 <= j < 8 ==> toolbar_items()[j] is Weave,
{
    let items = toolbar_items();
    assert(items[0] == ToolbarItem::Tool(Tool::Select));
    assert(items[1] == ToolbarItem::Tool(Tool::Create));
    assert(items[2] == ToolbarItem::Tool(Tool::Connect));
    assert(items[4] == ToolbarItem::Weave(WeaveEdgeKind::Reference));
    assert(items[5] == ToolbarItem::Weave(WeaveEdgeKind::Dependency));
    assert(items[6] == ToolbarItem::Weave(WeaveEdgeKind::Comment));
    assert(items[7] == ToolbarItem::Weave(WeaveEdgeKind::Annotation));
}

/// A click on a tool's button switches to that tool; a click on a kind's button
/// switches to the connect tool and then chooses that kind; in the order of the
/// clicks.
pub proof fn buttons_choose_what_they_show(
    tools: Seq<Tool>,
    kinds: Seq<WeaveEdgeKind>,
    i: int,
)
    ensures
        tool_choices(tools).len() == tools.len(),
        0 <= i < tools.len() ==> tool_choices(tools)[i] == AppCommand::SetTool(tools[i]),
        weave_choices(kinds).len() == 2 * kinds.len(),
        0 <= i < kinds.len() ==> weave_choices(kinds)[2 * i] == AppCommand::SetTool(Tool::Connect)
            && weave_choices(kinds)[2 * i + 1] == AppCommand::SetConnectKind(kinds[i]),
    decreases kinds.len(),
{
    if kinds.len() > 0 {
        buttons_choose_what_they_show(tools, kinds.drop_last(), i);
    }
}

} // verus!
