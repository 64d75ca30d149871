//! Clicks and keys, as commands.
use vstd::prelude::*;

use crate::agent::scene::Entity;
use crate::agent::world::lookup;
use crate::agent::world::EntityCrdtIndex;
use crate::client::weave::WeaveEdgeKind;
use crate::client::msg::AppCommand;
use crate::client::msg::AppEvent;
use crate::client::msg::GraphCommandExt;
use crate::client::tool::all_tools;
use crate::client::tool::Tool;
use crate::client::tool::ToolCommand;
use crate::editor::connect::click;
use crate::editor::connect::click_event;
use crate::editor::connect::event_of_click;
use crate::editor::connect::node_clicked;
use crate::editor::connect::ClickOutcome;
use crate::editor::connect::ConnectEvent;
use crate::editor::connect::ConnectState;
use crate::editor::keys::canvas_clicked;
use crate::editor::keys::pointer_busy;
use crate::editor::keys::went_down;
use crate::editor::keys::Interaction;
use crate::editor::keys::KeyCode;
use crate::editor::keys::Keys;
use crate::editor::msg::app_views;
use crate::editor::msg::tell_error;
use crate::editor::msg::ExternalId;
use crate::editor::select::ids_of;
use crate::editor::select::ids_to_delete;
use crate::editor::select::node_clicked_for_select;
use crate::editor::select::SelectCommand;
use crate::seqs::lemma_push_contains;

verus! {

/// A frame was clicked with the select tool: select it, or with shift
/// toggle it.
pub fn on_node_clicked_for_select(
    tool: Tool,
    is_node: bool,
    target: Entity,
    keys: &Option<Keys>,
    index: &EntityCrdtIndex,
) -> (r: Option<AppCommand>)
    ensures
        r == (match lookup(index.node_of_entity@, target) {
            Some(id) if tool == Tool::Select && is_node => Some(
                AppCommand::Tool(
                    ToolCommand::Select(
                        if *keys matches Some(k) && k.shifted() {
                            SelectCommand::Toggle { target: id }
                        } else {
                            SelectCommand::Select { target: id }
                        },
                    ),
                ),
            ),
            _ => None,
        }),
{
    match node_clicked_for_select(tool == Tool::Select, is_node, target, keys, index) {
        Some(command) => Some(AppCommand::Tool(ToolCommand::Select(command))),
        None => None,
    }
}

/// The empty canvas was clicked with the select tool: nothing stays selected.
pub fn on_canvas_clicked_for_select(
    tool: Tool,
    just_pressed: Option<bool>,
    interactions: &Vec<Interaction>,
    on_node: bool,
) -> (r: Option<AppCommand>)
    ensures
        r == (if tool == Tool::Select && just_pressed == Some(true) && !pointer_busy(
            interactions@,
        ) && !on_node {
            Some(AppCommand::Tool(ToolCommand::Select(SelectCommand::ClearSelection)))
        } else {
            None
        }),
{
    if tool == Tool::Select && !on_node && canvas_clicked(just_pressed, interactions) {
        Some(AppCommand::Tool(ToolCommand::Select(SelectCommand::ClearSelection)))
    } else {
        None
    }
}

/// The commands that remove the listed nodes.
pub open spec fn removals(ids: Seq<ExternalId>) -> Seq<AppCommand> {
    ids.map_values(|id: ExternalId| AppCommand::Graph(GraphCommandExt::RemoveNode { id }))
}

/// With the select tool, the delete or the backspace key removes every selected
/// node.
pub fn handle_delete_key(
    tool: Tool,
    keys: &Option<Keys>,
    selected: &Vec<Entity>,
    index: &EntityCrdtIndex,
) -> (r: Vec<AppCommand>)
    ensures
        r@ == (if tool == Tool::Select && (went_down(*keys, KeyCode::Delete) || went_down(
            *keys,
            KeyCode::Backspace,
        )) {
            removals(ids_of(index.node_of_entity@, selected@))
        } else {
            Seq::empty()
        }),
{
    let mut r: Vec<AppCommand> = Vec::new();
    if tool != Tool::Select {
        return r;
    }
    let ids = ids_to_delete(keys, selected, index);
    let mut i: usize = 0;
    assert(r@ =~= removals(ids@.take(0)));
    while i < ids.len()
        invariant
            i <= ids@.len(),
            r@ == removals(ids@.take(i as int)),
        decreases ids@.len() - i,
    {
        r.push(AppCommand::Graph(GraphCommandExt::RemoveNode { id: ids[i] }));
        i = i + 1;
        assert(r@ =~= removals(ids@.take(i as int)));
    }
    assert(ids@.take(i as int) =~= ids@);
    assert(removals(Seq::empty()) =~= Seq::<AppCommand>::empty());
    r
}

/// The text of the error that a click comes to, where it comes to one.
pub open spec fn click_error(outcome: ClickOutcome) -> Option<Seq<char>> {
    match outcome {
        ClickOutcome::SourceUnknown => Some("Connect: armed frame has no CrdtId yet"@),
        ClickOutcome::TargetUnknown => Some("Connect: target frame has no CrdtId yet"@),
        _ => None,
    }
}

/// What a click with the connect tool comes to.
pub open spec fn connect_click(
    tool: Tool,
    is_node: bool,
    armed: Option<Entity>,
    target: Entity,
    index: EntityCrdtIndex,
) -> (Option<Entity>, ClickOutcome) {
    if tool == Tool::Connect && is_node {
        click(armed, target, index.node_of_entity@)
    } else {
        (armed, ClickOutcome::Ignored)
    }
}

/// A frame was clicked with the connect tool: the first click arms, the
/// second asks for an edge of the chosen kind.
pub fn on_node_clicked_for_connect(
    tool: Tool,
    is_node: bool,
    target: Entity,
    kind: WeaveEdgeKind,
    index: &EntityCrdtIndex,
    connect: &mut ConnectState,
    commands: &mut Vec<AppCommand>,
    events: &mut Vec<AppEvent>,
    connect_events: &mut Vec<ConnectEvent>,
)
    ensures
        ({
            let (armed, outcome) = connect_click(
                tool,
                is_node,
                old(connect).from,
                target,
                *index,
            );
            &&& final(connect).from == armed
            &&& final(commands)@ == (match outcome {
                ClickOutcome::Completed { from, to } => old(commands)@.push(
                    AppCommand::Graph(GraphCommandExt::Connect { from, to, kind }),
                ),
                _ => old(commands)@,
            })
            &&& final(connect_events)@ == (match click_event(outcome) {
                Some(event) => old(connect_events)@.push(event),
                None => old(connect_events)@,
            })
            &&& app_views(final(events)@) == (match click_error(outcome) {
                Some(message) => app_views(old(events)@).push(
                    crate::editor::msg::AppEventView::CommandError { message },
                ),
                None => app_views(old(events)@),
            })
        }),
{
    let outcome = node_clicked(tool == Tool::Connect, is_node, target, index, connect);
    match outcome {
        ClickOutcome::Completed { from, to } => {
            commands.push(AppCommand::Graph(GraphCommandExt::Connect { from, to, kind }));
        },
        ClickOutcome::SourceUnknown => {
            tell_error(events, "Connect: armed frame has no CrdtId yet".to_owned());
        },
        ClickOutcome::TargetUnknown => {
            tell_error(events, "Connect: target frame has no CrdtId yet".to_owned());
        },
        _ => {},
    }
    match event_of_click(outcome) {
        Some(event) => {
            connect_events.push(event);
        },
        None => {},
    }
}

/// The commands that the tools' shortcuts ask for, of the first `n` tools.
pub open spec fn hotkeyed(keys: Keys, n: int) -> Seq<AppCommand>
    decreases n,
{
    if n <= 0 {
        Seq::empty()
    } else {
        let before = hotkeyed(keys, n - 1);
        let tool = all_tools()[n - 1];
        if keys.fresh@.contains(KeyCode::Letter(tool.letter())) {
            before.push(AppCommand::SetTool(tool))
        } else {
            before
        }
    }
}

/// Each tool's shortcut switches to it.
pub fn dispatch_hotkeys(keys: &Keys) -> (r: Vec<AppCommand>)
    ensures
        r@ == hotkeyed(*keys, 3),
{
    let tools = Tool::all();
    let mut r: Vec<AppCommand> = Vec::new();
    let mut i: usize = 0;
    while i < tools.len()
        invariant
            i <= tools@.len(),
            tools@ == all_tools(),
            r@ == hotkeyed(*keys, i as int),
        decreases tools@.len() - i,
    {
        if let Some(code) = tools[i].shortcut_keycode() {
            if keys.just_pressed(code) {
                r.push(AppCommand::SetTool(tools[i]));
            }
        }
        i = i + 1;
    }
    r
}

// ---------------------------------------------------------------------------
// Laws
// ---------------------------------------------------------------------------

/// The delete key asks for the removal of each listed node, in order.
pub proof fn each_listed_node_is_removed(ids: Seq<ExternalId>, i: int)
    ensures
        removals(ids).len() == ids.len(),
        0 <= i < ids.len() ==> removals(ids)[i] == AppCommand::Graph(
            GraphCommandExt::RemoveNode { id: ids[i] },
        ),
{
}

/// A click comes to an error exactly where one of the frames has no identity
/// yet, and the error says which.
pub proof fn click_errors_say_which(outcome: ClickOutcome)
    ensures
        click_error(outcome) is Some <==> outcome == ClickOutcome::SourceUnknown || outcome
            == ClickOutcome::TargetUnknown,
        outcome == ClickOutcome::SourceUnknown ==> click_error(outcome)
            == Some("Connect: armed frame has no CrdtId yet"@),
        outcome == ClickOutcome::TargetUnknown ==> click_error(outcome)
            == Some("Connect: target frame has no CrdtId yet"@),
{
}

/// Clicks count only on nodes and with the connect tool; then they arm, cancel or
/// complete as clicks do, and otherwise they leave what is armed alone.
pub proof fn connect_clicks_need_the_tool(
    tool: Tool,
    is_node: bool,
    armed: Option<Entity>,
    target: Entity,
    index: EntityCrdtIndex,
)
    ensures
        tool == Tool::Connect && is_node ==> connect_click(tool, is_node, armed, target, index)
            == click(armed, target, index.node_of_entity@),
        tool != Tool::Connect || !is_node ==> connect_click(tool, is_node, armed, target, index)
            == (armed, ClickOutcome::Ignored),
{
}

/// A shortcut switches to its tool exactly where its letter went down: V selects,
/// C creates and E connects. No other key does anything.
pub proof fn shortcuts_switch_tools(keys: Keys, command: AppCommand)
    ensures
        hotkeyed(keys, 3).contains(command) <==> (command == AppCommand::SetTool(Tool::Select)
            && keys.fresh@.contains(KeyCode::Letter('V'))) || (command == AppCommand::SetTool(
            Tool::Create,
        ) && keys.fresh@.contains(KeyCode::Letter('C'))) || (command
            == AppCommand::SetTool(Tool::Connect) && keys.fresh@.contains(KeyCode::Letter('E'))),
{
    let tools = all_tools();
    assert(tools[0] == Tool::Select && tools[1] == Tool::Create && tools[2] == Tool::Connect);
    let none = hotkeyed(keys, 0);
    let one = hotkeyed(keys, 1);
    let two = hotkeyed(keys, 2);
    assert(none =~= seq![]);
    lemma_push_contains(none, AppCommand::SetTool(tools[0]), command);
    lemma_push_contains(one, AppCommand::SetTool(tools[1]), command);
    lemma_push_contains(two, AppCommand::SetTool(tools[2]), command);
}

} // verus!
