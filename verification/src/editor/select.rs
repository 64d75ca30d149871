//! The select tool: which nodes are selected here, and what is deleted.
//! Selection is a matter of each peer and is not replicated.
use vstd::prelude::*;

use crate::agent::edit::other_than;
use crate::agent::edit::without;
use crate::agent::scene::Entity;
use crate::agent::world::lookup;
use crate::agent::world::EntityCrdtIndex;
use crate::editor::keys::Keys;
use crate::editor::keys::KeyCode;
use crate::editor::keys::went_down;
use crate::editor::msg::about_id;
use crate::editor::msg::app_views;
use crate::editor::msg::id_text;
use crate::editor::msg::tell_error;
use crate::editor::msg::AppEvent;
use crate::editor::msg::AppEventView;
use crate::editor::msg::ExternalId;
use crate::text::decimal;

verus! {

/// Commands to the select tool.
#[derive(Debug)]
pub enum SelectCommand {
    /// Make `target` the only selected node.
    Select { target: ExternalId },
    /// Select `target`, or deselect it if it is selected.
    Toggle { target: ExternalId },
    ClearSelection,
    /// Delete every node listed.
    DeleteTargets { ids: Vec<ExternalId> },
}

#[derive(Debug)]
pub enum SelectEvent {
    Selected { target: ExternalId },
    Toggled { target: ExternalId, selected: bool },
    SelectionCleared,
    DeletedTargets { ids: Vec<ExternalId> },
}

pub enum SelectEventView {
    Selected { target: ExternalId },
    Toggled { target: ExternalId, selected: bool },
    SelectionCleared,
    DeletedTargets { ids: Seq<ExternalId> },
}

impl View for SelectEvent {
    type V = SelectEventView;

    open spec fn view(&self) -> SelectEventView {
        match *self {
            SelectEvent::Selected { target } => SelectEventView::Selected { target },
            SelectEvent::Toggled { target, selected } => SelectEventView::Toggled {
                target,
                selected,
            },
            SelectEvent::SelectionCleared => SelectEventView::SelectionCleared,
            SelectEvent::DeletedTargets { ids } => SelectEventView::DeletedTargets { ids: ids@ },
        }
    }
}

pub open spec fn select_views(events: Seq<SelectEvent>) -> Seq<SelectEventView> {
    events.map_values(|e: SelectEvent| e@)
}

/// Something to be done to an entity.
#[derive(Clone, Copy, Debug, PartialEq, Eq, Structural)]
pub enum SelectEffect {
    Select { entity: Entity },
    Deselect { entity: Entity },
    Despawn { entity: Entity },
}

/// The selection, and what came of the commands so far.
#[derive(Debug)]
pub struct SelectOutput<T, P> {
    /// The nodes that are selected, once the effects have been carried out.
    pub selected: Vec<Entity>,
    pub effects: Vec<SelectEffect>,
    pub events: Vec<SelectEvent>,
    pub app_events: Vec<AppEvent<T, P>>,
}

#[verifier::ext_equal]
pub struct SelectOutputView<V, P> {
    pub selected: Seq<Entity>,
    pub effects: Seq<SelectEffect>,
    pub events: Seq<SelectEventView>,
    pub app_events: Seq<AppEventView<V, P>>,
}

impl<T: View, P> View for SelectOutput<T, P> {
    type V = SelectOutputView<T::V, P>;

    open spec fn view(&self) -> SelectOutputView<T::V, P> {
        SelectOutputView {
            selected: self.selected@,
            effects: self.effects@,
            events: select_views(self.events@),
            app_events: app_views(self.app_events@),
        }
    }
}

/// The effects that deselect every listed entity.
pub open spec fn deselects(selected: Seq<Entity>) -> Seq<SelectEffect> {
    selected.map_values(|e: Entity| SelectEffect::Deselect { entity: e })
}

/// The listed ids that are known.
pub open spec fn known_ids(
    nodes: Map<ExternalId, Entity>,
    ids: Seq<ExternalId>,
) -> Seq<ExternalId> {
    ids.filter(|id: ExternalId| nodes.dom().contains(id))
}

/// Deleting the listed ids, one after the other: a known one is despawned, an
/// unknown one is an error.
pub open spec fn deleted<V, P>(
    out: SelectOutputView<V, P>,
    nodes: Map<ExternalId, Entity>,
    ids: Seq<ExternalId>,
) -> SelectOutputView<V, P>
    decreases ids.len(),
{
    if ids.len() == 0 {
        out
    } else {
        let before = deleted(out, nodes, ids.drop_last());
        let id = ids.last();
        if nodes.dom().contains(id) {
            SelectOutputView {
                selected: without(before.selected, nodes[id]),
                effects: before.effects.push(SelectEffect::Despawn { entity: nodes[id] }),
                ..before
            }
        } else {
            SelectOutputView {
                app_events: before.app_events.push(
                    AppEventView::CommandError {
                        message: "Select::DeleteTargets: unknown id "@ + id_text(id),
                    },
                ),
                ..before
            }
        }
    }
}

/// What one command does to the selection, and what it adds.
pub open spec fn select_step<V, P>(
    out: SelectOutputView<V, P>,
    nodes: Map<ExternalId, Entity>,
    command: SelectCommand,
) -> SelectOutputView<V, P> {
    match command {
        SelectCommand::Select { target } => if nodes.dom().contains(target) {
            SelectOutputView {
                selected: seq![nodes[target]],
                effects: (out.effects + deselects(out.selected)).push(
                    SelectEffect::Select { entity: nodes[target] },
                ),
                events: out.events.push(SelectEventView::Selected { target }),
                ..out
            }
        } else {
            SelectOutputView {
                app_events: out.app_events.push(
                    AppEventView::CommandError {
                        message: "Select::Select: unknown id "@ + id_text(target),
                    },
                ),
                ..out
            }
        },
        SelectCommand::Toggle { target } => if nodes.dom().contains(target) {
            let entity = nodes[target];
            if out.selected.contains(entity) {
                SelectOutputView {
                    selected: without(out.selected, entity),
                    effects: out.effects.push(SelectEffect::Deselect { entity }),
                    events: out.events.push(
                        SelectEventView::Toggled { target, selected: false },
                    ),
                    ..out
                }
            } else {
                SelectOutputView {
                    selected: out.selected.push(entity),
                    effects: out.effects.push(SelectEffect::Select { entity }),
                    events: out.events.push(SelectEventView::Toggled { target, selected: true }),
                    ..out
                }
            }
        } else {
            SelectOutputView {
                app_events: out.app_events.push(
                    AppEventView::CommandError {
                        message: "Select::Toggle: unknown id "@ + id_text(target),
                    },
                ),
                ..out
            }
        },
        SelectCommand::ClearSelection => SelectOutputView {
            selected: seq![],
            effects: out.effects + deselects(out.selected),
            events: out.events.push(SelectEventView::SelectionCleared),
            ..out
        },
        SelectCommand::DeleteTargets { ids } => {
            let known = known_ids(nodes, ids@);
            let after = deleted(out, nodes, ids@);
            if known.len() == 0 {
                after
            } else {
                SelectOutputView {
                    events: after.events.push(SelectEventView::DeletedTargets { ids: known }),
                    ..after
                }
            }
        },
    }
}

/// What several commands do, one after the other.
pub open spec fn select_run<V, P>(
    out: SelectOutputView<V, P>,
    nodes: Map<ExternalId, Entity>,
    commands: Seq<SelectCommand>,
) -> SelectOutputView<V, P>
    decreases commands.len(),
{
    if commands.len() == 0 {
        out
    } else {
        select_step(select_run(out, nodes, commands.drop_last()), nodes, commands.last())
    }
}

fn deselect_all(effects: &mut Vec<SelectEffect>, selected: &Vec<Entity>)
    ensures
        final(effects)@ == old(effects)@ + deselects(selected@),
{
    let mut i: usize = 0;
    assert(effects@ =~= old(effects)@ + deselects(selected@.take(0)));
    while i < selected.len()
        invariant
            i <= selected@.len(),
            effects@ == old(effects)@ + deselects(selected@.take(i as int)),
        decreases selected@.len() - i,
    {
        effects.push(SelectEffect::Deselect { entity: selected[i] });
        i = i + 1;
        assert(effects@ =~= old(effects)@ + deselects(selected@.take(i as int)));
    }
    assert(selected@.take(i as int) =~= selected@);
}

/// `list` without `entity`.
fn leave_out(list: &Vec<Entity>, entity: Entity) -> (r: Vec<Entity>)
    ensures
        r@ == without(list@, entity),
{
    let mut r: Vec<Entity> = Vec::new();
    let mut i: usize = 0;
    proof {
        reveal(Seq::filter);
        assert(r@ =~= without(list@.take(0), entity));
    }
    while i < list.len()
        invariant
            i <= list@.len(),
            r@ == without(list@.take(i as int), entity),
        decreases list@.len() - i,
    {
        proof {
            crate::seqs::lemma_filter_step(list@, i as int, other_than(entity));
        }
        if list[i] != entity {
            r.push(list[i]);
        }
        i = i + 1;
    }
    assert(list@.take(i as int) =~= list@);
    r
}

fn is_among(list: &Vec<Entity>, entity: Entity) -> (r: bool)
    ensures
        r == list@.contains(entity),
{
    let mut i: usize = 0;
    while i < list.len()
        invariant
            i <= list@.len(),
            forall|k: int| 0 <= k < i ==> list@[k] != entity,
        decreases list@.len() - i,
    {
        if list[i] == entity {
            assert(list@.contains(entity));
            return true;
        }
        i = i + 1;
    }
    false
}

fn push_event(events: &mut Vec<SelectEvent>, event: SelectEvent)
    ensures
        select_views(final(events)@) == select_views(old(events)@).push(event@),
{
    events.push(event);
    assert(select_views(events@) =~= select_views(old(events)@).push(event@));
}

/// Deletes the listed ids; the result lists those that are known.
fn delete_targets<T: View, P>(
    ids: &Vec<ExternalId>,
    index: &EntityCrdtIndex,
    out: &mut SelectOutput<T, P>,
) -> (r: Vec<ExternalId>)
    requires
        index.wf(),
    ensures
        final(out)@ == deleted(old(out)@, index.entity_of_node@, ids@),
        r@ == known_ids(index.entity_of_node@, ids@),
{
    let ghost nodes = index.entity_of_node@;
    let ghost known = |id: ExternalId| nodes.dom().contains(id);
    let mut r: Vec<ExternalId> = Vec::new();
    let mut i: usize = 0;
    proof {
        reveal(Seq::filter);
        assert(r@ =~= ids@.take(0).filter(known));
    }
    while i < ids.len()
        invariant
            i <= ids@.len(),
            index.wf(),
            nodes == index.entity_of_node@,
            known == (|id: ExternalId| nodes.dom().contains(id)),
            r@ == ids@.take(i as int).filter(known),
            out@ == deleted(old(out)@, nodes, ids@.take(i as int)),
        decreases ids@.len() - i,
    {
        proof {
            crate::seqs::lemma_filter_step(ids@, i as int, known);
        }
        let id = ids[i];
        match index.entity_of_node.get(id) {
            Some(entity) => {
                out.selected = leave_out(&out.selected, *entity);
                out.effects.push(SelectEffect::Despawn { entity: *entity });
                r.push(id);
            },
            None => {
                tell_error(
                    &mut out.app_events,
                    about_id("Select::DeleteTargets: unknown id ", id),
                );
            },
        }
        assert(ids@.take(i + 1).drop_last() =~= ids@.take(i as int));
        i = i + 1;
        assert(out@ =~= deleted(old(out)@, nodes, ids@.take(i as int)));
    }
    assert(ids@.take(i as int) =~= ids@);
    r
}

/// Carries out the commands, in order, where the select tool is active. Without
/// it they come to nothing.
pub fn handle_select_commands<T: View, P>(
    on_tool: bool,
    commands: &Vec<SelectCommand>,
    index: &EntityCrdtIndex,
    out: &mut SelectOutput<T, P>,
)
    requires
        index.wf(),
    ensures
        on_tool ==> final(out)@ == select_run(old(out)@, index.entity_of_node@, commands@),
        !on_tool ==> final(out)@ == old(out)@,
{
    if !on_tool {
        return;
    }
    let ghost nodes = index.entity_of_node@;
    let mut i: usize = 0;
    while i < commands.len()
        invariant
            on_tool,
            i <= commands@.len(),
            index.wf(),
            nodes == index.entity_of_node@,
            out@ == select_run(old(out)@, nodes, commands@.take(i as int)),
        decreases commands@.len() - i,
    {
        let ghost before = out@;
        match &commands[i] {
            SelectCommand::Select { target } => match index.entity_of_node.get(*target) {
                None => {
                    tell_error(
                        &mut out.app_events,
                        about_id("Select::Select: unknown id ", *target),
                    );
                },
                Some(entity) => {
                    deselect_all(&mut out.effects, &out.selected);
                    out.effects.push(SelectEffect::Select { entity: *entity });
                    out.selected = vec![*entity];
                    push_event(&mut out.events, SelectEvent::Selected { target: *target });
                },
            },
            SelectCommand::Toggle { target } => match index.entity_of_node.get(*target) {
                None => {
                    tell_error(
                        &mut out.app_events,
                        about_id("Select::Toggle: unknown id ", *target),
                    );
                },
                Some(entity) => {
                    let on = !is_among(&out.selected, *entity);
                    if on {
                        out.selected.push(*entity);
                        out.effects.push(SelectEffect::Select { entity: *entity });
                    } else {
                        out.selected = leave_out(&out.selected, *entity);
                        out.effects.push(SelectEffect::Deselect { entity: *entity });
                    }
                    push_event(
                        &mut out.events,
                        SelectEvent::Toggled { target: *target, selected: on },
                    );
                },
            },
            SelectCommand::ClearSelection => {
                deselect_all(&mut out.effects, &out.selected);
                out.selected = Vec::new();
                push_event(&mut out.events, SelectEvent::SelectionCleared);
            },
            SelectCommand::DeleteTargets { ids } => {
                let known = delete_targets(ids, index, out);
                if known.len() > 0 {
                    push_event(&mut out.events, SelectEvent::DeletedTargets { ids: known });
                }
            },
        }
        assert(out@ =~= select_step(before, nodes, commands@[i as int]));
        assert(commands@.take(i + 1).drop_last() =~= commands@.take(i as int));
        i = i + 1;
    }
    assert(commands@.take(i as int) =~= commands@);
}

/// The nodes that are selected once the effects have been carried out.
pub open spec fn selection_after(
    selected: Set<Entity>,
    effects: Seq<SelectEffect>,
) -> Set<Entity>
    decreases effects.len(),
{
    if effects.len() == 0 {
        selected
    } else {
        let before = selection_after(selected, effects.drop_last());
        match effects.last() {
            SelectEffect::Select { entity } => before.insert(entity),
            SelectEffect::Deselect { entity } => before.remove(entity),
            SelectEffect::Despawn { entity } => before.remove(entity),
        }
    }
}

/// Whether carrying out the effects on what was selected in the world at first
/// gives the selection.
pub open spec fn in_step<V, P>(first: Set<Entity>, out: SelectOutputView<V, P>) -> bool {
    selection_after(first, out.effects) == out.selected.to_set()
}

proof fn lemma_deselects(first: Set<Entity>, effects: Seq<SelectEffect>, list: Seq<Entity>)
    ensures
        selection_after(first, effects + deselects(list)) == selection_after(
            first,
            effects,
        ).difference(list.to_set()),
    decreases list.len(),
{
    let all = effects + deselects(list);
    let base = selection_after(first, effects);
    if list.len() > 0 {
        let init = list.drop_last();
        lemma_deselects(first, effects, init);
        assert(all.drop_last() =~= effects + deselects(init));
        assert forall|e: Entity| list.to_set().contains(e) <==> init.to_set().contains(e) || e
            == list.last() by {
            assert(list =~= init.push(list.last()));
            crate::seqs::lemma_push_contains(init, list.last(), e);
        }
    } else {
        assert(all =~= effects);
    }
    assert(selection_after(first, all) =~= base.difference(list.to_set()));
}

proof fn lemma_push_effect(first: Set<Entity>, effects: Seq<SelectEffect>, effect: SelectEffect)
    ensures
        selection_after(first, effects.push(effect)) == (match effect {
            SelectEffect::Select { entity } => selection_after(first, effects).insert(entity),
            SelectEffect::Deselect { entity } => selection_after(first, effects).remove(entity),
            SelectEffect::Despawn { entity } => selection_after(first, effects).remove(entity),
        }),
{
    assert(effects.push(effect).drop_last() =~= effects);
}

proof fn lemma_without_set(list: Seq<Entity>, e: Entity)
    ensures
        without(list, e).to_set() == list.to_set().remove(e),
{
    assert forall|x: Entity| without(list, e).to_set().contains(x) <==> list.to_set().remove(
        e,
    ).contains(x) by {
        crate::seqs::lemma_filter_contains(list, other_than(e), x);
    }
    assert(without(list, e).to_set() =~= list.to_set().remove(e));
}

proof fn lemma_deleted_in_step<V, P>(
    first: Set<Entity>,
    out: SelectOutputView<V, P>,
    nodes: Map<ExternalId, Entity>,
    ids: Seq<ExternalId>,
)
    requires
        in_step(first, out),
    ensures
        in_step(first, deleted(out, nodes, ids)),
    decreases ids.len(),
{
    if ids.len() > 0 {
        lemma_deleted_in_step(first, out, nodes, ids.drop_last());
        let before = deleted(out, nodes, ids.drop_last());
        let id = ids.last();
        if nodes.dom().contains(id) {
            lemma_push_effect(
                first,
                before.effects,
                SelectEffect::Despawn { entity: nodes[id] },
            );
            lemma_without_set(before.selected, nodes[id]);
        }
    }
}

proof fn lemma_step_in_step<V, P>(
    first: Set<Entity>,
    out: SelectOutputView<V, P>,
    nodes: Map<ExternalId, Entity>,
    command: SelectCommand,
)
    requires
        in_step(first, out),
    ensures
        in_step(first, select_step(out, nodes, command)),
{
    let after = select_step(out, nodes, command);
    match command {
        SelectCommand::Select { target } => {
            if nodes.dom().contains(target) {
                let cleared = out.effects + deselects(out.selected);
                lemma_deselects(first, out.effects, out.selected);
                lemma_push_effect(
                    first,
                    cleared,
                    SelectEffect::Select { entity: nodes[target] },
                );
                assert(after.selected[0] == nodes[target]);
                assert(selection_after(first, after.effects) =~= after.selected.to_set());
            }
        },
        SelectCommand::Toggle { target } => {
            if nodes.dom().contains(target) {
                let e = nodes[target];
                lemma_without_set(out.selected, e);
                lemma_push_effect(first, out.effects, SelectEffect::Deselect { entity: e });
                lemma_push_effect(first, out.effects, SelectEffect::Select { entity: e });
                if !out.selected.contains(e) {
                    assert forall|x: Entity| after.selected.to_set().contains(x)
                        <==> out.selected.to_set().insert(e).contains(x) by {
                        crate::seqs::lemma_push_contains(out.selected, e, x);
                    }
                    assert(after.selected.to_set() =~= out.selected.to_set().insert(e));
                }
            }
        },
        SelectCommand::ClearSelection => {
            lemma_deselects(first, out.effects, out.selected);
            assert(selection_after(first, after.effects) =~= after.selected.to_set());
        },
        SelectCommand::DeleteTargets { ids } => {
            lemma_deleted_in_step(first, out, nodes, ids@);
        },
    }
}

/// Carrying out the effects of any commands gives exactly the selection that the
/// commands leave.
pub proof fn effects_give_selection<V, P>(
    first: Set<Entity>,
    out: SelectOutputView<V, P>,
    nodes: Map<ExternalId, Entity>,
    commands: Seq<SelectCommand>,
)
    requires
        in_step(first, out),
    ensures
        in_step(first, select_run(out, nodes, commands)),
    decreases commands.len(),
{
    if commands.len() > 0 {
        let before = select_run(out, nodes, commands.drop_last());
        effects_give_selection(first, out, nodes, commands.drop_last());
        lemma_step_in_step(first, before, nodes, commands.last());
    }
}

/// Selecting a known node leaves it the only one selected, whatever was
/// selected and whatever was commanded before.
pub proof fn select_leaves_one<V, P>(
    first: Set<Entity>,
    out: SelectOutputView<V, P>,
    nodes: Map<ExternalId, Entity>,
    before: Seq<SelectCommand>,
    target: ExternalId,
)
    requires
        in_step(first, out),
        nodes.dom().contains(target),
    ensures
        ({
            let after = select_run(out, nodes, before.push(SelectCommand::Select { target }));
            &&& after.selected == seq![nodes[target]]
            &&& selection_after(first, after.effects) == Set::<Entity>::empty().insert(
                nodes[target],
            )
        }),
{
    let commands = before.push(SelectCommand::Select { target });
    assert(commands.drop_last() =~= before);
    effects_give_selection(first, out, nodes, commands);
    let after = select_run(out, nodes, commands);
    assert(after.selected[0] == nodes[target]);
    assert(after.selected.to_set() =~= Set::<Entity>::empty().insert(nodes[target]));
}

/// Clearing leaves nothing selected, whatever was commanded before.
pub proof fn clear_leaves_none<V, P>(
    first: Set<Entity>,
    out: SelectOutputView<V, P>,
    nodes: Map<ExternalId, Entity>,
    before: Seq<SelectCommand>,
)
    requires
        in_step(first, out),
    ensures
        ({
            let after = select_run(out, nodes, before.push(SelectCommand::ClearSelection));
            &&& after.selected.len() == 0
            &&& selection_after(first, after.effects) == Set::<Entity>::empty()
        }),
{
    let commands = before.push(SelectCommand::ClearSelection);
    assert(commands.drop_last() =~= before);
    effects_give_selection(first, out, nodes, commands);
    let after = select_run(out, nodes, commands);
    assert(after.selected.to_set() =~= Set::<Entity>::empty());
}

/// Toggling a known node twice restores the selection.
pub proof fn toggle_twice_restores<V, P>(
    out: SelectOutputView<V, P>,
    nodes: Map<ExternalId, Entity>,
    target: ExternalId,
)
    requires
        nodes.dom().contains(target),
    ensures
        ({
            let toggle = SelectCommand::Toggle { target };
            let twice = select_step(select_step(out, nodes, toggle), nodes, toggle);
            twice.selected.to_set() == out.selected.to_set()
        }),
{
    let e = nodes[target];
    let toggle = SelectCommand::Toggle { target };
    let once = select_step(out, nodes, toggle);
    let twice = select_step(once, nodes, toggle);
    assert forall|x: Entity| twice.selected.to_set().contains(x)
        <==> out.selected.to_set().contains(x) by {
        crate::seqs::lemma_filter_contains(out.selected, other_than(e), x);
        crate::seqs::lemma_filter_contains(out.selected, other_than(e), e);
        crate::seqs::lemma_push_contains(without(out.selected, e), e, x);
        crate::seqs::lemma_push_contains(out.selected, e, x);
        crate::seqs::lemma_push_contains(out.selected, e, e);
        crate::seqs::lemma_filter_contains(out.selected.push(e), other_than(e), x);
    }
    assert(twice.selected.to_set() =~= out.selected.to_set());
}

/// Deleting despawns exactly the known ones of the listed ids, in order, and
/// tells an error for each of the others.
pub proof fn delete_covers_targets<V, P>(
    out: SelectOutputView<V, P>,
    nodes: Map<ExternalId, Entity>,
    ids: Vec<ExternalId>,
)
    ensures
        ({
            let after = select_step(out, nodes, SelectCommand::DeleteTargets { ids });
            let known = known_ids(nodes, ids@);
            &&& after.effects == out.effects + known.map_values(
                |id: ExternalId| SelectEffect::Despawn { entity: nodes[id] },
            )
            &&& known.len() + after.app_events.len() == ids@.len() + out.app_events.len()
        }),
{
    lemma_deleted(out, nodes, ids@);
}

proof fn lemma_deleted<V, P>(
    out: SelectOutputView<V, P>,
    nodes: Map<ExternalId, Entity>,
    ids: Seq<ExternalId>,
)
    ensures
        ({
            let after = deleted(out, nodes, ids);
            let known = known_ids(nodes, ids);
            &&& after.effects == out.effects + known.map_values(
                |id: ExternalId| SelectEffect::Despawn { entity: nodes[id] },
            )
            &&& known.len() + after.app_events.len() == ids.len() + out.app_events.len()
        }),
    decreases ids.len(),
{
    reveal(Seq::filter);
    let after = deleted(out, nodes, ids);
    if ids.len() > 0 {
        lemma_deleted(out, nodes, ids.drop_last());
    }
    assert(after.effects =~= out.effects + known_ids(nodes, ids).map_values(
        |id: ExternalId| SelectEffect::Despawn { entity: nodes[id] },
    ));
}

/// A node was clicked: a plain click selects it, a click with shift toggles
/// it. `on_tool` tells whether the select tool is active, `is_node` whether the
/// clicked entity is a node at all.
pub fn node_clicked_for_select(
    on_tool: bool,
    is_node: bool,
    target: Entity,
    keys: &Option<Keys>,
    index: &EntityCrdtIndex,
) -> (r: Option<SelectCommand>)
    ensures
        r == (match lookup(index.node_of_entity@, target) {
            Some(id) if on_tool && is_node => Some(
                if *keys matches Some(k) && k.shifted() {
                    SelectCommand::Toggle { target: id }
                } else {
                    SelectCommand::Select { target: id }
                },
            ),
            _ => None,
        }),
{
    if !on_tool || !is_node {
        return None;
    }
    match index.node_of_entity.get(&target) {
        None => None,
        Some(id) => {
            let additive = match keys {
                Some(k) => k.shift(),
                None => false,
            };
            if additive {
                Some(SelectCommand::Toggle { target: *id })
            } else {
                Some(SelectCommand::Select { target: *id })
            }
        },
    }
}

/// The ids of the listed entities, those without one left out.
pub open spec fn ids_of(index: Map<Entity, ExternalId>, entities: Seq<Entity>) -> Seq<ExternalId>
    decreases entities.len(),
{
    if entities.len() == 0 {
        Seq::empty()
    } else {
        let before = ids_of(index, entities.drop_last());
        if index.dom().contains(entities.last()) {
            before.push(index[entities.last()])
        } else {
            before
        }
    }
}

/// The delete or the backspace key went down: the ids of the selected nodes,
/// which are to be removed.
pub fn ids_to_delete(
    keys: &Option<Keys>,
    selected: &Vec<Entity>,
    index: &EntityCrdtIndex,
) -> (r: Vec<ExternalId>)
    ensures
        r@ == (if went_down(*keys, KeyCode::Delete) || went_down(*keys, KeyCode::Backspace) {
            ids_of(index.node_of_entity@, selected@)
        } else {
            Seq::empty()
        }),
{
    let mut r: Vec<ExternalId> = Vec::new();
    let pressed = match keys {
        Some(k) => k.just_pressed(KeyCode::Delete) || k.just_pressed(KeyCode::Backspace),
        None => false,
    };
    if !pressed {
        return r;
    }
    let mut i: usize = 0;
    while i < selected.len()
        invariant
            i <= selected@.len(),
            r@ == ids_of(index.node_of_entity@, selected@.take(i as int)),
        decreases selected@.len() - i,
    {
        if let Some(id) = index.node_of_entity.get(&selected[i]) {
            r.push(*id);
        }
        assert(selected@.take(i + 1).drop_last() =~= selected@.take(i as int));
        i = i + 1;
    }
    assert(selected@.take(i as int) =~= selected@);
    r
}

/// The select tool was left: every selected node is deselected, and where there
/// was one, the clearing is told.
pub fn clear_selection_on_tool_exit<T: View, P>(out: &mut SelectOutput<T, P>)
    ensures
        final(out)@ == (SelectOutputView {
            selected: seq![],
            effects: old(out)@.effects + deselects(old(out)@.selected),
            events: if old(out)@.selected.len() > 0 {
                old(out)@.events.push(SelectEventView::SelectionCleared)
            } else {
                old(out)@.events
            },
            app_events: old(out)@.app_events,
        }),
{
    deselect_all(&mut out.effects, &out.selected);
    if out.selected.len() > 0 {
        push_event(&mut out.events, SelectEvent::SelectionCleared);
    }
    out.selected = Vec::new();
    assert(out.selected@ =~= seq![]);
}

// ---------------------------------------------------------------------------
// Laws on single commands
// ---------------------------------------------------------------------------

/// Selecting a known node deselects each node that was selected, selects the
/// node, tells so and tells nothing else. Selecting an unknown one changes
/// nothing but tells an error that names it.
pub proof fn select_is_told<V, P>(
    out: SelectOutputView<V, P>,
    nodes: Map<ExternalId, Entity>,
    target: ExternalId,
    i: int,
)
    ensures
        ({
            let after = select_step(out, nodes, SelectCommand::Select { target });
            let n = out.effects.len();
            &&& nodes.dom().contains(target) ==> {
                &&& after.effects.len() == n + out.selected.len() + 1
                &&& after.effects.take(n as int) == out.effects
                &&& 0 <= i < out.selected.len() ==> after.effects[n + i] == (
                SelectEffect::Deselect { entity: out.selected[i] })
                &&& after.effects.last() == (SelectEffect::Select { entity: nodes[target] })
                &&& after.events == out.events.push(SelectEventView::Selected { target })
                &&& after.app_events == out.app_events
                &&& after.selected == seq![nodes[target]]
            }
            &&& !nodes.dom().contains(target) ==> {
                &&& after.effects == out.effects
                &&& after.events == out.events
                &&& after.selected == out.selected
                &&& after.app_events == out.app_events.push(
                    AppEventView::CommandError {
                        message: "Select::Select: unknown id "@ + (decimal(target.peer as nat)
                            + ":"@ + decimal(target.counter as nat)),
                    },
                )
            }
        }),
{
    let after = select_step(out, nodes, SelectCommand::Select { target });
    assert(after.effects.take(out.effects.len() as int) =~= out.effects);
}

/// Toggling a known node adds it to the selection or takes it out, touches no
/// other node, has one effect to match, and tells whether the node is selected
/// now. Toggling an unknown one changes nothing but tells an error that names it.
pub proof fn toggle_is_told<V, P>(
    out: SelectOutputView<V, P>,
    nodes: Map<ExternalId, Entity>,
    target: ExternalId,
    x: Entity,
)
    ensures
        ({
            let after = select_step(out, nodes, SelectCommand::Toggle { target });
            &&& nodes.dom().contains(target) ==> {
                let entity = nodes[target];
                let selected = after.selected.contains(entity);
                &&& selected != out.selected.contains(entity)
                &&& x != entity ==> (after.selected.contains(x) <==> out.selected.contains(x))
                &&& after.effects == out.effects.push(
                    if selected {
                        SelectEffect::Select { entity }
                    } else {
                        SelectEffect::Deselect { entity }
                    },
                )
                &&& after.events == out.events.push(SelectEventView::Toggled { target, selected })
                &&& after.app_events == out.app_events
            }
            &&& !nodes.dom().contains(target) ==> {
                &&& after.effects == out.effects
                &&& after.events == out.events
                &&& after.selected == out.selected
                &&& after.app_events == out.app_events.push(
                    AppEventView::CommandError {
                        message: "Select::Toggle: unknown id "@ + (decimal(target.peer as nat)
                            + ":"@ + decimal(target.counter as nat)),
                    },
                )
            }
        }),
{
    if nodes.dom().contains(target) {
        let entity = nodes[target];
        crate::seqs::lemma_filter_contains(out.selected, other_than(entity), entity);
        crate::seqs::lemma_filter_contains(out.selected, other_than(entity), x);
        crate::seqs::lemma_push_contains(out.selected, entity, entity);
        crate::seqs::lemma_push_contains(out.selected, entity, x);
    }
}

/// Clearing deselects each node that was selected and tells so, even where none
/// was.
pub proof fn clear_is_told<V, P>(
    out: SelectOutputView<V, P>,
    nodes: Map<ExternalId, Entity>,
    i: int,
)
    ensures
        ({
            let after = select_step(out, nodes, SelectCommand::ClearSelection);
            let n = out.effects.len();
            &&& after.effects.len() == n + out.selected.len()
            &&& after.effects.take(n as int) == out.effects
            &&& 0 <= i < out.selected.len() ==> after.effects[n + i] == (SelectEffect::Deselect {
                entity: out.selected[i],
            })
            &&& after.events == out.events.push(SelectEventView::SelectionCleared)
            &&& after.app_events == out.app_events
            &&& after.selected.len() == 0
        }),
{
    let after = select_step(out, nodes, SelectCommand::ClearSelection);
    assert(after.effects.take(out.effects.len() as int) =~= out.effects);
}

/// Deleting takes the known ones of the listed nodes out of the selection and
/// leaves the rest of it; it tells the known ones, in order and together, where
/// there are any, and for each unknown one an error that names it.
pub proof fn delete_is_told<V, P>(
    out: SelectOutputView<V, P>,
    nodes: Map<ExternalId, Entity>,
    ids: Vec<ExternalId>,
    id: ExternalId,
    x: Entity,
)
    ensures
        ({
            let after = select_step(out, nodes, SelectCommand::DeleteTargets { ids });
            let gone = exists|i: int|
                0 <= i < ids@.len() && nodes.dom().contains(#[trigger] ids@[i]) && nodes[ids@[i]]
                    == x;
            &&& after.selected.contains(x) <==> out.selected.contains(x) && !gone
            &&& (forall|i: int| 0 <= i < ids@.len() ==> !nodes.dom().contains(#[trigger] ids@[i]))
                ==> after.events == out.events && after.effects == out.effects
            &&& (exists|i: int| 0 <= i < ids@.len() && nodes.dom().contains(#[trigger] ids@[i]))
                ==> after.events.len() == out.events.len() + 1 && after.events.drop_last()
                == out.events && (after.events.last() matches SelectEventView::DeletedTargets {
                ids: told,
            } && (told.contains(id) <==> ids@.contains(id) && nodes.dom().contains(id)))
            &&& ids@.contains(id) && !nodes.dom().contains(id) ==> after.app_events.contains(
                AppEventView::CommandError {
                    message: "Select::DeleteTargets: unknown id "@ + (decimal(id.peer as nat)
                        + ":"@ + decimal(id.counter as nat)),
                },
            )
        }),
{
    let known = |i: ExternalId| nodes.dom().contains(i);
    let told = known_ids(nodes, ids@);
    let after = select_step(out, nodes, SelectCommand::DeleteTargets { ids });
    lemma_deleted(out, nodes, ids@);
    lemma_deleted_selection(out, nodes, ids@, id, x);
    crate::seqs::lemma_filter_contains(ids@, known, id);
    assert(told == ids@.filter(known));
    if told.len() > 0 {
        assert(told.contains(told[0]));
        crate::seqs::lemma_filter_contains(ids@, known, told[0]);
        let i = choose|i: int| 0 <= i < ids@.len() && ids@[i] == told[0];
        assert(nodes.dom().contains(ids@[i]));
        assert(after.events.drop_last() =~= out.events);
    } else {
        assert forall|i: int| 0 <= i < ids@.len() implies !nodes.dom().contains(
            #[trigger] ids@[i],
        ) by {
            crate::seqs::lemma_filter_contains(ids@, known, ids@[i]);
            assert(ids@.contains(ids@[i]));
        }
        assert(after.effects =~= out.effects);
    }
}

proof fn lemma_deleted_selection<V, P>(
    out: SelectOutputView<V, P>,
    nodes: Map<ExternalId, Entity>,
    ids: Seq<ExternalId>,
    id: ExternalId,
    x: Entity,
)
    ensures
        ({
            let after = deleted(out, nodes, ids);
            &&& after.events == out.events
            &&& after.selected.contains(x) <==> out.selected.contains(x) && !(exists|i: int|
                0 <= i < ids.len() && nodes.dom().contains(#[trigger] ids[i]) && nodes[ids[i]]
                    == x)
            &&& ids.contains(id) && !nodes.dom().contains(id) ==> after.app_events.contains(
                AppEventView::CommandError {
                    message: "Select::DeleteTargets: unknown id "@ + id_text(id),
                },
            )
        }),
    decreases ids.len(),
{
    if ids.len() > 0 {
        let init = ids.drop_last();
        let last = ids.last();
        let before = deleted(out, nodes, init);
        let after = deleted(out, nodes, ids);
        let error = AppEventView::<V, P>::CommandError {
            message: "Select::DeleteTargets: unknown id "@ + id_text(id),
        };
        lemma_deleted_selection(out, nodes, init, id, x);
        assert(ids =~= init.push(last));
        crate::seqs::lemma_push_contains(init, last, id);
        if nodes.dom().contains(last) {
            crate::seqs::lemma_filter_contains(before.selected, other_than(nodes[last]), x);
        } else {
            crate::seqs::lemma_push_contains(
                before.app_events,
                AppEventView::<V, P>::CommandError {
                    message: "Select::DeleteTargets: unknown id "@ + id_text(last),
                },
                error,
            );
        }
        if exists|i: int|
            0 <= i < ids.len() && nodes.dom().contains(#[trigger] ids[i]) && nodes[ids[i]] == x {
            let i = choose|i: int|
                0 <= i < ids.len() && nodes.dom().contains(#[trigger] ids[i]) && nodes[ids[i]] == x;
            if i < init.len() {
                assert(init[i] == ids[i]);
            }
        }
        if exists|i: int|
            0 <= i < init.len() && nodes.dom().contains(#[trigger] init[i]) && nodes[init[i]] == x {
            let i = choose|i: int|
                0 <= i < init.len() && nodes.dom().contains(#[trigger] init[i]) && nodes[init[i]]
                    == x;
            assert(ids[i] == init[i]);
        }
        assert(ids[ids.len() - 1] == last);
    }
}

/// Commands are carried out one after the other: a run and then one more command
/// is the run with that command at its end, and no commands do nothing.
pub proof fn commands_run_in_order<V, P>(
    out: SelectOutputView<V, P>,
    nodes: Map<ExternalId, Entity>,
    commands: Seq<SelectCommand>,
    last: SelectCommand,
)
    ensures
        select_run(out, nodes, Seq::<SelectCommand>::empty()) == out,
        select_run(out, nodes, commands.push(last)) == select_step(
            select_run(out, nodes, commands),
            nodes,
            last,
        ),
{
    assert(commands.push(last).drop_last() =~= commands);
}

/// The ids of some entities are exactly those that the entities have.
pub proof fn ids_are_those_of_the_entities(
    index: Map<Entity, ExternalId>,
    entities: Seq<Entity>,
    id: ExternalId,
)
    ensures
        ids_of(index, entities).contains(id) <==> exists|i: int|
            0 <= i < entities.len() && index.dom().contains(#[trigger] entities[i])
                && index[entities[i]] == id,
        (forall|i: int| 0 <= i < entities.len() ==> index.dom().contains(#[trigger] entities[i]))
            ==> ids_of(index, entities) == entities.map_values(|e: Entity| index[e]),
    decreases entities.len(),
{
    if entities.len() > 0 {
        let init = entities.drop_last();
        let last = entities.last();
        ids_are_those_of_the_entities(index, init, id);
        if index.dom().contains(last) {
            crate::seqs::lemma_push_contains(ids_of(index, init), index[last], id);
        }
        assert(entities[entities.len() - 1] == last);
        if exists|i: int|
            0 <= i < entities.len() && index.dom().contains(#[trigger] entities[i])
                && index[entities[i]] == id {
            let i = choose|i: int|
                0 <= i < entities.len() && index.dom().contains(#[trigger] entities[i])
                    && index[entities[i]] == id;
            if i < init.len() {
                assert(init[i] == entities[i]);
            }
        }
        if exists|i: int|
            0 <= i < init.len() && index.dom().contains(#[trigger] init[i]) && index[init[i]]
                == id {
            let i = choose|i: int|
                0 <= i < init.len() && index.dom().contains(#[trigger] init[i]) && index[init[i]]
                    == id;
            assert(entities[i] == init[i]);
        }
        if forall|i: int| 0 <= i < entities.len() ==> index.dom().contains(#[trigger] entities[i]) {
            assert forall|i: int| 0 <= i < init.len() implies index.dom().contains(
                #[trigger] init[i],
            ) by {
                assert(entities[i] == init[i]);
            }
            assert(index.dom().contains(entities[entities.len() - 1]));
            assert(ids_of(index, entities) =~= entities.map_values(|e: Entity| index[e]));
        }
    } else {
        assert(ids_of(index, entities) =~= entities.map_values(|e: Entity| index[e]));
    }
}

} // verus!
