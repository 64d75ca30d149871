//! Which board layer is active, which ones are shown, and which entities lie on
//! each.
use std::collections::HashMap;

use vstd::prelude::*;

use crate::agent::scene::Entity;
use crate::agent::world::lookup;
use crate::circuit::kinds::layer_with_id;
use crate::circuit::kinds::CircuitLayer;
use crate::circuit::kinds::OnLayer;
use crate::editor::keys::KeyCode;
use crate::editor::keys::Keys;
use crate::editor::topology::EdgeRow;
use crate::seqs::lemma_push_contains;

verus! {

/// The active layer, what is shown, and the index of entities by layer, kept in
/// both directions.
#[derive(Debug)]
pub struct LayerManager {
    active: CircuitLayer,
    visible: Vec<bool>,
    entities_by_layer: Vec<Vec<Entity>>,
    layer_by_entity: HashMap<Entity, CircuitLayer>,
}

/// What the manager knows.
#[verifier::ext_equal]
pub struct Layers {
    pub active: CircuitLayer,
    pub shown: spec_fn(CircuitLayer) -> bool,
    pub layer_of: Map<Entity, CircuitLayer>,
}

impl View for LayerManager {
    type V = Layers;

    closed spec fn view(&self) -> Layers {
        Layers {
            active: self.active,
            shown: |l: CircuitLayer| self.visible@[l.spec_slot()],
            layer_of: self.layer_by_entity@,
        }
    }
}

impl LayerManager {
    /// Both directions of the index agree, and no entity is listed twice.
    pub closed spec fn wf(self) -> bool {
        &&& self.visible@.len() == 4
        &&& self.entities_by_layer@.len() == 4
        &&& forall|l: CircuitLayer|
            (#[trigger] self.entities_by_layer@[l.spec_slot()])@.no_duplicates()
        &&& forall|l: CircuitLayer, e: Entity|
            (#[trigger] self.entities_by_layer@[l.spec_slot()])@.contains(e) <==> #[trigger] lookup(
                self.layer_by_entity@,
                e,
            ) == Some(l)
    }

    /// Currently active layer.
    pub fn active(&self) -> (r: CircuitLayer)
        ensures
            r == self@.active,
    {
        self.active
    }

    /// Makes `layer` the active one; the result tells whether it was not
    /// already.
    pub fn set_active(&mut self, layer: CircuitLayer) -> (r: bool)
        requires
            old(self).wf(),
        ensures
            final(self).wf(),
            final(self)@ == (Layers { active: layer, ..old(self)@ }),
            r == (old(self)@.active != layer),
    {
        if self.active == layer {
            return false;
        }
        self.active = layer;
        assert(self@.shown =~= old(self)@.shown);
        true
    }

    /// Whether `layer` is shown.
    pub fn is_visible(&self, layer: CircuitLayer) -> (r: bool)
        requires
            self.wf(),
        ensures
            r == (self@.shown)(layer),
    {
        self.visible[layer.slot()]
    }

    /// Shows or hides one layer.
    pub fn set_visible(&mut self, layer: CircuitLayer, visible: bool)
        requires
            old(self).wf(),
        ensures
            final(self).wf(),
            final(self)@ == (Layers {
                shown: |l: CircuitLayer|
                    if l == layer {
                        visible
                    } else {
                        (old(self)@.shown)(l)
                    },
                ..old(self)@
            }),
    {
        let slot: usize = layer.slot();
        self.visible.set(slot, visible);
        assert forall|l: CircuitLayer| #[trigger] (self@.shown)(l) == (if l == layer {
            visible
        } else {
            (old(self)@.shown)(l)
        }) by {
            assert(l.spec_slot() == slot <==> l == layer);
        }
        assert(self@.shown =~= (|l: CircuitLayer|
            if l == layer {
                visible
            } else {
                (old(self)@.shown)(l)
            }));
    }

    /// Shows a hidden layer, hides a shown one; the result is whether it is
    /// shown now.
    pub fn toggle_visibility(&mut self, layer: CircuitLayer) -> (r: bool)
        requires
            old(self).wf(),
        ensures
            final(self).wf(),
            r == !(old(self)@.shown)(layer),
            final(self)@ == (Layers {
                shown: |l: CircuitLayer|
                    if l == layer {
                        r
                    } else {
                        (old(self)@.shown)(l)
                    },
                ..old(self)@
            }),
    {
        let r = !self.is_visible(layer);
        self.set_visible(layer, r);
        r
    }

    /// The entities on `layer`, each once.
    pub fn entities_on(&self, layer: CircuitLayer) -> (r: &Vec<Entity>)
        requires
            self.wf(),
        ensures
            r@.no_duplicates(),
            forall|e: Entity|
                r@.contains(e) <==> #[trigger] lookup(self@.layer_of, e) == Some(layer),
    {
        &self.entities_by_layer[layer.slot()]
    }

    /// The layer of an entity, where it has one.
    pub fn layer_of(&self, entity: Entity) -> (r: Option<CircuitLayer>)
        requires
            self.wf(),
        ensures
            r == lookup(self@.layer_of, entity),
    {
        match self.layer_by_entity.get(&entity) {
            Some(layer) => Some(*layer),
            None => None,
        }
    }

    /// Takes `entity` out of the index.
    fn forget(&mut self, entity: Entity)
        requires
            old(self).wf(),
        ensures
            final(self).wf(),
            final(self)@ == (Layers {
                layer_of: old(self)@.layer_of.remove(entity),
                ..old(self)@
            }),
    {
        match self.layer_by_entity.remove(&entity) {
            None => {
                assert(old(self)@.layer_of.remove(entity) =~= old(self)@.layer_of);
                assert(self.layer_by_entity@ == old(self).layer_by_entity@);
            },
            Some(layer) => {
                let slot: usize = layer.slot();
                assert(lookup(old(self).layer_by_entity@, entity) == Some(layer));
                assert(old(self).entities_by_layer@[layer.spec_slot()]@.contains(entity));
                take_out(&mut self.entities_by_layer[slot], entity);
                let ghost lists = self.entities_by_layer@;
                let ghost before = old(self).entities_by_layer@;
                assert forall|l: CircuitLayer, e: Entity|
                    (#[trigger] lists[l.spec_slot()])@.contains(e) <==> #[trigger] lookup(
                        self.layer_by_entity@,
                        e,
                    ) == Some(l) by {
                    assert(before[l.spec_slot()]@.contains(e) <==> lookup(
                        old(self).layer_by_entity@,
                        e,
                    ) == Some(l));
                    assert(l.spec_slot() == slot <==> l == layer);
                }
                assert forall|l: CircuitLayer| (#[trigger] lists[l.spec_slot()])@.no_duplicates() by {
                    assert(before[l.spec_slot()]@.no_duplicates());
                }
            },
        }
        assert(self@.shown =~= old(self)@.shown);
    }

    /// Puts `entity` on `layer`, and off the one it was on.
    fn place(&mut self, entity: Entity, layer: CircuitLayer)
        requires
            old(self).wf(),
        ensures
            final(self).wf(),
            final(self)@ == (Layers {
                layer_of: old(self)@.layer_of.insert(entity, layer),
                ..old(self)@
            }),
    {
        self.forget(entity);
        let ghost mid = *self;
        let slot: usize = layer.slot();
        assert(lookup(mid.layer_by_entity@, entity) is None);
        assert(mid.entities_by_layer@[layer.spec_slot()]@.no_duplicates());
        assert(!mid.entities_by_layer@[layer.spec_slot()]@.contains(entity));
        self.layer_by_entity.insert(entity, layer);
        self.entities_by_layer[slot].push(entity);
        let ghost lists = self.entities_by_layer@;
        assert forall|l: CircuitLayer, e: Entity|
            (#[trigger] lists[l.spec_slot()])@.contains(e) <==> #[trigger] lookup(
                self.layer_by_entity@,
                e,
            ) == Some(l) by {
            assert(mid.entities_by_layer@[l.spec_slot()]@.contains(e) <==> lookup(
                mid.layer_by_entity@,
                e,
            ) == Some(l));
            assert(l.spec_slot() == slot <==> l == layer);
            lemma_push_contains(mid.entities_by_layer@[layer.spec_slot()]@, entity, e);
        }
        assert forall|l: CircuitLayer| (#[trigger] lists[l.spec_slot()])@.no_duplicates() by {
            assert(mid.entities_by_layer@[l.spec_slot()]@.no_duplicates());
        }
        assert(self@.layer_of =~= old(self)@.layer_of.insert(entity, layer));
        assert(self@.shown =~= old(self)@.shown);
    }
}

/// Removes `entity` from a list that holds it once.
fn take_out(list: &mut Vec<Entity>, entity: Entity)
    requires
        old(list)@.no_duplicates(),
    ensures
        final(list)@.no_duplicates(),
        forall|e: Entity| final(list)@.contains(e) <==> old(list)@.contains(e) && e != entity,
{
    let mut i: usize = 0;
    while i < list.len()
        invariant
            i <= list@.len(),
            list@ == old(list)@,
            list@.no_duplicates(),
            forall|k: int| 0 <= k < i ==> list@[k] != entity,
        decreases list@.len() - i,
    {
        if list[i] == entity {
            let ghost before = list@;
            list.remove(i);
            assert forall|e: Entity| list@.contains(e) <==> before.contains(e) && e != entity by {
                if list@.contains(e) {
                    let k = choose|k: int| 0 <= k < list@.len() && list@[k] == e;
                    let j = if k < i {
                        k
                    } else {
                        k + 1
                    };
                    assert(before[j] == e);
                }
                if before.contains(e) && e != entity {
                    let j = choose|j: int| 0 <= j < before.len() && before[j] == e;
                    let k = if j < i {
                        j
                    } else {
                        j - 1
                    };
                    assert(list@[k] == e);
                }
            }
            return;
        }
        i = i + 1;
    }
}

impl Default for LayerManager {
    /// The bottom layer is active, every layer is shown, and none has entities.
    fn default() -> (r: Self)
        ensures
            r.wf(),
            r@ == (Layers {
                active: CircuitLayer::Signal,
                shown: |l: CircuitLayer| true,
                layer_of: Map::empty(),
            }),
    {
        let r = LayerManager {
            active: CircuitLayer::Signal,
            visible: vec![true, true, true, true],
            entities_by_layer: vec![Vec::new(), Vec::new(), Vec::new(), Vec::new()],
            layer_by_entity: HashMap::new(),
        };
        assert(r@.shown =~= (|l: CircuitLayer| true)) by {
            assert forall|l: CircuitLayer| #[trigger] (r@.shown)(l) by {
                assert(0 <= l.spec_slot() < 4);
            }
        }
        r
    }
}

/// The index, once the listed layer tags have come in. Tags that name no layer
/// are passed over.
pub open spec fn indexed(
    layer_of: Map<Entity, CircuitLayer>,
    changed: Seq<(Entity, OnLayer)>,
) -> Map<Entity, CircuitLayer>
    decreases changed.len(),
{
    if changed.len() == 0 {
        layer_of
    } else {
        let before = indexed(layer_of, changed.drop_last());
        match layer_with_id(changed.last().1.id) {
            Some(layer) => before.insert(changed.last().0, layer),
            None => before,
        }
    }
}

/// Takes in the layer tags of nodes that are new or changed theirs.
pub fn index_node_layers(manager: &mut LayerManager, changed: &Vec<(Entity, OnLayer)>)
    requires
        old(manager).wf(),
    ensures
        final(manager).wf(),
        final(manager)@ == (Layers {
            layer_of: indexed(old(manager)@.layer_of, changed@),
            ..old(manager)@
        }),
{
    let mut i: usize = 0;
    while i < changed.len()
        invariant
            i <= changed@.len(),
            manager.wf(),
            manager@ == (Layers {
                layer_of: indexed(old(manager)@.layer_of, changed@.take(i as int)),
                ..old(manager)@
            }),
        decreases changed@.len() - i,
    {
        let (entity, on_layer) = changed[i];
        if let Some(layer) = on_layer.layer() {
            manager.place(entity, layer);
        }
        assert(changed@.take(i + 1).drop_last() =~= changed@.take(i as int));
        i = i + 1;
    }
    assert(changed@.take(i as int) =~= changed@);
}

/// Drops nodes that went from the index.
pub fn forget_removed_nodes(manager: &mut LayerManager, removed: &Vec<Entity>)
    requires
        old(manager).wf(),
    ensures
        final(manager).wf(),
        final(manager)@ == (Layers {
            layer_of: old(manager)@.layer_of.remove_keys(removed@.to_set()),
            ..old(manager)@
        }),
{
    let ghost start = old(manager)@.layer_of;
    let mut i: usize = 0;
    assert(start.remove_keys(removed@.take(0).to_set()) =~= start);
    while i < removed.len()
        invariant
            i <= removed@.len(),
            manager.wf(),
            start == old(manager)@.layer_of,
            manager@ == (Layers {
                layer_of: start.remove_keys(removed@.take(i as int).to_set()),
                ..old(manager)@
            }),
        decreases removed@.len() - i,
    {
        manager.forget(removed[i]);
        proof {
            let now = removed@.take(i + 1);
            let last = removed@[i as int];
            assert(now =~= removed@.take(i as int).push(last));
            assert forall|e: Entity| now.to_set().contains(e) <==> removed@.take(
                i as int,
            ).to_set().contains(e) || e == last by {
                lemma_push_contains(removed@.take(i as int), last, e);
            }
            assert(manager@.layer_of =~= start.remove_keys(now.to_set()));
        }
        i = i + 1;
    }
    assert(removed@.take(i as int) =~= removed@);
}

/// The digit key of a layer, among those that went down: the lowest one counts.
pub open spec fn pressed_layer(keys: Option<Keys>) -> Option<CircuitLayer> {
    match keys {
        None => None,
        Some(k) => if k.fresh@.contains(KeyCode::Digit(1)) {
            Some(CircuitLayer::Signal)
        } else if k.fresh@.contains(KeyCode::Digit(2)) {
            Some(CircuitLayer::Power)
        } else if k.fresh@.contains(KeyCode::Digit(3)) {
            Some(CircuitLayer::Ground)
        } else if k.fresh@.contains(KeyCode::Digit(4)) {
            Some(CircuitLayer::Mechanical)
        } else {
            None
        },
    }
}

/// A digit key makes its layer the active one; with shift it shows or hides
/// that layer instead.
pub open spec fn keyed(layers: Layers, keys: Option<Keys>) -> Layers {
    match pressed_layer(keys) {
        None => layers,
        Some(layer) => if keys->0.shifted() {
            Layers {
                shown: |l: CircuitLayer|
                    if l == layer {
                        !(layers.shown)(layer)
                    } else {
                        (layers.shown)(l)
                    },
                ..layers
            }
        } else {
            Layers { active: layer, ..layers }
        },
    }
}

pub fn layer_hotkeys(keys: &Option<Keys>, manager: &mut LayerManager)
    requires
        old(manager).wf(),
    ensures
        final(manager).wf(),
        final(manager)@ == keyed(old(manager)@, *keys),
{
    let keys = match keys {
        Some(k) => k,
        None => {
            return;
        },
    };
    let id: u32 = if keys.just_pressed(KeyCode::Digit(1)) {
        1
    } else if keys.just_pressed(KeyCode::Digit(2)) {
        2
    } else if keys.just_pressed(KeyCode::Digit(3)) {
        3
    } else if keys.just_pressed(KeyCode::Digit(4)) {
        4
    } else {
        0
    };
    match CircuitLayer::from_id(id) {
        None => {},
        Some(layer) => {
            if keys.shift() {
                manager.toggle_visibility(layer);
                assert(manager@.shown =~= keyed(old(manager)@, Some(*keys)).shown);
            } else {
                manager.set_active(layer);
            }
        },
    }
}

/// Whether an entity is drawn.
#[derive(Clone, Copy, Debug, PartialEq, Eq, Structural)]
pub enum Visibility {
    Inherited,
    Visible,
    Hidden,
}

pub open spec fn visibility(shown: bool) -> Visibility {
    if shown {
        Visibility::Visible
    } else {
        Visibility::Hidden
    }
}

/// The nodes whose visibility is to change, and to what: each node follows its
/// layer; one without a known layer stays as it is.
pub open spec fn node_changes(
    layers: Layers,
    nodes: Seq<(Entity, OnLayer, Visibility)>,
) -> Seq<(Entity, Visibility)>
    decreases nodes.len(),
{
    if nodes.len() == 0 {
        Seq::empty()
    } else {
        let before = node_changes(layers, nodes.drop_last());
        let (entity, tag, current) = nodes.last();
        match layer_with_id(tag.id) {
            Some(layer) if current != visibility((layers.shown)(layer)) => before.push(
                (entity, visibility((layers.shown)(layer))),
            ),
            _ => before,
        }
    }
}

/// The visibility changes of the nodes, after the manager changed.
pub fn apply_node_visibility(
    manager: &LayerManager,
    is_changed: bool,
    nodes: &Vec<(Entity, OnLayer, Visibility)>,
) -> (r: Vec<(Entity, Visibility)>)
    requires
        manager.wf(),
    ensures
        r@ == (if is_changed {
            node_changes(manager@, nodes@)
        } else {
            Seq::empty()
        }),
{
    let mut r: Vec<(Entity, Visibility)> = Vec::new();
    if !is_changed {
        return r;
    }
    let mut i: usize = 0;
    while i < nodes.len()
        invariant
            i <= nodes@.len(),
            manager.wf(),
            r@ == node_changes(manager@, nodes@.take(i as int)),
        decreases nodes@.len() - i,
    {
        let (entity, tag, current) = nodes[i];
        if let Some(layer) = tag.layer() {
            let target = if manager.is_visible(layer) {
                Visibility::Visible
            } else {
                Visibility::Hidden
            };
            if current != target {
                r.push((entity, target));
            }
        }
        assert(nodes@.take(i + 1).drop_last() =~= nodes@.take(i as int));
        i = i + 1;
    }
    assert(nodes@.take(i as int) =~= nodes@);
    r
}

/// Whether the layer of an entity is shown; an entity without a layer counts as
/// shown.
pub open spec fn entity_shown(layers: Layers, e: Entity) -> bool {
    match lookup(layers.layer_of, e) {
        Some(layer) => (layers.shown)(layer),
        None => true,
    }
}

/// An edge is shown if and only if both its ends are.
pub open spec fn edge_shown(layers: Layers, row: EdgeRow) -> bool {
    entity_shown(layers, row.from) && entity_shown(layers, row.to)
}

/// The edges whose visibility is to change, and to what. An edge that has no
/// visibility yet is passed over.
pub open spec fn edge_changes(
    layers: Layers,
    edges: Seq<(EdgeRow, Option<Visibility>)>,
) -> Seq<(Entity, Visibility)>
    decreases edges.len(),
{
    if edges.len() == 0 {
        Seq::empty()
    } else {
        let before = edge_changes(layers, edges.drop_last());
        let (row, current) = edges.last();
        match current {
            Some(v) if v != visibility(edge_shown(layers, row)) => before.push(
                (row.edge, visibility(edge_shown(layers, row))),
            ),
            _ => before,
        }
    }
}

/// The visibility changes of the edges, after the manager changed.
pub fn apply_edge_visibility(
    manager: &LayerManager,
    is_changed: bool,
    edges: &Vec<(EdgeRow, Option<Visibility>)>,
) -> (r: Vec<(Entity, Visibility)>)
    requires
        manager.wf(),
    ensures
        r@ == (if is_changed {
            edge_changes(manager@, edges@)
        } else {
            Seq::empty()
        }),
{
    let mut r: Vec<(Entity, Visibility)> = Vec::new();
    if !is_changed {
        return r;
    }
    let mut i: usize = 0;
    while i < edges.len()
        invariant
            i <= edges@.len(),
            manager.wf(),
            r@ == edge_changes(manager@, edges@.take(i as int)),
        decreases edges@.len() - i,
    {
        let (row, current) = edges[i];
        let from_visible = match manager.layer_of(row.from) {
            Some(layer) => manager.is_visible(layer),
            None => true,
        };
        let to_visible = match manager.layer_of(row.to) {
            Some(layer) => manager.is_visible(layer),
            None => true,
        };
        let target = if from_visible && to_visible {
            Visibility::Visible
        } else {
            Visibility::Hidden
        };
        if let Some(v) = current {
            if v != target {
                r.push((row.edge, target));
            }
        }
        assert(edges@.take(i + 1).drop_last() =~= edges@.take(i as int));
        i = i + 1;
    }
    assert(edges@.take(i as int) =~= edges@);
    r
}

/// Pressing a digit with shift twice leaves everything as it was.
pub proof fn hotkey_toggle_twice(layers: Layers, keys: Option<Keys>)
    requires
        keys is Some,
        keys->0.shifted(),
    ensures
        keyed(keyed(layers, keys), keys) == layers,
{
    let twice = keyed(keyed(layers, keys), keys);
    assert(twice.shown =~= layers.shown);
}

/// Pressing a digit without shift twice is the same as pressing it once.
pub proof fn hotkey_active_idempotent(layers: Layers, keys: Option<Keys>)
    requires
        keys is Some,
        !keys->0.shifted(),
    ensures
        keyed(keyed(layers, keys), keys) == keyed(layers, keys),
{
}

/// The last tag of an entity that names a layer decides where it is indexed.
pub proof fn last_tag_decides(
    layer_of: Map<Entity, CircuitLayer>,
    changed: Seq<(Entity, OnLayer)>,
    entity: Entity,
    tag: OnLayer,
)
    ensures
        indexed(layer_of, changed.push((entity, tag))) == (match layer_with_id(tag.id) {
            Some(layer) => indexed(layer_of, changed).insert(entity, layer),
            None => indexed(layer_of, changed),
        }),
{
    assert(changed.push((entity, tag)).drop_last() =~= changed);
}

/// A digit names the layer with that id: of several that went down, the lowest
/// counts; other keys, and digits that name no layer, name none.
pub proof fn lowest_digit_names_the_layer(k: Keys, d: u8)
    ensures
        1 <= d <= 4 && k.fresh@.contains(KeyCode::Digit(d)) && (forall|e: u8|
            1 <= e < d ==> !#[trigger] k.fresh@.contains(KeyCode::Digit(e))) ==> pressed_layer(
            Some(k),
        ) == layer_with_id(d as u32),
        (forall|e: u8| 1 <= e <= 4 ==> !#[trigger] k.fresh@.contains(KeyCode::Digit(e)))
            ==> pressed_layer(Some(k)) is None,
        pressed_layer(None) is None,
{
}

/// A digit without shift makes its layer the active one and shows or hides
/// nothing; with shift it shows or hides its layer and leaves the active one
/// alone. No digit changes anything.
pub proof fn digits_choose_or_toggle(layers: Layers, k: Keys, l: CircuitLayer)
    ensures
        ({
            let after = keyed(layers, Some(k));
            let shift = k.held@.contains(KeyCode::ShiftLeft) || k.held@.contains(
                KeyCode::ShiftRight,
            );
            &&& after.layer_of == layers.layer_of
            &&& pressed_layer(Some(k)) is None ==> after == layers
            &&& pressed_layer(Some(k)) matches Some(layer) ==> {
                &&& !shift ==> after.active == layer && (after.shown)(l) == (layers.shown)(l)
                &&& shift ==> after.active == layers.active && (after.shown)(l) == (
                (layers.shown)(l) != (l == layer))
            }
        }),
        keyed(layers, None) == layers,
{
}

/// The nodes whose visibility changes, in order: each whose layer is known and
/// that is not yet as its layer is, visible where the layer is shown and hidden
/// where it is not.
pub proof fn nodes_follow_their_layer(
    layers: Layers,
    nodes: Seq<(Entity, OnLayer, Visibility)>,
    next: (Entity, OnLayer, Visibility),
)
    ensures
        node_changes(layers, Seq::empty()).len() == 0,
        ({
            let before = node_changes(layers, nodes);
            let after = node_changes(layers, nodes.push(next));
            let layer = layer_with_id(next.1.id);
            &&& layer is None ==> after == before
            &&& layer is Some && (layers.shown)(layer->0) ==> after == (if next.2
                == Visibility::Visible {
                before
            } else {
                before.push((next.0, Visibility::Visible))
            })
            &&& layer is Some && !(layers.shown)(layer->0) ==> after == (if next.2
                == Visibility::Hidden {
                before
            } else {
                before.push((next.0, Visibility::Hidden))
            })
        }),
{
    assert(nodes.push(next).drop_last() =~= nodes);
}

/// The edges whose visibility changes, in order: each that has a visibility and
/// is not yet as its ends are, visible where the layers of both ends are shown
/// and hidden where one of them is not. An end without a layer counts as shown.
pub proof fn edges_follow_both_ends(
    layers: Layers,
    edges: Seq<(EdgeRow, Option<Visibility>)>,
    next: (EdgeRow, Option<Visibility>),
)
    ensures
        edge_changes(layers, Seq::empty()).len() == 0,
        ({
            let before = edge_changes(layers, edges);
            let after = edge_changes(layers, edges.push(next));
            let from = layers.layer_of.dom().contains(next.0.from) ==> (layers.shown)(
                layers.layer_of[next.0.from],
            );
            let to = layers.layer_of.dom().contains(next.0.to) ==> (layers.shown)(
                layers.layer_of[next.0.to],
            );
            &&& next.1 is None ==> after == before
            &&& next.1 is Some && from && to ==> after == (if next.1 == Some(
                Visibility::Visible,
            ) {
                before
            } else {
                before.push((next.0.edge, Visibility::Visible))
            })
            &&& next.1 is Some && !(from && to) ==> after == (if next.1 == Some(
                Visibility::Hidden,
            ) {
                before
            } else {
                before.push((next.0.edge, Visibility::Hidden))
            })
        }),
{
    assert(edges.push(next).drop_last() =~= edges);
}

} // verus!
