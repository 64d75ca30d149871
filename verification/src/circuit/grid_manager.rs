//! One grid per board layer, and whether dragged components snap to it. `L` is
//! the layout of a grid.
use std::collections::HashMap;

use vstd::prelude::*;

use crate::agent::scene::Entity;
use crate::circuit::kinds::all_layers;
use crate::circuit::kinds::layer_with_id;
use crate::circuit::kinds::CircuitLayer;
use crate::circuit::kinds::OnLayer;
use crate::circuit::layer_manager::LayerManager;
use crate::circuit::layer_manager::Layers;
use crate::editor::keys::went_down;
use crate::editor::keys::KeyCode;
use crate::editor::keys::Keys;

verus! {

/// The layouts of the layers, and the snap switch.
#[derive(Debug)]
pub struct GridManager<L> {
    layouts: Vec<L>,
    snap_enabled: bool,
}

impl<L> GridManager<L> {
    /// Every layer has a layout.
    pub closed spec fn wf(self) -> bool {
        self.layouts@.len() == 4
    }

    pub closed spec fn spec_layout(self, layer: CircuitLayer) -> L {
        self.layouts@[layer.spec_slot()]
    }

    pub closed spec fn snaps(self) -> bool {
        self.snap_enabled
    }

    /// The given layouts, with snapping on.
    pub fn new(signal: L, power: L, ground: L, mechanical: L) -> (r: Self)
        ensures
            r.wf(),
            r.snaps(),
            r.spec_layout(CircuitLayer::Signal) == signal,
            r.spec_layout(CircuitLayer::Power) == power,
            r.spec_layout(CircuitLayer::Ground) == ground,
            r.spec_layout(CircuitLayer::Mechanical) == mechanical,
    {
        let mut layouts: Vec<L> = Vec::new();
        layouts.push(signal);
        layouts.push(power);
        layouts.push(ground);
        layouts.push(mechanical);
        GridManager { layouts, snap_enabled: true }
    }

    pub fn layout(&self, layer: CircuitLayer) -> (r: &L)
        requires
            self.wf(),
        ensures
            *r == self.spec_layout(layer),
    {
        &self.layouts[layer.slot()]
    }

    pub fn set_layout(&mut self, layer: CircuitLayer, layout: L)
        requires
            old(self).wf(),
        ensures
            final(self).wf(),
            final(self).snaps() == old(self).snaps(),
            forall|l: CircuitLayer|
                #[trigger] final(self).spec_layout(l) == (if l == layer {
                    layout
                } else {
                    old(self).spec_layout(l)
                }),
    {
        let slot: usize = layer.slot();
        self.layouts.set(slot, layout);
        assert forall|l: CircuitLayer| l.spec_slot() == slot <==> l == layer by {}
    }

    pub fn snap_enabled(&self) -> (r: bool)
        ensures
            r == self.snaps(),
    {
        self.snap_enabled
    }

    /// Turns snapping on or off; the result is whether it is on now.
    pub fn toggle_snap(&mut self) -> (r: bool)
        ensures
            r == !old(self).snaps(),
            final(self).snaps() == r,
            final(self).wf() == old(self).wf(),
            forall|l: CircuitLayer|
                #[trigger] final(self).spec_layout(l) == old(self).spec_layout(l),
    {
        self.snap_enabled = !self.snap_enabled;
        self.snap_enabled
    }
}

/// The key for Q turns snapping on or off.
pub fn snap_hotkey<L>(keys: &Option<Keys>, grid: &mut GridManager<L>)
    ensures
        final(grid).snaps() == (old(grid).snaps() != went_down(*keys, KeyCode::Letter('Q'))),
        final(grid).wf() == old(grid).wf(),
        forall|l: CircuitLayer| #[trigger] final(grid).spec_layout(l) == old(grid).spec_layout(l),
{
    match keys {
        Some(k) => {
            if k.just_pressed(KeyCode::Letter('Q')) {
                grid.toggle_snap();
            }
        },
        None => {},
    }
}

/// The dragged entities that are to snap, each with its layer: those whose tag
/// names one.
pub open spec fn snapped(
    ends: Seq<Entity>,
    tags: Map<Entity, OnLayer>,
) -> Seq<(Entity, CircuitLayer)>
    decreases ends.len(),
{
    if ends.len() == 0 {
        Seq::empty()
    } else {
        let before = snapped(ends.drop_last(), tags);
        let e = ends.last();
        if tags.dom().contains(e) {
            match layer_with_id(tags[e].id) {
                Some(layer) => before.push((e, layer)),
                None => before,
            }
        } else {
            before
        }
    }
}

/// Drags ended: the nodes that commit to a cell of their layer's grid. `tags`
/// holds the layer tags of the nodes.
pub fn snap_on_drag_end<L>(
    grid: &GridManager<L>,
    drag_ends: &Vec<Entity>,
    tags: &HashMap<Entity, OnLayer>,
) -> (r: Vec<(Entity, CircuitLayer)>)
    ensures
        r@ == (if grid.snaps() {
            snapped(drag_ends@, tags@)
        } else {
            Seq::empty()
        }),
{
    let mut r: Vec<(Entity, CircuitLayer)> = Vec::new();
    if !grid.snap_enabled() {
        return r;
    }
    let mut i: usize = 0;
    while i < drag_ends.len()
        invariant
            i <= drag_ends@.len(),
                r@ == snapped(drag_ends@.take(i as int), tags@),
        decreases drag_ends@.len() - i,
    {
        if let Some(tag) = tags.get(&drag_ends[i]) {
            if let Some(layer) = tag.layer() {
                r.push((drag_ends[i], layer));
            }
        }
        assert(drag_ends@.take(i + 1).drop_last() =~= drag_ends@.take(i as int));
        i = i + 1;
    }
    assert(drag_ends@.take(i as int) =~= drag_ends@);
    r
}

/// The layer on which the cell under the pointer is previewed: the active one,
/// unless it is hidden or snapping is off.
pub fn preview_layer<L>(grid: &GridManager<L>, layers: &LayerManager) -> (r: Option<CircuitLayer>)
    requires
        layers.wf(),
    ensures
        r == (if grid.snaps() && (layers@.shown)(layers@.active) {
            Some(layers@.active)
        } else {
            None
        }),
{
    let active = layers.active();
    if grid.snap_enabled() && layers.is_visible(active) {
        Some(active)
    } else {
        None
    }
}

/// The grids to draw among the first `n` layers, and whether each is that of the
/// active one.
pub open spec fn planes(layers: Layers, n: int) -> Seq<(CircuitLayer, bool)>
    decreases n,
{
    if n <= 0 {
        Seq::empty()
    } else {
        let before = planes(layers, n - 1);
        let layer = all_layers()[n - 1];
        if (layers.shown)(layer) {
            before.push((layer, layer == layers.active))
        } else {
            before
        }
    }
}

/// The grids to draw: those of the layers that are shown, from the bottom up,
/// with the active one marked.
pub fn grid_planes(layers: &LayerManager) -> (r: Vec<(CircuitLayer, bool)>)
    requires
        layers.wf(),
    ensures
        r@ == planes(layers@, 4),
{
    let all = CircuitLayer::all();
    let active = layers.active();
    let mut r: Vec<(CircuitLayer, bool)> = Vec::new();
    let mut i: usize = 0;
    while i < all.len()
        invariant
            i <= all@.len(),
            all@ == all_layers(),
            active == layers@.active,
            layers.wf(),
            r@ == planes(layers@, i as int),
        decreases all@.len() - i,
    {
        if layers.is_visible(all[i]) {
            r.push((all[i], all[i] == active));
        }
        i = i + 1;
    }
    r
}

// ---------------------------------------------------------------------------
// Laws
// ---------------------------------------------------------------------------

/// Nodes that were dragged snap in the order in which their drags ended, each to
/// the grid of the layer that its tag names; one without a tag, or with a tag
/// that names no layer, does not.
pub proof fn dragged_nodes_snap_to_their_layer(
    ends: Seq<Entity>,
    tags: Map<Entity, OnLayer>,
    next: Entity,
)
    ensures
        snapped(Seq::empty(), tags).len() == 0,
        tags.dom().contains(next) && layer_with_id(tags[next].id) is Some ==> snapped(
            ends.push(next),
            tags,
        ) == snapped(ends, tags).push((next, layer_with_id(tags[next].id)->0)),
        !tags.dom().contains(next) || layer_with_id(tags[next].id) is None ==> snapped(
            ends.push(next),
            tags,
        ) == snapped(ends, tags),
{
    assert(ends.push(next).drop_last() =~= ends);
}

/// The grids drawn are those of the layers that are shown, each once, and the one
/// marked as active is that of the active layer.
pub proof fn shown_grids_are_drawn(layers: Layers, layer: CircuitLayer, active: bool)
    ensures
        planes(layers, 4).contains((layer, active)) <==> (layers.shown)(layer) && active == (layer
            == layers.active),
{
    let all = all_layers();
    assert(all[0] == CircuitLayer::Signal && all[1] == CircuitLayer::Power && all[2]
        == CircuitLayer::Ground && all[3] == CircuitLayer::Mechanical);
    let x = (layer, active);
    let none = planes(layers, 0);
    let one = planes(layers, 1);
    let two = planes(layers, 2);
    let three = planes(layers, 3);
    assert(none =~= seq![]);
    crate::seqs::lemma_push_contains(none, (all[0], all[0] == layers.active), x);
    crate::seqs::lemma_push_contains(one, (all[1], all[1] == layers.active), x);
    crate::seqs::lemma_push_contains(two, (all[2], all[2] == layers.active), x);
    crate::seqs::lemma_push_contains(three, (all[3], all[3] == layers.active), x);
}

} // verus!
