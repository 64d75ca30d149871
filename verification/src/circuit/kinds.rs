//! The kinds of board layers, components and edges.
use vstd::prelude::*;

use crate::table::TableKey;

verus! {

/// The layers of a board, from the bottom up.
#[derive(Clone, Copy, Debug, PartialEq, Eq, Structural)]
pub enum CircuitLayer {
    Signal,
    Power,
    Ground,
    Mechanical,
}

impl Default for CircuitLayer {
    fn default() -> (r: Self)
        ensures
            r == CircuitLayer::Signal,
    {
        CircuitLayer::Signal
    }
}

impl TableKey for CircuitLayer {
    fn same_key(&self, other: &Self) -> (r: bool) {
        *self == *other
    }
}

/// The layer with a numeric id. Ids start at one.
pub open spec fn layer_with_id(id: u32) -> Option<CircuitLayer> {
    if id == 1 {
        Some(CircuitLayer::Signal)
    } else if id == 2 {
        Some(CircuitLayer::Power)
    } else if id == 3 {
        Some(CircuitLayer::Ground)
    } else if id == 4 {
        Some(CircuitLayer::Mechanical)
    } else {
        None
    }
}

/// All layers, in the order of their ids.
pub open spec fn all_layers() -> Seq<CircuitLayer> {
    seq![
        CircuitLayer::Signal,
        CircuitLayer::Power,
        CircuitLayer::Ground,
        CircuitLayer::Mechanical,
    ]
}

impl CircuitLayer {
    pub fn all() -> (r: Vec<CircuitLayer>)
        ensures
            r@ == all_layers(),
    {
        let r = vec![
            CircuitLayer::Signal,
            CircuitLayer::Power,
            CircuitLayer::Ground,
            CircuitLayer::Mechanical,
        ];
        assert(r@ =~= all_layers());
        r
    }

    /// The layer's numeric id, which is never zero.
    pub fn id(self) -> (r: u32)
        ensures
            layer_with_id(r) == Some(self),
            1 <= r <= 4,
    {
        match self {
            CircuitLayer::Signal => 1,
            CircuitLayer::Power => 2,
            CircuitLayer::Ground => 3,
            CircuitLayer::Mechanical => 4,
        }
    }

    pub fn from_id(id: u32) -> (r: Option<CircuitLayer>)
        ensures
            r == layer_with_id(id),
    {
        match id {
            1 => Some(CircuitLayer::Signal),
            2 => Some(CircuitLayer::Power),
            3 => Some(CircuitLayer::Ground),
            4 => Some(CircuitLayer::Mechanical),
            _ => None,
        }
    }

    /// Where the layer stands among all layers.
    pub open spec fn spec_slot(self) -> int {
        match self {
            CircuitLayer::Signal => 0,
            CircuitLayer::Power => 1,
            CircuitLayer::Ground => 2,
            CircuitLayer::Mechanical => 3,
        }
    }

    pub(crate) fn slot(self) -> (r: usize)
        ensures
            r == self.spec_slot(),
            all_layers()[r as int] == self,
    {
        match self {
            CircuitLayer::Signal => 0,
            CircuitLayer::Power => 1,
            CircuitLayer::Ground => 2,
            CircuitLayer::Mechanical => 3,
        }
    }
}

/// The layer tag of a node, as it is replicated: a raw id that may be none of
/// the known ones.
#[derive(Clone, Copy, Debug, PartialEq, Eq, Structural)]
pub struct OnLayer {
    pub id: u32,
}

impl OnLayer {
    pub fn new(layer: CircuitLayer) -> (r: Self)
        ensures
            layer_with_id(r.id) == Some(layer),
    {
        OnLayer { id: layer.id() }
    }

    pub fn layer(&self) -> (r: Option<CircuitLayer>)
        ensures
            r == layer_with_id(self.id),
    {
        CircuitLayer::from_id(self.id)
    }
}

/// The kinds of components.
#[derive(Clone, Copy, Debug, PartialEq, Eq, Structural)]
pub enum ComponentKind {
    Resistor,
    Capacitor,
    Inductor,
    VoltageSource,
    Ground,
}

impl Default for ComponentKind {
    fn default() -> (r: Self)
        ensures
            r == ComponentKind::Resistor,
    {
        ComponentKind::Resistor
    }
}

/// All component kinds, in the order in which they are offered.
pub open spec fn all_components() -> Seq<ComponentKind> {
    seq![
        ComponentKind::Resistor,
        ComponentKind::Capacitor,
        ComponentKind::Inductor,
        ComponentKind::VoltageSource,
        ComponentKind::Ground,
    ]
}

impl ComponentKind {
    pub fn all() -> (r: Vec<ComponentKind>)
        ensures
            r@ == all_components(),
    {
        let r = vec![
            ComponentKind::Resistor,
            ComponentKind::Capacitor,
            ComponentKind::Inductor,
            ComponentKind::VoltageSource,
            ComponentKind::Ground,
        ];
        assert(r@ =~= all_components());
        r
    }
}

/// The kinds of edges between components.
#[derive(Clone, Copy, Debug, PartialEq, Eq, Structural)]
pub enum CircuitEdgeKind {
    Wire,
    SameNet,
    DifferentialPair,
}

impl Default for CircuitEdgeKind {
    fn default() -> (r: Self)
        ensures
            r == CircuitEdgeKind::Wire,
    {
        CircuitEdgeKind::Wire
    }
}

/// All edge kinds, in the order in which they are offered.
pub open spec fn all_wires() -> Seq<CircuitEdgeKind> {
    seq![CircuitEdgeKind::Wire, CircuitEdgeKind::SameNet, CircuitEdgeKind::DifferentialPair]
}

impl CircuitEdgeKind {
    pub fn all() -> (r: Vec<CircuitEdgeKind>)
        ensures
            r@ == all_wires(),
    {
        let r = vec![
            CircuitEdgeKind::Wire,
            CircuitEdgeKind::SameNet,
            CircuitEdgeKind::DifferentialPair,
        ];
        assert(r@ =~= all_wires());
        r
    }
}

/// The markers that an edge carries.
#[derive(Clone, Copy, Debug, PartialEq, Eq, Structural)]
pub struct EdgeMarkers {
    pub wire: bool,
    pub same_net: bool,
    pub differential_pair: bool,
}

/// The kind that an edge's markers say; an edge without any is drawn as a wire
/// until its marker arrives.
pub open spec fn marked_kind(m: EdgeMarkers) -> CircuitEdgeKind {
    if m.wire {
        CircuitEdgeKind::Wire
    } else if m.same_net {
        CircuitEdgeKind::SameNet
    } else if m.differential_pair {
        CircuitEdgeKind::DifferentialPair
    } else {
        CircuitEdgeKind::Wire
    }
}

pub fn drawn_kind(m: EdgeMarkers) -> (r: CircuitEdgeKind)
    ensures
        r == marked_kind(m),
{
    if m.wire {
        CircuitEdgeKind::Wire
    } else if m.same_net {
        CircuitEdgeKind::SameNet
    } else if m.differential_pair {
        CircuitEdgeKind::DifferentialPair
    } else {
        CircuitEdgeKind::Wire
    }
}

/// The markers for an edge of the given kind: the one that names it.
pub fn marker_for(kind: CircuitEdgeKind) -> (r: EdgeMarkers)
    ensures
        r.wire == (kind == CircuitEdgeKind::Wire),
        r.same_net == (kind == CircuitEdgeKind::SameNet),
        r.differential_pair == (kind == CircuitEdgeKind::DifferentialPair),
        marked_kind(r) == kind,
{
    EdgeMarkers {
        wire: kind == CircuitEdgeKind::Wire,
        same_net: kind == CircuitEdgeKind::SameNet,
        differential_pair: kind == CircuitEdgeKind::DifferentialPair,
    }
}

// ---------------------------------------------------------------------------
// Laws
// ---------------------------------------------------------------------------

/// The ids of the layers are one to four, from the bottom up, each layer has one
/// and no two the same; any other number names none.
pub proof fn layer_ids_go_from_the_bottom(layer: CircuitLayer, id: u32)
    ensures
        layer_with_id(id) is Some <==> 1 <= id <= 4,
        1 <= id <= 4 ==> layer_with_id(id) == Some(all_layers()[id - 1]),
        layer_with_id(id) == Some(layer) <==> id == layer.spec_slot() + 1,
        all_layers().len() == 4,
        all_layers()[layer.spec_slot()] == layer,
        all_layers()[0] == CircuitLayer::Signal,
        all_layers()[3] == CircuitLayer::Mechanical,
{
}

/// An edge is drawn as what its marker says; of several markers a wire counts
/// first and the same net next, and without any it is drawn as a wire.
pub proof fn edge_markers_count_in_order(m: EdgeMarkers)
    ensures
        m.wire ==> marked_kind(m) == CircuitEdgeKind::Wire,
        !m.wire && m.same_net ==> marked_kind(m) == CircuitEdgeKind::SameNet,
        !m.wire && !m.same_net && m.differential_pair ==> marked_kind(m)
            == CircuitEdgeKind::DifferentialPair,
        !m.wire && !m.same_net && !m.differential_pair ==> marked_kind(m) == CircuitEdgeKind::Wire,
{
}

/// Every kind of component and of edge is offered once.
pub proof fn every_kind_is_offered(component: ComponentKind, wire: CircuitEdgeKind)
    ensures
        all_components().contains(component),
        all_components().no_duplicates(),
        all_wires().contains(wire),
        all_wires().no_duplicates(),
{
    let a = all_components();
    let b = all_wires();
    assert(a[0] == ComponentKind::Resistor && a[1] == ComponentKind::Capacitor && a[2]
        == ComponentKind::Inductor && a[3] == ComponentKind::VoltageSource && a[4]
        == ComponentKind::Ground);
    assert(b[0] == CircuitEdgeKind::Wire && b[1] == CircuitEdgeKind::SameNet && b[2]
        == CircuitEdgeKind::DifferentialPair);
}

} // verus!
