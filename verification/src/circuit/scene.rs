//! How components and edges look, and the height of what lies on a layer.
use vstd::prelude::*;

use crate::agent::scene::Entity;
use crate::circuit::kinds::layer_with_id;
use crate::circuit::kinds::CircuitLayer;
use crate::circuit::kinds::ComponentKind;
use crate::circuit::kinds::OnLayer;
use crate::geometry::parts_are_all_compared;
use crate::geometry::same_number;
use crate::geometry::same_numbers;
use crate::geometry::Pos2;
use crate::geometry::Pos3;
use crate::geometry::Rgb;

verus! {

/// Which component values an entity carries.
#[derive(Clone, Copy, Debug, PartialEq, Eq, Structural)]
pub struct ComponentTags {
    pub resistor: bool,
    pub capacitor: bool,
    pub inductor: bool,
    pub voltage_source: bool,
    pub ground: bool,
}

/// The kind that decides how an entity looks: the first that it carries. It has
/// none as long as its values have not arrived.
pub open spec fn look_kind(tags: ComponentTags) -> Option<ComponentKind> {
    if tags.resistor {
        Some(ComponentKind::Resistor)
    } else if tags.capacitor {
        Some(ComponentKind::Capacitor)
    } else if tags.inductor {
        Some(ComponentKind::Inductor)
    } else if tags.voltage_source {
        Some(ComponentKind::VoltageSource)
    } else if tags.ground {
        Some(ComponentKind::Ground)
    } else {
        None
    }
}

pub fn kind_of_component(tags: ComponentTags) -> (r: Option<ComponentKind>)
    ensures
        r == look_kind(tags),
{
    if tags.resistor {
        Some(ComponentKind::Resistor)
    } else if tags.capacitor {
        Some(ComponentKind::Capacitor)
    } else if tags.inductor {
        Some(ComponentKind::Inductor)
    } else if tags.voltage_source {
        Some(ComponentKind::VoltageSource)
    } else if tags.ground {
        Some(ComponentKind::Ground)
    } else {
        None
    }
}

/// A solid, with its measures as bit patterns of singles.
#[derive(Clone, Copy, Debug, PartialEq, Eq, Structural)]
pub enum Solid {
    Cuboid { x: u32, y: u32, z: u32 },
    Cylinder { radius: u32, height: u32 },
    Sphere { radius: u32 },
    Cone { radius: u32, height: u32 },
}

/// A long bar for a resistor, a short drum for a capacitor, a long one for an
/// inductor, a ball for a voltage source, a cone for a ground, and a small cube
/// for what is not known yet.
pub open spec fn solid_of(kind: Option<ComponentKind>) -> Solid {
    match kind {
        Some(ComponentKind::Resistor) => Solid::Cuboid {
            x: 0x3f666666,
            y: 0x3e99999a,
            z: 0x3e99999a,
        },
        Some(ComponentKind::Capacitor) => Solid::Cylinder {
            radius: 0x3e800000,
            height: 0x3f000000,
        },
        Some(ComponentKind::Inductor) => Solid::Cylinder {
            radius: 0x3e6147ae,
            height: 0x3f666666,
        },
        Some(ComponentKind::VoltageSource) => Solid::Sphere { radius: 0x3ea3d70a },
        Some(ComponentKind::Ground) => Solid::Cone { radius: 0x3ea3d70a, height: 0x3ee66666 },
        None => Solid::Cuboid { x: 0x3e99999a, y: 0x3e99999a, z: 0x3e99999a },
    }
}

/// The solid that stands for an entity.
pub fn component_mesh(tags: ComponentTags) -> (r: Solid)
    ensures
        r == solid_of(look_kind(tags)),
{
    match kind_of_component(tags) {
        Some(ComponentKind::Resistor) => Solid::Cuboid {
            x: 0x3f666666,
            y: 0x3e99999a,
            z: 0x3e99999a,
        },
        Some(ComponentKind::Capacitor) => Solid::Cylinder {
            radius: 0x3e800000,
            height: 0x3f000000,
        },
        Some(ComponentKind::Inductor) => Solid::Cylinder {
            radius: 0x3e6147ae,
            height: 0x3f666666,
        },
        Some(ComponentKind::VoltageSource) => Solid::Sphere { radius: 0x3ea3d70a },
        Some(ComponentKind::Ground) => Solid::Cone { radius: 0x3ea3d70a, height: 0x3ee66666 },
        None => Solid::Cuboid { x: 0x3e99999a, y: 0x3e99999a, z: 0x3e99999a },
    }
}

/// Orange for a resistor, blue for a capacitor, violet for an inductor, red for
/// a voltage source, dark grey for a ground, and light grey for what is not
/// known yet.
pub open spec fn color_of(kind: Option<ComponentKind>) -> Rgb {
    match kind {
        Some(ComponentKind::Resistor) => Rgb { r: 0x3f59999a, g: 0x3f0ccccd, b: 0x3e4ccccd },
        Some(ComponentKind::Capacitor) => Rgb { r: 0x3e99999a, g: 0x3f0ccccd, b: 0x3f733333 },
        Some(ComponentKind::Inductor) => Rgb { r: 0x3f19999a, g: 0x3e99999a, b: 0x3f59999a },
        Some(ComponentKind::VoltageSource) => Rgb { r: 0x3f733333, g: 0x3e99999a, b: 0x3e99999a },
        Some(ComponentKind::Ground) => Rgb { r: 0x3f000000, g: 0x3f000000, b: 0x3f0ccccd },
        None => Rgb { r: 0x3f59999a, g: 0x3f5c28f6, b: 0x3f666666 },
    }
}

/// The colour of an entity.
pub fn component_color(tags: ComponentTags) -> (r: Rgb)
    ensures
        r == color_of(look_kind(tags)),
{
    match kind_of_component(tags) {
        Some(ComponentKind::Resistor) => Rgb { r: 0x3f59999a, g: 0x3f0ccccd, b: 0x3e4ccccd },
        Some(ComponentKind::Capacitor) => Rgb { r: 0x3e99999a, g: 0x3f0ccccd, b: 0x3f733333 },
        Some(ComponentKind::Inductor) => Rgb { r: 0x3f19999a, g: 0x3e99999a, b: 0x3f59999a },
        Some(ComponentKind::VoltageSource) => Rgb { r: 0x3f733333, g: 0x3e99999a, b: 0x3e99999a },
        Some(ComponentKind::Ground) => Rgb { r: 0x3f000000, g: 0x3f000000, b: 0x3f0ccccd },
        None => Rgb { r: 0x3f59999a, g: 0x3f5c28f6, b: 0x3f666666 },
    }
}

/// The nodes whose height follows their new layer: those whose tag names one.
pub open spec fn lifted(moved: Seq<(Entity, OnLayer)>) -> Seq<(Entity, CircuitLayer)>
    decreases moved.len(),
{
    if moved.len() == 0 {
        Seq::empty()
    } else {
        let before = lifted(moved.drop_last());
        match layer_with_id(moved.last().1.id) {
            Some(layer) => before.push((moved.last().0, layer)),
            None => before,
        }
    }
}

/// Layer tags arrived or changed: the nodes to put at the height of a layer.
/// Their place on the layer stays as it is.
pub fn sync_layer_y(moved: &Vec<(Entity, OnLayer)>) -> (r: Vec<(Entity, CircuitLayer)>)
    ensures
        r@ == lifted(moved@),
{
    let mut r: Vec<(Entity, CircuitLayer)> = Vec::new();
    let mut i: usize = 0;
    while i < moved.len()
        invariant
            i <= moved@.len(),
            r@ == lifted(moved@.take(i as int)),
        decreases moved@.len() - i,
    {
        if let Some(layer) = moved[i].1.layer() {
            r.push((moved[i].0, layer));
        }
        assert(moved@.take(i + 1).drop_last() =~= moved@.take(i as int));
        i = i + 1;
    }
    assert(moved@.take(i as int) =~= moved@);
    r
}

/// Whether an edge's line already runs between the two points.
pub open spec fn runs_between(line: Seq<Pos3>, from: Pos3, to: Pos3) -> bool {
    line.len() == 2 && same_numbers(line[0].words(), from.words()) && same_numbers(
        line[1].words(),
        to.words(),
    )
}

/// The new line of an edge, where it has to change: both ends must be placed,
/// and the line must not run between them already.
pub fn update_polyline_endpoints(from: Option<Pos3>, to: Option<Pos3>, line: &Vec<Pos3>) -> (r:
    Option<(Pos3, Pos3)>)
    ensures
        r == (match (from, to) {
            (Some(a), Some(b)) if !runs_between(line@, a, b) => Some((a, b)),
            _ => None,
        }),
{
    match (from, to) {
        (Some(a), Some(b)) => {
            if line.len() == 2 && line[0].same(&a) && line[1].same(&b) {
                None
            } else {
                Some((a, b))
            }
        },
        _ => None,
    }
}

// ---------------------------------------------------------------------------
// Laws
// ---------------------------------------------------------------------------

/// An entity that carries the values of one kind alone looks like that kind; one
/// that carries none has no kind yet.
pub proof fn looks_go_by_values(tags: ComponentTags)
    ensures
        tags.resistor ==> look_kind(tags) == Some(ComponentKind::Resistor),
        !tags.resistor && tags.capacitor ==> look_kind(tags) == Some(ComponentKind::Capacitor),
        !tags.resistor && !tags.capacitor && tags.inductor ==> look_kind(tags) == Some(
            ComponentKind::Inductor,
        ),
        !tags.resistor && !tags.capacitor && !tags.inductor && tags.voltage_source ==> look_kind(
            tags,
        ) == Some(ComponentKind::VoltageSource),
        !tags.resistor && !tags.capacitor && !tags.inductor && !tags.voltage_source && tags.ground
            ==> look_kind(tags) == Some(ComponentKind::Ground),
        !tags.resistor && !tags.capacitor && !tags.inductor && !tags.voltage_source && !tags.ground
            ==> look_kind(tags) is None,
{
}

/// Different kinds have different solids and different colours, and none looks
/// like what is not known yet. A resistor is a bar, a capacitor and an inductor
/// are drums of which the inductor's is the longer, a source is a ball and a
/// ground is a cone.
pub proof fn kinds_look_different(a: Option<ComponentKind>, b: Option<ComponentKind>)
    ensures
        a != b ==> solid_of(a) != solid_of(b) && color_of(a) != color_of(b),
        solid_of(Some(ComponentKind::Resistor)) is Cuboid,
        solid_of(Some(ComponentKind::Capacitor)) is Cylinder,
        solid_of(Some(ComponentKind::Inductor)) is Cylinder,
        solid_of(Some(ComponentKind::Inductor))->Cylinder_height > solid_of(
            Some(ComponentKind::Capacitor),
        )->Cylinder_height,
        solid_of(Some(ComponentKind::VoltageSource)) is Sphere,
        solid_of(Some(ComponentKind::Ground)) is Cone,
        solid_of(None) is Cuboid,
{
}

/// Nodes whose tag arrived or changed are put at the height of the layer that the
/// tag names, in order; a tag that names none moves nothing.
pub proof fn nodes_rise_to_their_layer(moved: Seq<(Entity, OnLayer)>, next: (Entity, OnLayer))
    ensures
        lifted(Seq::empty()).len() == 0,
        layer_with_id(next.1.id) matches Some(layer) ==> lifted(moved.push(next)) == lifted(
            moved,
        ).push((next.0, layer)),
        layer_with_id(next.1.id) is None ==> lifted(moved.push(next)) == lifted(moved),
{
    assert(moved.push(next).drop_last() =~= moved);
}

/// A line runs between two points where it has just these two ends, in this
/// order.
pub proof fn line_runs_from_first_to_last(line: Seq<Pos3>, from: Pos3, to: Pos3)
    ensures
        runs_between(line, from, to) ==> line.len() == 2 && same_number(line[0].x, from.x)
            && same_number(line[0].y, from.y) && same_number(line[0].z, from.z) && same_number(
            line[1].x,
            to.x,
        ) && same_number(line[1].y, to.y) && same_number(line[1].z, to.z),
        line.len() == 2 && same_number(line[0].x, from.x) && same_number(line[0].y, from.y)
            && same_number(line[0].z, from.z) && same_number(line[1].x, to.x) && same_number(
            line[1].y,
            to.y,
        ) && same_number(line[1].z, to.z) ==> runs_between(line, from, to),
{
    let p = Pos2 { x: 0, y: 0 };
    let c = Rgb { r: 0, g: 0, b: 0 };
    parts_are_all_compared(p, p, line[0], from, c, c);
    parts_are_all_compared(p, p, line[1], to, c, c);
}

} // verus!
