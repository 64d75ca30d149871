//! How frames and relations look.
use vstd::prelude::*;

use crate::agent::scene::Entity;
use crate::client::create::new_size;
use crate::client::create::Size;
use crate::client::weave::kind_of_entity;
use crate::client::weave::marked_kind;
use crate::client::weave::WeaveEdgeKind;
use crate::client::weave::WeaveMarkers;
use crate::geometry::Rgb;

verus! {

/// A fill of a frame. Channels are bit patterns of singles.
#[derive(Clone, Copy, Debug, PartialEq, Eq, Structural)]
pub enum Paint {
    Solid { r: u32, g: u32, b: u32, a: u32 },
    /// A gradient or an image, by its number in the document.
    Other { id: u64 },
}

/// The first solid fill; light grey where there is none.
pub open spec fn first_solid(fills: Seq<Paint>) -> Paint
    decreases fills.len(),
{
    if fills.len() == 0 {
        Paint::Solid { r: 0x3f59999a, g: 0x3f5c28f6, b: 0x3f666666, a: 0x3f800000 }
    } else if fills[0] is Solid {
        fills[0]
    } else {
        first_solid(fills.skip(1))
    }
}

/// The colour in which a frame is drawn.
pub fn frame_solid_color(fills: &Vec<Paint>) -> (r: Paint)
    ensures
        r == first_solid(fills@),
        r is Solid,
{
    let mut i: usize = 0;
    assert(fills@.skip(0) =~= fills@);
    while i < fills.len()
        invariant
            i <= fills@.len(),
            first_solid(fills@) == first_solid(fills@.skip(i as int)),
        decreases fills@.len() - i,
    {
        match fills[i] {
            Paint::Solid { r, g, b, a } => {
                return Paint::Solid { r, g, b, a };
            },
            Paint::Other { id: _ } => {},
        }
        assert(fills@.skip(i as int).skip(1) =~= fills@.skip(i + 1));
        i = i + 1;
    }
    Paint::Solid { r: 0x3f59999a, g: 0x3f5c28f6, b: 0x3f666666, a: 0x3f800000 }
}

/// The size in which a frame is drawn: its own, or that of a new frame.
pub fn drawn_size(size: Option<Size>) -> (r: Size)
    ensures
        r == (match size {
            Some(s) => s,
            None => new_size(),
        }),
{
    match size {
        Some(s) => s,
        None => Size { width: 0x43340000, height: 0x42c80000 },
    }
}

/// The colour in which an edge is drawn: that of its kind. An edge without a
/// marker is drawn as a reference.
pub fn edge_color(markers: &WeaveMarkers) -> (r: Rgb)
    ensures
        r == (match marked_kind(*markers) {
            Some(kind) => kind.spec_color(),
            None => WeaveEdgeKind::Reference.spec_color(),
        }),
{
    match kind_of_entity(markers) {
        Some(kind) => kind.color(),
        None => WeaveEdgeKind::Reference.color(),
    }
}

/// The entities of `children` that are outlines.
pub open spec fn outlines_among(children: Seq<Entity>, outlines: Seq<Entity>) -> Seq<Entity> {
    children.filter(|e: Entity| outlines.contains(e))
}

/// A node was deselected: its outlines, which are to go.
pub fn remove_selection_outline(children: &Vec<Entity>, outlines: &Vec<Entity>) -> (r: Vec<Entity>)
    ensures
        r@ == outlines_among(children@, outlines@),
{
    let ghost is_outline = |e: Entity| outlines@.contains(e);
    let mut r: Vec<Entity> = Vec::new();
    let mut i: usize = 0;
    proof {
        reveal(Seq::filter);
        assert(r@ =~= children@.take(0).filter(is_outline));
    }
    while i < children.len()
        invariant
            i <= children@.len(),
            is_outline == (|e: Entity| outlines@.contains(e)),
            r@ == children@.take(i as int).filter(is_outline),
        decreases children@.len() - i,
    {
        proof {
            crate::seqs::lemma_filter_step(children@, i as int, is_outline);
        }
        let mut found = false;
        let mut k: usize = 0;
        while k < outlines.len()
            invariant
                k <= outlines@.len(),
                found == outlines@.take(k as int).contains(children@[i as int]),
                i < children@.len(),
            decreases outlines@.len() - k,
        {
            if outlines[k] == children[i] {
                found = true;
            }
            proof {
                assert(outlines@.take(k + 1) =~= outlines@.take(k as int).push(outlines@[k as int]));
                crate::seqs::lemma_push_contains(
                    outlines@.take(k as int),
                    outlines@[k as int],
                    children@[i as int],
                );
            }
            k = k + 1;
        }
        assert(outlines@.take(k as int) =~= outlines@);
        if found {
            r.push(children[i]);
        }
        i = i + 1;
    }
    assert(children@.take(i as int) =~= children@);
    r
}

// ---------------------------------------------------------------------------
// Laws
// ---------------------------------------------------------------------------

/// A frame is drawn in the first of its fills that is a solid colour, whatever
/// other fills come before it; without one, in a light grey that is opaque.
pub proof fn first_solid_fill_counts(fills: Seq<Paint>, i: int)
    ensures
        0 <= i < fills.len() && fills[i] is Solid && (forall|j: int|
            0 <= j < i ==> !((#[trigger] fills[j]) is Solid)) ==> first_solid(fills) == fills[i],
        (forall|j: int| 0 <= j < fills.len() ==> !((#[trigger] fills[j]) is Solid)) ==> first_solid(
            fills,
        ) == (Paint::Solid { r: 0x3f59999a, g: 0x3f5c28f6, b: 0x3f666666, a: 0x3f800000 }),
    decreases fills.len(),
{
    if fills.len() > 0 && !(fills[0] is Solid) {
        let rest = fills.skip(1);
        first_solid_fill_counts(rest, i - 1);
        assert forall|j: int| 0 <= j < rest.len() implies #[trigger] rest[j] == fills[j + 1] by {}
    }
}

/// A node that is no longer selected loses exactly those of its children that
/// are outlines.
pub proof fn only_outlines_go(children: Seq<Entity>, outlines: Seq<Entity>, e: Entity)
    ensures
        outlines_among(children, outlines).contains(e) <==> children.contains(e)
            && outlines.contains(e),
{
    crate::seqs::lemma_filter_contains(children, |x: Entity| outlines.contains(x), e);
}

} // verus!
