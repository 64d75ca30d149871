//! Typed relations between frames.
use vstd::prelude::*;

use crate::geometry::Rgb;
use crate::table::TableKey;

verus! {

#[derive(Clone, Copy, Debug, PartialEq, Eq, Structural)]
pub enum WeaveEdgeKind {
    /// This one refers to that one.
    Reference,
    /// This one depends on that one.
    Dependency,
    /// This one comments on that one.
    Comment,
    /// This one annotates that one.
    Annotation,
}

impl Default for WeaveEdgeKind {
    fn default() -> (r: Self)
        ensures
            r == WeaveEdgeKind::Reference,
    {
        WeaveEdgeKind::Reference
    }
}

impl TableKey for WeaveEdgeKind {
    fn same_key(&self, other: &Self) -> (r: bool) {
        *self == *other
    }
}

/// All kinds, in the order in which they are offered.
pub open spec fn all_kinds() -> Seq<WeaveEdgeKind> {
    seq![
        WeaveEdgeKind::Reference,
        WeaveEdgeKind::Dependency,
        WeaveEdgeKind::Comment,
        WeaveEdgeKind::Annotation,
    ]
}

impl WeaveEdgeKind {
    pub open spec fn spec_label(self) -> Seq<char> {
        match self {
            WeaveEdgeKind::Reference => "Reference"@,
            WeaveEdgeKind::Dependency => "Dependency"@,
            WeaveEdgeKind::Comment => "Comment"@,
            WeaveEdgeKind::Annotation => "Annotation"@,
        }
    }

    pub open spec fn spec_color(self) -> Rgb {
        match self {
            WeaveEdgeKind::Reference => Rgb { r: 0x3e4ccccd, g: 0x3f0ccccd, b: 0x3f733333 },
            WeaveEdgeKind::Dependency => Rgb { r: 0x3f733333, g: 0x3e99999a, b: 0x3e4ccccd },
            WeaveEdgeKind::Comment => Rgb { r: 0x3e99999a, g: 0x3f4ccccd, b: 0x3ecccccd },
            WeaveEdgeKind::Annotation => Rgb { r: 0x3f59999a, g: 0x3f19999a, b: 0x3e4ccccd },
        }
    }

    /// The name shown to users.
    pub fn label(self) -> (r: &'static str)
        ensures
            r@ == self.spec_label(),
    {
        match self {
            WeaveEdgeKind::Reference => "Reference",
            WeaveEdgeKind::Dependency => "Dependency",
            WeaveEdgeKind::Comment => "Comment",
            WeaveEdgeKind::Annotation => "Annotation",
        }
    }

    /// The colour in which relations of this kind are drawn: blue, red, green
    /// and ochre.
    pub fn color(self) -> (r: Rgb)
        ensures
            r == self.spec_color(),
    {
        match self {
            WeaveEdgeKind::Reference => Rgb { r: 0x3e4ccccd, g: 0x3f0ccccd, b: 0x3f733333 },
            WeaveEdgeKind::Dependency => Rgb { r: 0x3f733333, g: 0x3e99999a, b: 0x3e4ccccd },
            WeaveEdgeKind::Comment => Rgb { r: 0x3e99999a, g: 0x3f4ccccd, b: 0x3ecccccd },
            WeaveEdgeKind::Annotation => Rgb { r: 0x3f59999a, g: 0x3f19999a, b: 0x3e4ccccd },
        }
    }
}

/// Different kinds are drawn in different colours.
pub proof fn colors_are_distinct(a: WeaveEdgeKind, b: WeaveEdgeKind)
    requires
        a != b,
    ensures
        a.spec_color() != b.spec_color(),
{
}

#[derive(Clone, Copy, Debug, PartialEq, Eq, Structural)]
pub struct ReferenceMarker;

#[derive(Clone, Copy, Debug, PartialEq, Eq, Structural)]
pub struct DependencyMarker;

#[derive(Clone, Copy, Debug, PartialEq, Eq, Structural)]
pub struct CommentMarker;

#[derive(Clone, Copy, Debug, PartialEq, Eq, Structural)]
pub struct AnnotationMarker;

/// The markers that an edge carries.
#[derive(Clone, Copy, Debug, PartialEq, Eq, Structural)]
pub struct WeaveMarkers {
    pub reference: Option<ReferenceMarker>,
    pub dependency: Option<DependencyMarker>,
    pub comment: Option<CommentMarker>,
    pub annotation: Option<AnnotationMarker>,
}

/// An edge without markers.
pub open spec fn unmarked() -> WeaveMarkers {
    WeaveMarkers { reference: None, dependency: None, comment: None, annotation: None }
}

/// The markers, once the one for `kind` has been added.
pub open spec fn marked(m: WeaveMarkers, kind: WeaveEdgeKind) -> WeaveMarkers {
    match kind {
        WeaveEdgeKind::Reference => WeaveMarkers { reference: Some(ReferenceMarker), ..m },
        WeaveEdgeKind::Dependency => WeaveMarkers { dependency: Some(DependencyMarker), ..m },
        WeaveEdgeKind::Comment => WeaveMarkers { comment: Some(CommentMarker), ..m },
        WeaveEdgeKind::Annotation => WeaveMarkers { annotation: Some(AnnotationMarker), ..m },
    }
}

/// Adds the marker for `kind` to an edge.
pub fn insert_marker_for(markers: &mut WeaveMarkers, kind: WeaveEdgeKind)
    ensures
        *final(markers) == marked(*old(markers), kind),
{
    match kind {
        WeaveEdgeKind::Reference => {
            markers.reference = Some(ReferenceMarker);
        },
        WeaveEdgeKind::Dependency => {
            markers.dependency = Some(DependencyMarker);
        },
        WeaveEdgeKind::Comment => {
            markers.comment = Some(CommentMarker);
        },
        WeaveEdgeKind::Annotation => {
            markers.annotation = Some(AnnotationMarker);
        },
    }
}

/// The kind that the markers say: the first that is there.
pub open spec fn marked_kind(m: WeaveMarkers) -> Option<WeaveEdgeKind> {
    if m.reference is Some {
        Some(WeaveEdgeKind::Reference)
    } else if m.dependency is Some {
        Some(WeaveEdgeKind::Dependency)
    } else if m.comment is Some {
        Some(WeaveEdgeKind::Comment)
    } else if m.annotation is Some {
        Some(WeaveEdgeKind::Annotation)
    } else {
        None
    }
}

/// The kind of an edge, where it carries a marker.
pub fn kind_of_entity(markers: &WeaveMarkers) -> (r: Option<WeaveEdgeKind>)
    ensures
        r == marked_kind(*markers),
{
    if markers.reference.is_some() {
        return Some(WeaveEdgeKind::Reference);
    }
    if markers.dependency.is_some() {
        return Some(WeaveEdgeKind::Dependency);
    }
    if markers.comment.is_some() {
        return Some(WeaveEdgeKind::Comment);
    }
    if markers.annotation.is_some() {
        return Some(WeaveEdgeKind::Annotation);
    }
    None
}

/// The kind whose marker was put on a fresh edge is read back from it.
pub proof fn marker_names_kind(kind: WeaveEdgeKind)
    ensures
        marked_kind(marked(unmarked(), kind)) == Some(kind),
{
}

/// Every kind is offered once, and each is drawn in the hue that it is known by:
/// references mostly blue, dependencies mostly red, comments mostly green, and
/// annotations in ochre, with more red than green and more green than blue.
pub proof fn kinds_have_their_hues(kind: WeaveEdgeKind)
    ensures
        all_kinds().contains(kind),
        all_kinds().no_duplicates(),
        all_kinds().len() == 4,
        ({
            let c = kind.spec_color();
            match kind {
                WeaveEdgeKind::Reference => c.b > c.g && c.g > c.r,
                WeaveEdgeKind::Dependency => c.r > c.g && c.g > c.b,
                WeaveEdgeKind::Comment => c.g > c.b && c.b > c.r,
                WeaveEdgeKind::Annotation => c.r > c.g && c.g > c.b && c.g > 0x3f000000,
            }
        }),
        WeaveEdgeKind::Dependency.spec_color().g < 0x3f000000,
{
    let all = all_kinds();
    assert(all[0] == WeaveEdgeKind::Reference && all[1] == WeaveEdgeKind::Dependency && all[2]
        == WeaveEdgeKind::Comment && all[3] == WeaveEdgeKind::Annotation);
}

/// Marking an edge with a kind adds that marker and leaves the others. Of several
/// markers a reference counts first, a dependency next, a comment before an
/// annotation; an edge without any has no kind.
pub proof fn markers_count_in_order(m: WeaveMarkers, kind: WeaveEdgeKind)
    ensures
        ({
            let after = marked(m, kind);
            &&& after.reference is Some <==> m.reference is Some || kind
                == WeaveEdgeKind::Reference
            &&& after.dependency is Some <==> m.dependency is Some || kind
                == WeaveEdgeKind::Dependency
            &&& after.comment is Some <==> m.comment is Some || kind == WeaveEdgeKind::Comment
            &&& after.annotation is Some <==> m.annotation is Some || kind
                == WeaveEdgeKind::Annotation
        }),
        m.reference is Some ==> marked_kind(m) == Some(WeaveEdgeKind::Reference),
        m.reference is None && m.dependency is Some ==> marked_kind(m) == Some(
            WeaveEdgeKind::Dependency,
        ),
        m.reference is None && m.dependency is None && m.comment is Some ==> marked_kind(m)
            == Some(WeaveEdgeKind::Comment),
        m.reference is None && m.dependency is None && m.comment is None && m.annotation is Some
            ==> marked_kind(m) == Some(WeaveEdgeKind::Annotation),
        m.reference is None && m.dependency is None && m.comment is None && m.annotation is None
            ==> marked_kind(m) is None,
{
}

} // verus!
