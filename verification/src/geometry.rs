//! Points and colours. Every coordinate and channel is the bit pattern of an
//! IEEE-754 single, so that values can be compared, stored and sent without
//! arithmetic on them.
use vstd::prelude::*;

verus! {

/// Document-space coordinates in the plane.
#[derive(Clone, Copy, Debug, PartialEq, Eq, Structural)]
pub struct Pos2 {
    pub x: u32,
    pub y: u32,
}

/// Document-space coordinates in space.
#[derive(Clone, Copy, Debug, PartialEq, Eq, Structural)]
pub struct Pos3 {
    pub x: u32,
    pub y: u32,
    pub z: u32,
}

/// A red, green, blue triple.
#[derive(Clone, Copy, Debug, PartialEq, Eq, Structural)]
pub struct Rgb {
    pub r: u32,
    pub g: u32,
    pub b: u32,
}

impl Default for Pos2 {
    fn default() -> (r: Self)
        ensures
            r == (Pos2 { x: 0, y: 0 }),
    {
        Pos2 { x: 0, y: 0 }
    }
}

impl Default for Pos3 {
    fn default() -> (r: Self)
        ensures
            r == (Pos3 { x: 0, y: 0, z: 0 }),
    {
        Pos3 { x: 0, y: 0, z: 0 }
    }
}

impl Default for Rgb {
    fn default() -> (r: Self)
        ensures
            r == (Rgb { r: 0, g: 0, b: 0 }),
    {
        Rgb { r: 0, g: 0, b: 0 }
    }
}

/// Whether the bit pattern is one of a not-a-number.
pub open spec fn is_nan(bits: u32) -> bool {
    bits % 0x8000_0000 > 0x7f80_0000
}

/// Whether two bit patterns stand for equal numbers: the two zeros are equal,
/// and a not-a-number equals nothing.
pub open spec fn same_number(a: u32, b: u32) -> bool {
    !is_nan(a) && !is_nan(b) && (a == b || (a % 0x8000_0000 == 0 && b % 0x8000_0000 == 0))
}

pub fn numbers_equal(a: u32, b: u32) -> (r: bool)
    ensures
        r == same_number(a, b),
{
    a % 0x8000_0000 <= 0x7f80_0000 && b % 0x8000_0000 <= 0x7f80_0000 && (a == b || (a % 0x8000_0000
        == 0 && b % 0x8000_0000 == 0))
}

/// Whether two lists of bit patterns stand for the same numbers.
pub open spec fn same_numbers(a: Seq<u32>, b: Seq<u32>) -> bool {
    a.len() == b.len() && forall|i: int| 0 <= i < a.len() ==> same_number(#[trigger] a[i], b[i])
}

impl Pos2 {
    pub open spec fn words(self) -> Seq<u32> {
        seq![self.x, self.y]
    }

    /// Whether both points have the same coordinates, as numbers.
    pub fn same(&self, other: &Self) -> (r: bool)
        ensures
            r == same_numbers(self.words(), other.words()),
    {
        let r = numbers_equal(self.x, other.x) && numbers_equal(self.y, other.y);
        proof {
            let (a, b) = (self.words(), other.words());
            assert(a[0] == self.x && a[1] == self.y);
            if r {
                assert forall|i: int| 0 <= i < a.len() implies same_number(#[trigger] a[i], b[i]) by {
                    assert(i == 0 || i == 1);
                }
            }
        }
        r
    }
}

impl Pos3 {
    pub open spec fn words(self) -> Seq<u32> {
        seq![self.x, self.y, self.z]
    }

    /// Whether both points have the same coordinates, as numbers.
    pub fn same(&self, other: &Self) -> (r: bool)
        ensures
            r == same_numbers(self.words(), other.words()),
    {
        let r = numbers_equal(self.x, other.x) && numbers_equal(self.y, other.y) && numbers_equal(
            self.z,
            other.z,
        );
        proof {
            let (a, b) = (self.words(), other.words());
            assert(a[0] == self.x && a[1] == self.y && a[2] == self.z);
            if r {
                assert forall|i: int| 0 <= i < a.len() implies same_number(#[trigger] a[i], b[i]) by {
                    assert(i == 0 || i == 1 || i == 2);
                }
            }
        }
        r
    }
}

impl Rgb {
    pub open spec fn words(self) -> Seq<u32> {
        seq![self.r, self.g, self.b]
    }

    /// Whether both colours have the same channels, as numbers.
    pub fn same(&self, other: &Self) -> (r: bool)
        ensures
            r == same_numbers(self.words(), other.words()),
    {
        let r = numbers_equal(self.r, other.r) && numbers_equal(self.g, other.g) && numbers_equal(
            self.b,
            other.b,
        );
        proof {
            let (a, b) = (self.words(), other.words());
            assert(a[0] == self.r && a[1] == self.g && a[2] == self.b);
            if r {
                assert forall|i: int| 0 <= i < a.len() implies same_number(#[trigger] a[i], b[i]) by {
                    assert(i == 0 || i == 1 || i == 2);
                }
            }
        }
        r
    }
}

/// A bit pattern is that of a not-a-number where all bits of the exponent are set
/// and some bit of the fraction is; its sign does not matter.
pub proof fn nan_by_its_bits(bits: u32)
    ensures
        is_nan(bits) <==> (bits / 0x80_0000) % 0x100 == 0xff && bits % 0x80_0000 != 0,
{
}

/// Equality of numbers: each number equals itself, the two zeros equal each
/// other, equal numbers with different patterns are zeros, and a not-a-number
/// equals nothing, not even itself.
pub proof fn numbers_compare_as_numbers(a: u32, b: u32)
    ensures
        same_number(a, b) == same_number(b, a),
        !is_nan(a) ==> same_number(a, a),
        is_nan(a) ==> !same_number(a, b),
        same_number(0, 0x8000_0000),
        same_number(a, b) && a != b ==> (a == 0 || a == 0x8000_0000) && (b == 0 || b
            == 0x8000_0000),
{
}

/// Points and colours are compared in each of their parts.
pub proof fn parts_are_all_compared(a: Pos2, b: Pos2, c: Pos3, d: Pos3, e: Rgb, f: Rgb)
    ensures
        same_numbers(a.words(), b.words()) <==> same_number(a.x, b.x) && same_number(a.y, b.y),
        same_numbers(c.words(), d.words()) <==> same_number(c.x, d.x) && same_number(c.y, d.y)
            && same_number(c.z, d.z),
        same_numbers(e.words(), f.words()) <==> same_number(e.r, f.r) && same_number(e.g, f.g)
            && same_number(e.b, f.b),
{
    if same_numbers(a.words(), b.words()) {
        assert(same_number(a.words()[0], b.words()[0]));
        assert(same_number(a.words()[1], b.words()[1]));
    }
    if same_numbers(c.words(), d.words()) {
        assert(same_number(c.words()[0], d.words()[0]));
        assert(same_number(c.words()[1], d.words()[1]));
        assert(same_number(c.words()[2], d.words()[2]));
    }
    if same_numbers(e.words(), f.words()) {
        assert(same_number(e.words()[0], f.words()[0]));
        assert(same_number(e.words()[1], f.words()[1]));
        assert(same_number(e.words()[2], f.words()[2]));
    }
}

} // verus!
