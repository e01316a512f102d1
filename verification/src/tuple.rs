//! Points and vectors in homogeneous coordinates.

use vstd::prelude::*;

verus! {

/// Four integer coordinates. The last one is 1 for a point and 0 for a
/// vector.
#[derive(Clone, Copy, Debug, PartialEq, Eq, Structural)]
pub struct Tuple {
    pub x: i64,
    pub y: i64,
    pub z: i64,
    pub w: i64,
}

impl Tuple {
    /// The tuple with the given coordinates.
    pub fn new(x: i64, y: i64, z: i64, w: i64) -> (t: Tuple)
        ensures
            t == (Tuple { x, y, z, w }),
    {
        Tuple { x, y, z, w }
    }

    /// The tuple with every coordinate zero.
    pub fn zero() -> (t: Tuple)
        ensures
            t == (Tuple { x: 0, y: 0, z: 0, w: 0 }),
    {
        Tuple::new(0, 0, 0, 0)
    }

    /// The point at `(x, y, z)`.
    pub fn point(x: i64, y: i64, z: i64) -> (t: Tuple)
        ensures
            t == (Tuple { x, y, z, w: 1 }),
    {
        Tuple::new(x, y, z, 1)
    }

    /// The vector `(x, y, z)`.
    pub fn vector(x: i64, y: i64, z: i64) -> (t: Tuple)
        ensures
            t == (Tuple { x, y, z, w: 0 }),
    {
        Tuple::new(x, y, z, 0)
    }

    /// Whether the tuple is a point.
    pub fn is_point(&self) -> (b: bool)
        ensures
            b == (self.w == 1),
    {
        self.w == 1
    }

    /// Whether the tuple is a vector.
    pub fn is_vector(&self) -> (b: bool)
        ensures
            b == (self.w == 0),
    {
        self.w == 0
    }
}

/// Whether an integer is a 64-bit value.
pub open spec fn fits(v: int) -> bool {
    i64::MIN <= v <= i64::MAX
}

impl core::ops::Add for Tuple {
    type Output = Tuple;

    /// The sum, coordinate by coordinate.
    fn add(self, other: Tuple) -> (sum: Tuple) {
        Tuple {
            x: self.x + other.x,
            y: self.y + other.y,
            z: self.z + other.z,
            w: self.w + other.w,
        }
    }
}

impl vstd::std_specs::ops::AddSpecImpl for Tuple {
    open spec fn obeys_add_spec() -> bool {
        true
    }

    open spec fn add_req(self, other: Tuple) -> bool {
        fits(self.x + other.x) && fits(self.y + other.y) && fits(self.z + other.z) && fits(
            self.w + other.w,
        )
    }

    open spec fn add_spec(self, other: Tuple) -> Tuple {
        Tuple {
            x: (self.x + other.x) as i64,
            y: (self.y + other.y) as i64,
            z: (self.z + other.z) as i64,
            w: (self.w + other.w) as i64,
        }
    }
}

impl core::ops::Sub for Tuple {
    type Output = Tuple;

    /// The difference, coordinate by coordinate.
    fn sub(self, other: Tuple) -> (difference: Tuple) {
        Tuple {
            x: self.x - other.x,
            y: self.y - other.y,
            z: self.z - other.z,
            w: self.w - other.w,
        }
    }
}

impl vstd::std_specs::ops::SubSpecImpl for Tuple {
    open spec fn obeys_sub_spec() -> bool {
        true
    }

    open spec fn sub_req(self, other: Tuple) -> bool {
        fits(self.x - other.x) && fits(self.y - other.y) && fits(self.z - other.z) && fits(
            self.w - other.w,
        )
    }

    open spec fn sub_spec(self, other: Tuple) -> Tuple {
        Tuple {
            x: (self.x - other.x) as i64,
            y: (self.y - other.y) as i64,
            z: (self.z - other.z) as i64,
            w: (self.w - other.w) as i64,
        }
    }
}

impl core::ops::Neg for Tuple {
    type Output = Tuple;

    /// The tuple with the sign of each coordinate changed.
    fn neg(self) -> (negated: Tuple) {
        Tuple { x: -self.x, y: -self.y, z: -self.z, w: -self.w }
    }
}

impl vstd::std_specs::ops::NegSpecImpl for Tuple {
    open spec fn obeys_neg_spec() -> bool {
        true
    }

    open spec fn neg_req(self) -> bool {
        self.x > i64::MIN && self.y > i64::MIN && self.z > i64::MIN && self.w > i64::MIN
    }

    open spec fn neg_spec(self) -> Tuple {
        Tuple { x: (-self.x) as i64, y: (-self.y) as i64, z: (-self.z) as i64, w: (-self.w) as i64 }
    }
}

impl core::ops::Mul<i64> for Tuple {
    type Output = Tuple;

    /// The tuple with each coordinate multiplied by a factor.
    fn mul(self, factor: i64) -> (scaled: Tuple) {
        Tuple {
            x: self.x * factor,
            y: self.y * factor,
            z: self.z * factor,
            w: self.w * factor,
        }
    }
}

impl vstd::std_specs::ops::MulSpecImpl<i64> for Tuple {
    open spec fn obeys_mul_spec() -> bool {
        true
    }

    open spec fn mul_req(self, factor: i64) -> bool {
        fits(self.x * factor) && fits(self.y * factor) && fits(self.z * factor) && fits(
            self.w * factor,
        )
    }

    open spec fn mul_spec(self, factor: i64) -> Tuple {
        Tuple {
            x: (self.x * factor) as i64,
            y: (self.y * factor) as i64,
            z: (self.z * factor) as i64,
            w: (self.w * factor) as i64,
        }
    }
}

/// The dot product of two tuples: the sum of the products of their
/// coordinates.
pub open spec fn dot_of(a: Tuple, b: Tuple) -> int {
    a.x * b.x + a.y * b.y + a.z * b.z + a.w * b.w
}

/// The three coordinates of the cross product of two vectors.
pub open spec fn cross_of(a: Tuple, b: Tuple) -> (int, int, int) {
    (a.y * b.z - a.z * b.y, a.z * b.x - a.x * b.z, a.x * b.y - a.y * b.x)
}

/// The product of two 64-bit values is within `2^126`, and at least `2^63`
/// above `-2^126`.
pub proof fn lemma_wide_product(a: i64, b: i64)
    ensures
        -0x4000_0000_0000_0000_0000_0000_0000_0000 + 0x8000_0000_0000_0000 <= a * b
            <= 0x4000_0000_0000_0000_0000_0000_0000_0000,
{
    assert(-0x4000_0000_0000_0000_0000_0000_0000_0000 + 0x8000_0000_0000_0000 <= a * b
        <= 0x4000_0000_0000_0000_0000_0000_0000_0000) by (nonlinear_arith)
        requires
            -0x8000_0000_0000_0000 <= a <= 0x7fff_ffff_ffff_ffff,
            -0x8000_0000_0000_0000 <= b <= 0x7fff_ffff_ffff_ffff,
    ;
}

/// The dot product of two tuples.
pub fn dot(a: Tuple, b: Tuple) -> (d: i64)
    requires
        fits(dot_of(a, b)),
    ensures
        d == dot_of(a, b),
{
    proof {
        lemma_wide_product(a.x, b.x);
        lemma_wide_product(a.y, b.y);
        lemma_wide_product(a.z, b.z);
        lemma_wide_product(a.w, b.w);
    }
    let first: i128 = (a.x as i128) * (b.x as i128);
    let second: i128 = (a.y as i128) * (b.y as i128);
    let third: i128 = (a.z as i128) * (b.z as i128);
    let fourth: i128 = (a.w as i128) * (b.w as i128);
    let sum: i128 = first + second + third + fourth;
    sum as i64
}

/// The difference of two products of 64-bit values.
fn cross_term(a: i64, b: i64, c: i64, d: i64) -> (v: i64)
    requires
        fits(a * b - c * d),
    ensures
        v == a * b - c * d,
{
    proof {
        lemma_wide_product(a, b);
        lemma_wide_product(c, d);
    }
    let wide: i128 = (a as i128) * (b as i128) - (c as i128) * (d as i128);
    wide as i64
}

/// The cross product of two vectors: a vector at right angles to both.
pub fn cross(a: Tuple, b: Tuple) -> (c: Tuple)
    requires
        fits(cross_of(a, b).0),
        fits(cross_of(a, b).1),
        fits(cross_of(a, b).2),
    ensures
        c.x == cross_of(a, b).0,
        c.y == cross_of(a, b).1,
        c.z == cross_of(a, b).2,
        c.w == 0,
{
    Tuple::vector(
        cross_term(a.y, b.z, a.z, b.y),
        cross_term(a.z, b.x, a.x, b.z),
        cross_term(a.x, b.y, a.y, b.x),
    )
}

} // verus!
