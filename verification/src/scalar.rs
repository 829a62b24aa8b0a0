//! Single-precision numbers held as IEEE-754 bit patterns, and the small
//! vector, quaternion and matrix records built from them.
//!
//! The library never computes with these numbers; it stores them, copies
//! them, and orders them. Ordering is decided on the bit pattern alone.

use vstd::prelude::*;

verus! {

/// A binary32 number, stored as its 32-bit pattern: one sign bit, eight
/// exponent bits, twenty-three fraction bits.
#[derive(Clone, Copy, Debug, PartialEq, Eq, Structural)]
pub struct Scalar {
    pub bits: u32,
}

impl Scalar {
    /// The pattern without its sign bit.
    pub open spec fn magnitude(self) -> int {
        self.bits as int % 0x8000_0000
    }

    /// Whether the sign bit is set.
    pub open spec fn negative(self) -> bool {
        self.bits >= 0x8000_0000
    }

    /// Whether the pattern encodes a NaN: all exponent bits set and a
    /// non-zero fraction.
    pub open spec fn nan(self) -> bool {
        self.magnitude() > 0x7F80_0000
    }

    /// An integer that orders the non-NaN patterns as the numbers they
    /// encode are ordered. Both zeros rank 0.
    pub open spec fn rank(self) -> int {
        if self.negative() {
            -self.magnitude()
        } else {
            self.magnitude()
        }
    }

    /// Numeric `<`: false whenever either side is a NaN.
    pub open spec fn less_than(self, other: Scalar) -> bool {
        !self.nan() && !other.nan() && self.rank() < other.rank()
    }

    /// The larger of two numbers. A NaN loses to anything; of two numbers
    /// that rank equal, `self` is kept.
    pub open spec fn larger(self, other: Scalar) -> Scalar {
        if self.nan() {
            other
        } else if other.nan() {
            self
        } else if self.rank() < other.rank() {
            other
        } else {
            self
        }
    }

    /// Positive zero.
    pub open spec fn spec_zero() -> Scalar {
        Scalar { bits: 0 }
    }

    /// The number 1.
    pub open spec fn spec_one() -> Scalar {
        Scalar { bits: 0x3F80_0000 }
    }

    /// The number with the given bit pattern.
    pub fn from_bits(bits: u32) -> (s: Scalar)
        ensures
            s.bits == bits,
    {
        Scalar { bits }
    }

    /// The bit pattern of the number.
    pub fn to_bits(self) -> (bits: u32)
        ensures
            bits == self.bits,
    {
        self.bits
    }

    /// Positive zero.
    #[verifier::when_used_as_spec(spec_zero)]
    pub fn zero() -> (s: Scalar)
        ensures
            s == Scalar::spec_zero(),
    {
        Scalar { bits: 0 }
    }

    /// The number 1.
    #[verifier::when_used_as_spec(spec_one)]
    pub fn one() -> (s: Scalar)
        ensures
            s == Scalar::spec_one(),
    {
        Scalar { bits: 0x3F80_0000 }
    }

    /// Whether the number is a NaN.
    pub fn is_nan(self) -> (b: bool)
        ensures
            b == self.nan(),
    {
        self.bits % 0x8000_0000 > 0x7F80_0000
    }

    /// Numeric `<` on two patterns.
    pub fn lt(self, other: Scalar) -> (b: bool)
        ensures
            b == self.less_than(other),
    {
        if self.is_nan() || other.is_nan() {
            return false;
        }
        let a: u32 = self.bits % 0x8000_0000;
        let b: u32 = other.bits % 0x8000_0000;
        if self.bits >= 0x8000_0000 {
            if other.bits >= 0x8000_0000 {
                b < a
            } else {
                a > 0 || b > 0
            }
        } else {
            if other.bits >= 0x8000_0000 {
                false
            } else {
                a < b
            }
        }
    }

    /// The larger of two numbers, ignoring a NaN on either side.
    pub fn max(self, other: Scalar) -> (m: Scalar)
        ensures
            m == self.larger(other),
    {
        if self.is_nan() {
            other
        } else if other.is_nan() {
            self
        } else if self.lt(other) {
            other
        } else {
            self
        }
    }

    /// Brings `self` into `[low, high]` by two numeric comparisons: below
    /// `low` it becomes `low`, and what is then above `high` becomes `high`.
    /// A NaN compares false both times and passes through.
    pub open spec fn clamped(self, low: Scalar, high: Scalar) -> Scalar {
        let raised = if self.less_than(low) {
            low
        } else {
            self
        };
        if high.less_than(raised) {
            high
        } else {
            raised
        }
    }

    /// `self` brought into `[low, high]` by two numeric comparisons.
    pub fn clamp(self, low: Scalar, high: Scalar) -> (c: Scalar)
        ensures
            c == self.clamped(low, high),
    {
        let raised = if self.lt(low) {
            low
        } else {
            self
        };
        if high.lt(raised) {
            high
        } else {
            raised
        }
    }
}

impl Default for Scalar {
    fn default() -> (s: Scalar)
        ensures
            s == Scalar::spec_zero(),
    {
        Scalar { bits: 0 }
    }
}

/// The largest of positive zero and the numbers in `values`, NaNs ignored.
pub open spec fn greatest(values: Seq<Scalar>) -> Scalar
    decreases values.len(),
{
    if values.len() == 0 {
        Scalar::spec_zero()
    } else {
        greatest(values.drop_last()).larger(values.last())
    }
}

/// The largest of positive zero and a sequence with one more member is the
/// larger of that member and the largest so far.
pub proof fn lemma_greatest_push(values: Seq<Scalar>, next: Scalar)
    ensures
        greatest(values.push(next)) == greatest(values).larger(next),
{
    assert(values.push(next).drop_last() =~= values);
}

/// `m` is a non-negative number, no number in `values` exceeds it, and it is
/// positive zero or a member of `values`.
pub open spec fn is_maximum_of(values: Seq<Scalar>, m: Scalar) -> bool {
    &&& !m.nan()
    &&& !m.negative()
    &&& forall|i: int|
        0 <= i < values.len() && !values[i].nan() ==> #[trigger] values[i].rank() <= m.rank()
    &&& (m == Scalar::spec_zero() || exists|i: int|
        0 <= i < values.len() && #[trigger] values[i] == m)
}

/// `greatest` is the maximum in the sense of `is_maximum_of`.
pub proof fn lemma_greatest_is_maximum(values: Seq<Scalar>)
    ensures
        is_maximum_of(values, greatest(values)),
    decreases values.len(),
{
    if values.len() > 0 {
        let init = values.drop_last();
        lemma_greatest_is_maximum(init);
        let g = greatest(init);
        assert forall|i: int| 0 <= i < values.len() && !values[i].nan() implies #[trigger] values[i].rank()
            <= greatest(values).rank() by {
            if i < init.len() {
                assert(init[i] == values[i]);
            }
        }
        if greatest(values) == g {
            if g != Scalar::spec_zero() {
                let i = choose|i: int| 0 <= i < init.len() && #[trigger] init[i] == g;
                assert(values[i] == greatest(values));
            }
        } else {
            assert(values[values.len() - 1] == greatest(values));
        }
    }
}

/// There is one maximum only: `is_maximum_of` pins `greatest` down to the
/// bit.
pub proof fn lemma_maximum_is_unique(values: Seq<Scalar>, a: Scalar, b: Scalar)
    requires
        is_maximum_of(values, a),
        is_maximum_of(values, b),
    ensures
        a == b,
{
    assert(a.rank() <= b.rank()) by {
        if a != Scalar::spec_zero() {
            let i = choose|i: int| 0 <= i < values.len() && #[trigger] values[i] == a;
            assert(values[i].rank() <= b.rank());
        }
    }
    assert(b.rank() <= a.rank()) by {
        if b != Scalar::spec_zero() {
            let i = choose|i: int| 0 <= i < values.len() && #[trigger] values[i] == b;
            assert(values[i].rank() <= a.rank());
        }
    }
    assert(a.bits == a.rank());
    assert(b.bits == b.rank());
}

/// Two components.
#[derive(Clone, Copy, Debug, PartialEq, Eq, Structural)]
pub struct Vec2 {
    pub x: Scalar,
    pub y: Scalar,
}

/// Three components.
#[derive(Clone, Copy, Debug, PartialEq, Eq, Structural)]
pub struct Vec3 {
    pub x: Scalar,
    pub y: Scalar,
    pub z: Scalar,
}

/// Four components.
#[derive(Clone, Copy, Debug, PartialEq, Eq, Structural)]
pub struct Vec4 {
    pub x: Scalar,
    pub y: Scalar,
    pub z: Scalar,
    pub w: Scalar,
}

/// A quaternion, vector part first.
#[derive(Clone, Copy, Debug, PartialEq, Eq, Structural)]
pub struct Quat {
    pub x: Scalar,
    pub y: Scalar,
    pub z: Scalar,
    pub w: Scalar,
}

/// A 4x4 matrix as its four columns.
#[derive(Clone, Copy, Debug, PartialEq, Eq, Structural)]
pub struct Mat4 {
    pub c0: Vec4,
    pub c1: Vec4,
    pub c2: Vec4,
    pub c3: Vec4,
}

impl Vec2 {
    /// Every component set to `s`.
    pub open spec fn spec_splat(s: Scalar) -> Vec2 {
        Vec2 { x: s, y: s }
    }

    /// Both components set to `s`.
    #[verifier::when_used_as_spec(spec_splat)]
    pub fn splat(s: Scalar) -> (v: Vec2)
        ensures
            v == Vec2::spec_splat(s),
    {
        Vec2 { x: s, y: s }
    }
}

impl Vec3 {
    /// Every component set to `s`.
    pub open spec fn spec_splat(s: Scalar) -> Vec3 {
        Vec3 { x: s, y: s, z: s }
    }

    /// All three components set to `s`.
    #[verifier::when_used_as_spec(spec_splat)]
    pub fn splat(s: Scalar) -> (v: Vec3)
        ensures
            v == Vec3::spec_splat(s),
    {
        Vec3 { x: s, y: s, z: s }
    }
}

impl Vec4 {
    /// Every component set to `s`.
    pub open spec fn spec_splat(s: Scalar) -> Vec4 {
        Vec4 { x: s, y: s, z: s, w: s }
    }

    /// All four components set to `s`.
    #[verifier::when_used_as_spec(spec_splat)]
    pub fn splat(s: Scalar) -> (v: Vec4)
        ensures
            v == Vec4::spec_splat(s),
    {
        Vec4 { x: s, y: s, z: s, w: s }
    }

    /// The vector (1, 0, 0, 0).
    pub open spec fn spec_unit_x() -> Vec4 {
        Vec4 { x: Scalar::spec_one(), y: Scalar::spec_zero(), z: Scalar::spec_zero(), w: Scalar::spec_zero() }
    }

    /// The vector (1, 0, 0, 0).
    #[verifier::when_used_as_spec(spec_unit_x)]
    pub fn unit_x() -> (v: Vec4)
        ensures
            v == Vec4::spec_unit_x(),
    {
        Vec4 { x: Scalar::one(), y: Scalar::zero(), z: Scalar::zero(), w: Scalar::zero() }
    }
}

impl Quat {
    /// The rotation that turns nothing: (0, 0, 0, 1).
    pub open spec fn spec_identity() -> Quat {
        Quat { x: Scalar::spec_zero(), y: Scalar::spec_zero(), z: Scalar::spec_zero(), w: Scalar::spec_one() }
    }

    /// The rotation that turns nothing.
    #[verifier::when_used_as_spec(spec_identity)]
    pub fn identity() -> (q: Quat)
        ensures
            q == Quat::spec_identity(),
    {
        Quat { x: Scalar::zero(), y: Scalar::zero(), z: Scalar::zero(), w: Scalar::one() }
    }
}

impl Mat4 {
    /// Ones on the diagonal, zeros elsewhere.
    pub open spec fn spec_identity() -> Mat4 {
        let o = Scalar::spec_one();
        let z = Scalar::spec_zero();
        Mat4 {
            c0: Vec4 { x: o, y: z, z: z, w: z },
            c1: Vec4 { x: z, y: o, z: z, w: z },
            c2: Vec4 { x: z, y: z, z: o, w: z },
            c3: Vec4 { x: z, y: z, z: z, w: o },
        }
    }

    /// Ones on the diagonal, zeros elsewhere.
    #[verifier::when_used_as_spec(spec_identity)]
    pub fn identity() -> (m: Mat4)
        ensures
            m == Mat4::spec_identity(),
    {
        let o = Scalar::one();
        let z = Scalar::zero();
        Mat4 {
            c0: Vec4 { x: o, y: z, z: z, w: z },
            c1: Vec4 { x: z, y: o, z: z, w: z },
            c2: Vec4 { x: z, y: z, z: o, w: z },
            c3: Vec4 { x: z, y: z, z: z, w: o },
        }
    }
}

} // verus!
