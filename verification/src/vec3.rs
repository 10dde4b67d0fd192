//! Three-component vectors whose coordinates are stored as the raw bit
//! patterns of IEEE-754 single-precision numbers.
//!
//! The mesh algorithms in this crate only ever move, compare and regroup
//! coordinates; the handful of numeric operations they need (subtraction,
//! addition, cross product, normalisation, parsing) are delegated to the
//! `glam` vector library and to `std`, behind the trusted wrappers below.
//! Each wrapper's result is named by an uninterpreted spec function of the
//! argument bits, which the contracts of the mesh algorithms then use. The
//! wrapper bodies turn stored bits into numbers with `bytemuck::cast`,
//! letting the `glam` signatures fix the element type, and read each result
//! component back with `to_bits`.
//!
//! Two vectors are equal exactly when their stored bit patterns are equal;
//! distinct encodings of numerically equal values (such as the two signed
//! zeros) stay distinct. Position deduplication relies on this equality.

use vstd::prelude::*;

verus! {

/// The sign bit of an IEEE-754 single-precision number.
pub const SIGN_BIT: u32 = 0x8000_0000;

/// A 3-component vector; each field holds the bit pattern of an IEEE-754
/// single-precision coordinate. All-zero bits encode positive zero.
#[derive(Clone, Copy, PartialEq, Eq, Structural, Debug, Hash)]
pub struct Vector3 {
    pub x: u32,
    pub y: u32,
    pub z: u32,
}

/// The bits of the difference `a - b`, computed componentwise in
/// single-precision arithmetic; a function of the argument bits alone.
pub uninterp spec fn sub_bits(ax: u32, ay: u32, az: u32, bx: u32, by: u32, bz: u32) -> (
    u32,
    u32,
    u32,
);

/// The bits of the sum `a + b`, computed componentwise in single-precision
/// arithmetic; a function of the argument bits alone.
pub uninterp spec fn add_bits(ax: u32, ay: u32, az: u32, bx: u32, by: u32, bz: u32) -> (
    u32,
    u32,
    u32,
);

/// The bits of the cross product `a x b` in single-precision arithmetic;
/// a function of the argument bits alone.
pub uninterp spec fn cross_bits(ax: u32, ay: u32, az: u32, bx: u32, by: u32, bz: u32) -> (
    u32,
    u32,
    u32,
);

/// The bits of the vector scaled to unit length, or of the zero vector when
/// the input has zero (or near-zero, or non-finite) length; a function of the
/// argument bits alone.
pub uninterp spec fn normalise_bits(x: u32, y: u32, z: u32) -> (u32, u32, u32);

/// The single-precision value, as bits, that the token's bytes parse to, or
/// `None` when they are not a valid decimal floating-point literal; a
/// function of the token's bytes alone.
pub uninterp spec fn parse_scalar_bits(tok: Seq<u8>) -> Option<u32>;

impl Vector3 {
    /// The vector holding the three components of a triple, in order.
    pub open spec fn from_triple(t: (u32, u32, u32)) -> Vector3 {
        Vector3 { x: t.0, y: t.1, z: t.2 }
    }

    /// The all-zero-bits vector, which encodes (+0, +0, +0).
    pub open spec fn spec_zero() -> Vector3 {
        Vector3 { x: 0, y: 0, z: 0 }
    }

    pub open spec fn spec_sub(self, other: Vector3) -> Vector3 {
        Vector3::from_triple(sub_bits(self.x, self.y, self.z, other.x, other.y, other.z))
    }

    pub open spec fn spec_add(self, other: Vector3) -> Vector3 {
        Vector3::from_triple(add_bits(self.x, self.y, self.z, other.x, other.y, other.z))
    }

    pub open spec fn spec_cross(self, other: Vector3) -> Vector3 {
        Vector3::from_triple(cross_bits(self.x, self.y, self.z, other.x, other.y, other.z))
    }

    pub open spec fn spec_normalised(self) -> Vector3 {
        Vector3::from_triple(normalise_bits(self.x, self.y, self.z))
    }

    /// Each component with its sign bit flipped: the IEEE-754 negation of the
    /// stored values.
    pub open spec fn spec_neg(self) -> Vector3 {
        Vector3 { x: self.x ^ SIGN_BIT, y: self.y ^ SIGN_BIT, z: self.z ^ SIGN_BIT }
    }

    /// The (+0, +0, +0) vector.
    pub fn zero() -> (r: Vector3)
        ensures
            r == Vector3::spec_zero(),
    {
        Vector3 { x: 0, y: 0, z: 0 }
    }

    /// Componentwise difference `self - other`.
    ///
    /// Relies on the `-` operator of `glam::Vec3`, which subtracts
    /// componentwise in single-precision arithmetic.
    #[verifier::external_body]
    pub(crate) fn sub(&self, other: &Vector3) -> (r: Vector3)
        ensures
            (r.x, r.y, r.z) == sub_bits(self.x, self.y, self.z, other.x, other.y, other.z),
    {
        let a: [_; 3] = bytemuck::cast([self.x, self.y, self.z]);
        let b: [_; 3] = bytemuck::cast([other.x, other.y, other.z]);
        let d = glam::Vec3::from_array(a) - glam::Vec3::from_array(b);
        Vector3 { x: d.x.to_bits(), y: d.y.to_bits(), z: d.z.to_bits() }
    }

    /// Componentwise sum `self + other`.
    ///
    /// Relies on the `+` operator of `glam::Vec3`, which adds componentwise
    /// in single-precision arithmetic.
    #[verifier::external_body]
    pub(crate) fn add(&self, other: &Vector3) -> (r: Vector3)
        ensures
            (r.x, r.y, r.z) == add_bits(self.x, self.y, self.z, other.x, other.y, other.z),
    {
        let a: [_; 3] = bytemuck::cast([self.x, self.y, self.z]);
        let b: [_; 3] = bytemuck::cast([other.x, other.y, other.z]);
        let s = glam::Vec3::from_array(a) + glam::Vec3::from_array(b);
        Vector3 { x: s.x.to_bits(), y: s.y.to_bits(), z: s.z.to_bits() }
    }

    /// Cross product `self x other`.
    ///
    /// Relies on `glam::Vec3::cross`, which computes the usual right-handed
    /// cross product in single-precision arithmetic.
    #[verifier::external_body]
    pub(crate) fn cross(&self, other: &Vector3) -> (r: Vector3)
        ensures
            (r.x, r.y, r.z) == cross_bits(self.x, self.y, self.z, other.x, other.y, other.z),
    {
        let a: [_; 3] = bytemuck::cast([self.x, self.y, self.z]);
        let b: [_; 3] = bytemuck::cast([other.x, other.y, other.z]);
        let c = glam::Vec3::from_array(a).cross(glam::Vec3::from_array(b));
        Vector3 { x: c.x.to_bits(), y: c.y.to_bits(), z: c.z.to_bits() }
    }

    /// The vector scaled to unit length; the zero vector when the input has
    /// zero (or near-zero, or non-finite) length.
    ///
    /// Relies on `glam::Vec3::normalize_or_zero`, which divides by the length
    /// when that is possible and returns `Vec3::ZERO` otherwise.
    #[verifier::external_body]
    pub(crate) fn normalised(&self) -> (r: Vector3)
        ensures
            (r.x, r.y, r.z) == normalise_bits(self.x, self.y, self.z),
    {
        let a: [_; 3] = bytemuck::cast([self.x, self.y, self.z]);
        let n = glam::Vec3::from_array(a).normalize_or_zero();
        Vector3 { x: n.x.to_bits(), y: n.y.to_bits(), z: n.z.to_bits() }
    }

    /// Each component with its sign bit flipped: the IEEE-754 negation of
    /// the stored values.
    pub fn neg(&self) -> (r: Vector3)
        ensures
            r == self.spec_neg(),
    {
        Vector3 { x: self.x ^ SIGN_BIT, y: self.y ^ SIGN_BIT, z: self.z ^ SIGN_BIT }
    }
}

/// The single-precision value that the token parses to, as bits, or `None`
/// for a token that is not a valid floating-point literal (or not UTF-8).
///
/// Relies on `str::parse::<f32>` (std's `FromStr` for single-precision
/// numbers), whose result depends on the token's bytes alone.
#[verifier::external_body]
pub(crate) fn parse_scalar(tok: &Vec<u8>) -> (r: Option<u32>)
    ensures
        r == parse_scalar_bits(tok@),
{
    match core::str::from_utf8(tok.as_slice()) {
        Ok(s) => match s.parse() {
            Ok(v) => Some(glam::Vec3::splat(v).x.to_bits()),
            Err(_) => None,
        },
        Err(_) => None,
    }
}

} // verus!
