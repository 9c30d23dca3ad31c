//! Trusted boundary to the pairing-friendly curve backend (BLS12-381 from the
//! arkworks crates) and to the thread-local secure random number generator.
//!
//! The curve types are held opaquely, each inside a wrapper struct whose one
//! field Verus never sees. Every group element of the scheme is some scalar
//! multiple of the canonical generator of its group, so each group is
//! modelled by an abstraction function from an integer exponent to the opaque
//! wrapper: `g1_elem(x)` stands for `x * G` where `G` is the G1 generator,
//! and likewise for G2, for the pairing's target group, and for the scalar
//! field. Two exponents that agree modulo the prime group order denote the
//! same element, which keeps every contract below true of the real
//! arithmetic; nothing here claims the converse (injectivity), so no false
//! algebraic fact can be derived.

use vstd::prelude::*;

verus! {

#[verifier::external_type_specification]
#[verifier::external_body]
pub struct ExThreadRng(rand::rngs::ThreadRng);

/// An element of the scalar field of the curve, held opaquely.
#[verifier::external_body]
pub struct Scalar {
    value: ark_bls12_381::Fr,
}

/// A point of the first pairing group G1, held opaquely.
#[verifier::external_body]
pub struct G1Point {
    point: ark_bls12_381::G1Projective,
}

/// A point of the second pairing group G2, held opaquely.
#[verifier::external_body]
pub struct G2Point {
    point: ark_bls12_381::G2Projective,
}

/// An element of the pairing's target group GT, held opaquely.
#[verifier::external_body]
pub struct GtElement {
    value: ark_ec::pairing::PairingOutput<ark_bls12_381::Bls12_381>,
}

/// The scalar field element whose integer representative is `x`.
pub uninterp spec fn fr_elem(x: int) -> Scalar;

/// The G1 element `x * G`, `G` the canonical G1 generator.
pub uninterp spec fn g1_elem(x: int) -> G1Point;

/// The G2 element `x * H`, `H` the canonical G2 generator.
pub uninterp spec fn g2_elem(x: int) -> G2Point;

/// The target-group element `x * e(G, H)` (arkworks writes the target group
/// additively through `PairingOutput`).
pub uninterp spec fn gt_elem(x: int) -> GtElement;

impl Clone for Scalar {
    /// Relies on the Copy impl of the arkworks field element.
    #[verifier::external_body]
    fn clone(&self) -> (r: Self)
        ensures
            r == *self,
    {
        Scalar { value: self.value }
    }
}

impl Copy for Scalar {

}

impl Clone for G1Point {
    /// Relies on the Copy impl of the arkworks projective point.
    #[verifier::external_body]
    fn clone(&self) -> (r: Self)
        ensures
            r == *self,
    {
        G1Point { point: self.point }
    }
}

impl Copy for G1Point {

}

impl Clone for G2Point {
    /// Relies on the Copy impl of the arkworks projective point.
    #[verifier::external_body]
    fn clone(&self) -> (r: Self)
        ensures
            r == *self,
    {
        G2Point { point: self.point }
    }
}

impl Copy for G2Point {

}

impl Clone for GtElement {
    /// Relies on the Copy impl of the arkworks pairing output.
    #[verifier::external_body]
    fn clone(&self) -> (r: Self)
        ensures
            r == *self,
    {
        GtElement { value: self.value }
    }
}

impl Copy for GtElement {

}

impl Scalar {
    /// Relies on `From<u64>` for the arkworks prime field: the field element
    /// whose representative is the given integer.
    #[verifier::external_body]
    pub fn from_u64(x: u64) -> (r: Scalar)
        ensures
            r == fr_elem(x as int),
    {
        Scalar { value: ark_bls12_381::Fr::from(x) }
    }
}

impl G1Point {
    /// Relies on the PartialEq impl of the arkworks projective point, which
    /// compares the group elements the coordinates denote.
    #[verifier::external_body]
    pub fn equals(&self, other: &G1Point) -> (r: bool)
        ensures
            r == (*self == *other),
    {
        self.point == other.point
    }
}

impl G2Point {
    /// Relies on the PartialEq impl of the arkworks projective point, which
    /// compares the group elements the coordinates denote.
    #[verifier::external_body]
    pub fn equals(&self, other: &G2Point) -> (r: bool)
        ensures
            r == (*self == *other),
    {
        self.point == other.point
    }
}

impl GtElement {
    /// Relies on the derived PartialEq of the arkworks pairing output, which
    /// compares the underlying target-field values.
    #[verifier::external_body]
    pub fn equals(&self, other: &GtElement) -> (r: bool)
        ensures
            r == (*self == *other),
    {
        self.value == other.value
    }
}

/// Relies on `ark_ff::UniformRand::rand`: samples a uniformly random scalar.
/// Nothing is promised about which scalar comes back, only that it is some
/// field element, and every field element is an integer multiple of one.
#[verifier::external_body]
pub(crate) fn fr_random(rng: &mut rand::rngs::ThreadRng) -> (r: Scalar)
    ensures
        exists|x: int| r == fr_elem(x),
{
    Scalar { value: <ark_bls12_381::Fr as ark_ff::UniformRand>::rand(rng) }
}

/// Relies on `ark_ec::Group::generator`: the canonical G1 generator, `1 * G`.
#[verifier::external_body]
pub(crate) fn g1_generator() -> (r: G1Point)
    ensures
        r == g1_elem(1),
{
    G1Point { point: <ark_bls12_381::G1Projective as ark_ec::Group>::generator() }
}

/// Relies on `ark_ec::Group::generator`: the canonical G2 generator, `1 * H`.
#[verifier::external_body]
pub(crate) fn g2_generator() -> (r: G2Point)
    ensures
        r == g2_elem(1),
{
    G2Point { point: <ark_bls12_381::G2Projective as ark_ec::Group>::generator() }
}

/// Relies on the `Add` impl of `ark_ec::short_weierstrass::Projective`: the
/// G1 group law, `a * G + b * G == (a + b) * G`.
#[verifier::external_body]
pub(crate) fn g1_add(p: &G1Point, q: &G1Point) -> (r: G1Point)
    ensures
        forall|a: int, b: int|
            *p == #[trigger] g1_elem(a) && *q == #[trigger] g1_elem(b) ==> r == g1_elem(a + b),
{
    G1Point { point: p.point + q.point }
}

/// Relies on the `Mul` impl of `ark_ec::short_weierstrass::Projective`:
/// scalar multiplication in G1, `b * (a * G) == (a * b) * G`.
#[verifier::external_body]
pub(crate) fn g1_mul(p: &G1Point, s: &Scalar) -> (r: G1Point)
    ensures
        forall|a: int, b: int|
            *p == #[trigger] g1_elem(a) && *s == #[trigger] fr_elem(b) ==> r == g1_elem(a * b),
{
    G1Point { point: p.point * s.value }
}

/// Relies on the `Mul` impl of `ark_ec::short_weierstrass::Projective`:
/// scalar multiplication in G2, `b * (a * H) == (a * b) * H`.
#[verifier::external_body]
pub(crate) fn g2_mul(q: &G2Point, s: &Scalar) -> (r: G2Point)
    ensures
        forall|a: int, b: int|
            *q == #[trigger] g2_elem(a) && *s == #[trigger] fr_elem(b) ==> r == g2_elem(a * b),
{
    G2Point { point: q.point * s.value }
}

/// Relies on `ark_ec::pairing::Pairing::pairing`: the bilinear map, which on
/// `a * G` and `b * H` returns `e(G, H)` raised to `a * b` — additively,
/// `(a * b) * e(G, H)`.
#[verifier::external_body]
pub(crate) fn pairing(p: &G1Point, q: &G2Point) -> (r: GtElement)
    ensures
        forall|a: int, b: int|
            *p == #[trigger] g1_elem(a) && *q == #[trigger] g2_elem(b) ==> r == gt_elem(a * b),
{
    GtElement {
        value: <ark_bls12_381::Bls12_381 as ark_ec::pairing::Pairing>::pairing(p.point, q.point),
    }
}

/// Relies on the `Sub` impl of `ark_ec::pairing::PairingOutput`: the target
/// group operation written additively, so subtraction is division in the
/// multiplicative target group.
#[verifier::external_body]
pub(crate) fn gt_sub(x: &GtElement, y: &GtElement) -> (r: GtElement)
    ensures
        forall|a: int, b: int|
            *x == #[trigger] gt_elem(a) && *y == #[trigger] gt_elem(b) ==> r == gt_elem(a - b),
{
    GtElement { value: x.value - y.value }
}

} // verus!
