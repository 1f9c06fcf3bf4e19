//! Elements of the Ristretto group, a cyclic group of prime order `l`
//! generated by its basepoint.
use crate::scalar::{group_order, FE};
use curve25519_dalek::constants::RISTRETTO_BASEPOINT_POINT;
use curve25519_dalek::ristretto::RistrettoPoint;
use curve25519_dalek::scalar::Scalar;
use vstd::prelude::*;

verus! {

#[verifier::external_type_specification]
#[verifier::external_body]
pub struct ExRistrettoPoint(RistrettoPoint);

/// The discrete logarithm of a point to the Ristretto basepoint: the `k` in
/// `[0, l)` with `p == k * B`. The group has prime order `l` and `B`
/// generates it, so `k` exists and is unique.
pub uninterp spec fn discrete_log(p: RistrettoPoint) -> int;

/// A group element. It is modelled by its discrete logarithm to the
/// generator, so that two points are equal exactly when their views are.
#[derive(Clone, Copy, Debug)]
pub struct GE {
    pub point: RistrettoPoint,
}

impl View for GE {
    type V = int;

    open spec fn view(&self) -> int {
        discrete_log(self.point) % group_order()
    }
}

/// Relies on curve25519_dalek's `RISTRETTO_BASEPOINT_POINT`: the generator,
/// whose logarithm is one.
#[verifier::external_body]
fn basepoint() -> (r: GE)
    ensures
        discrete_log(r.point) % group_order() == 1,
{
    GE { point: RISTRETTO_BASEPOINT_POINT }
}

/// Relies on curve25519_dalek's `Add for &RistrettoPoint`: the group law,
/// which adds logarithms modulo `l`.
#[verifier::external_body]
fn point_add(a: &GE, b: &GE) -> (r: GE)
    ensures
        discrete_log(r.point) % group_order() == (a@ + b@) % group_order(),
{
    GE { point: &a.point + &b.point }
}

/// Relies on curve25519_dalek's `Mul<&Scalar> for &RistrettoPoint`: scalar
/// multiplication, which multiplies the logarithm by the scalar modulo `l`.
#[verifier::external_body]
fn point_mul(p: &GE, k: &FE) -> (r: GE)
    ensures
        discrete_log(r.point) % group_order() == (p@ * k@) % group_order(),
{
    GE { point: &p.point * &Scalar::from_bytes_mod_order(k.bytes) }
}

/// Relies on curve25519_dalek's `PartialEq for RistrettoPoint`: equality of
/// group elements.
#[verifier::external_body]
fn point_eq(a: &GE, b: &GE) -> (r: bool)
    ensures
        r == (discrete_log(a.point) % group_order() == discrete_log(b.point) % group_order()),
{
    a.point == b.point
}

impl GE {
    /// The fixed generator of the group.
    pub fn generator() -> (r: GE)
        ensures
            r@ == 1,
    {
        basepoint()
    }

    pub fn add_point(&self, other: &GE) -> (r: GE)
        ensures
            r@ == (self@ + other@) % group_order(),
    {
        point_add(self, other)
    }

    pub fn scalar_mul(&self, k: &FE) -> (r: GE)
        ensures
            r@ == (self@ * k@) % group_order(),
    {
        point_mul(self, k)
    }
}

impl PartialEq for GE {
    fn eq(&self, other: &GE) -> (r: bool) {
        point_eq(self, other)
    }
}

impl vstd::std_specs::cmp::PartialEqSpecImpl for GE {
    open spec fn obeys_eq_spec() -> bool {
        true
    }

    open spec fn eq_spec(&self, other: &GE) -> bool {
        self@ == other@
    }
}

} // verus!
