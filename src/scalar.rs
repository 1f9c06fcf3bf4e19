//! Elements of the scalar field `Z_l`, where `l` is the prime order of the
//! Ristretto group.
use curve25519_dalek::scalar::Scalar;
use vstd::arithmetic::power::pow;
use vstd::prelude::*;

verus! {

/// The order `l = 2^252 + 27742317777372353535851937790883648493` of the group.
pub open spec fn group_order() -> int {
    (0x4000_0000_0000_0000_0000_0000_0000_0000 * 0x4000_0000_0000_0000_0000_0000_0000_0000
        + 27742317777372353535851937790883648493) as int
}

/// The integer that a little-endian byte string stands for.
pub open spec fn le_value(b: Seq<u8>) -> int
    decreases b.len(),
{
    if b.len() == 0 {
        0
    } else {
        b[0] as int + 256 * le_value(b.drop_first())
    }
}

/// Inversion in the field by Fermat's little theorem: `a^(l-2) mod l`
/// (zero goes to zero).
pub open spec fn field_inv(a: int) -> int {
    pow(a % group_order(), (group_order() - 2) as nat) % group_order()
}

/// A scalar, held as a 32-byte little-endian integer and read modulo the
/// group order.
#[derive(Clone, Copy, Debug)]
pub struct FE {
    pub bytes: [u8; 32],
}

impl View for FE {
    type V = int;

    open spec fn view(&self) -> int {
        le_value(self.bytes@) % group_order()
    }
}

/// Relies on curve25519_dalek's `Scalar::random`: some element of the field,
/// drawn from the thread-local CSPRNG of `rand`.
#[verifier::external_body]
fn random_scalar() -> (r: FE) {
    FE { bytes: Scalar::random(&mut rand::thread_rng()).to_bytes() }
}

/// Relies on curve25519_dalek's `From<u64> for Scalar`: the scalar of that
/// integer.
#[verifier::external_body]
fn scalar_from_u64(x: u64) -> (r: FE)
    ensures
        r@ == x as int,
{
    FE { bytes: Scalar::from(x).to_bytes() }
}

/// Relies on curve25519_dalek's `Add for &Scalar`: addition modulo `l`.
#[verifier::external_body]
fn scalar_add(a: &FE, b: &FE) -> (r: FE)
    ensures
        r@ == (a@ + b@) % group_order(),
{
    let s = &Scalar::from_bytes_mod_order(a.bytes) + &Scalar::from_bytes_mod_order(b.bytes);
    FE { bytes: s.to_bytes() }
}

/// Relies on curve25519_dalek's `Sub for &Scalar`: subtraction modulo `l`.
#[verifier::external_body]
fn scalar_sub(a: &FE, b: &FE) -> (r: FE)
    ensures
        r@ == (a@ - b@) % group_order(),
{
    let s = &Scalar::from_bytes_mod_order(a.bytes) - &Scalar::from_bytes_mod_order(b.bytes);
    FE { bytes: s.to_bytes() }
}

/// Relies on curve25519_dalek's `Mul for &Scalar`: multiplication modulo `l`.
#[verifier::external_body]
fn scalar_mul(a: &FE, b: &FE) -> (r: FE)
    ensures
        r@ == (a@ * b@) % group_order(),
{
    let s = &Scalar::from_bytes_mod_order(a.bytes) * &Scalar::from_bytes_mod_order(b.bytes);
    FE { bytes: s.to_bytes() }
}

/// Relies on curve25519_dalek's `Scalar::invert`, which raises its argument
/// to the power `l - 2`: the inverse of a nonzero scalar, and zero for zero.
#[verifier::external_body]
fn scalar_invert(a: &FE) -> (r: FE)
    ensures
        r@ == field_inv(a@),
        a@ != 0 ==> (a@ * r@) % group_order() == 1,
{
    FE { bytes: Scalar::from_bytes_mod_order(a.bytes).invert().to_bytes() }
}

/// Relies on curve25519_dalek's `PartialEq for Scalar`, on reduced scalars.
#[verifier::external_body]
fn scalar_eq(a: &FE, b: &FE) -> (r: bool)
    ensures
        r == (a@ == b@),
{
    Scalar::from_bytes_mod_order(a.bytes) == Scalar::from_bytes_mod_order(b.bytes)
}

impl FE {
    /// A nonzero scalar drawn at random (a zero draw is replaced by one).
    pub fn new_random() -> (r: FE)
        ensures
            r@ != 0,
    {
        let s = random_scalar();
        if scalar_eq(&s, &FE::zero()) {
            FE::one()
        } else {
            s
        }
    }

    /// The scalar `n mod l`.
    pub fn from_u64(n: u64) -> (r: FE)
        ensures
            r@ == n as int,
    {
        scalar_from_u64(n)
    }

    /// The additive identity.
    pub fn zero() -> (r: FE)
        ensures
            r@ == 0,
    {
        scalar_from_u64(0)
    }

    /// The multiplicative identity.
    pub fn one() -> (r: FE)
        ensures
            r@ == 1,
    {
        scalar_from_u64(1)
    }

    pub fn add(&self, other: &FE) -> (r: FE)
        ensures
            r@ == (self@ + other@) % group_order(),
    {
        scalar_add(self, other)
    }

    pub fn sub(&self, other: &FE) -> (r: FE)
        ensures
            r@ == (self@ - other@) % group_order(),
    {
        scalar_sub(self, other)
    }

    pub fn mul(&self, other: &FE) -> (r: FE)
        ensures
            r@ == (self@ * other@) % group_order(),
    {
        scalar_mul(self, other)
    }

    /// The multiplicative inverse; zero has none and maps to zero.
    pub fn invert(&self) -> (r: FE)
        ensures
            r@ == field_inv(self@),
            self@ != 0 ==> (self@ * r@) % group_order() == 1,
    {
        scalar_invert(self)
    }
}

impl PartialEq for FE {
    fn eq(&self, other: &FE) -> (r: bool) {
        scalar_eq(self, other)
    }
}

impl vstd::std_specs::cmp::PartialEqSpecImpl for FE {
    open spec fn obeys_eq_spec() -> bool {
        true
    }

    open spec fn eq_spec(&self, other: &FE) -> bool {
        self@ == other@
    }
}

/// The value of every scalar lies in `[0, l)`.
pub proof fn lemma_scalar_range(a: FE)
    ensures
        0 <= a@ < group_order(),
{
}

} // verus!
