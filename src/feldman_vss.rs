//! Feldman's verifiable secret sharing over the scalar field and the group.
//!
//! A dealer samples a polynomial of degree `t` whose constant term is the
//! secret, hands participant `j` (counted from zero) its value at `j + 1`,
//! and publishes the generator times each coefficient. A holder checks its
//! share against those commitments; any `t + 1` shares give the secret back
//! by Lagrange interpolation at zero.
use crate::point::GE;
use crate::scalar::{field_inv, group_order, lemma_scalar_range, FE};
use crate::ErrorSS;
use vstd::arithmetic::div_mod::{
    lemma_add_mod_noop_right, lemma_fundamental_div_mod, lemma_small_mod,
};
use vstd::arithmetic::power::pow;
use vstd::prelude::*;

verus! {

/// The parameters of a sharing: threshold `t` and share count `n`.
#[derive(Clone, Copy, PartialEq, Eq, Debug, Structural)]
pub struct ShamirSecretSharing {
    pub threshold: usize,
    pub share_count: usize,
}

/// The public part of a sharing: its parameters and the commitments
/// `coefficient_k * G`, in the order of the coefficients.
#[derive(Clone, Debug)]
pub struct VerifiableSS {
    pub parameters: ShamirSecretSharing,
    pub commitments: Vec<GE>,
}

impl PartialEq for VerifiableSS {
    fn eq(&self, other: &VerifiableSS) -> (r: bool) {
        if self.parameters != other.parameters {
            return false;
        }
        if self.commitments.len() != other.commitments.len() {
            assert(logs(self.commitments@).len() != logs(other.commitments@).len());
            return false;
        }
        let mut i: usize = 0;
        while i < self.commitments.len()
            invariant
                i <= self.commitments.len(),
                self.commitments.len() == other.commitments.len(),
                forall|k: int| 0 <= k < i ==> #[trigger] self.commitments@[k]@
                    == other.commitments@[k]@,
            decreases self.commitments.len() - i,
        {
            if !(self.commitments[i] == other.commitments[i]) {
                assert(logs(self.commitments@)[i as int] != logs(other.commitments@)[i as int]);
                return false;
            }
            i = i + 1;
        }
        assert(logs(self.commitments@) =~= logs(other.commitments@));
        true
    }
}

impl vstd::std_specs::cmp::PartialEqSpecImpl for VerifiableSS {
    open spec fn obeys_eq_spec() -> bool {
        true
    }

    /// Equal parameters and the same commitments, in the same order.
    open spec fn eq_spec(&self, other: &VerifiableSS) -> bool {
        self.parameters == other.parameters && logs(self.commitments@) == logs(
            other.commitments@,
        )
    }
}

/// The values of a sequence of scalars.
pub open spec fn scalars(v: Seq<FE>) -> Seq<int> {
    v.map_values(|f: FE| f@)
}

/// The logarithms of a sequence of points.
pub open spec fn logs(v: Seq<GE>) -> Seq<int> {
    v.map_values(|g: GE| g@)
}

/// The polynomial with coefficients `c` (constant term first) at `x`, in
/// the field, by Horner's rule.
pub open spec fn poly_eval(c: Seq<int>, x: int) -> int
    decreases c.len(),
{
    if c.len() == 0 {
        0
    } else {
        (c[0] + x * poly_eval(c.drop_first(), x)) % group_order()
    }
}

/// A share is valid for a participant's evaluation point when the generator
/// times it equals the commitments' polynomial at that point.
pub open spec fn share_is_valid(vss: VerifiableSS, share: int, point: int) -> bool {
    share == poly_eval(logs(vss.commitments@), point)
}

/// `shares` are the values, at `1..=n`, of the polynomial that the
/// commitments of `vss` commit to.
pub open spec fn honest_sharing(vss: VerifiableSS, shares: Seq<FE>) -> bool {
    &&& shares.len() == vss.parameters.share_count
    &&& vss.commitments@.len() == vss.parameters.threshold + 1
    &&& forall|j: int|
        0 <= j < shares.len() ==> #[trigger] shares[j]@ == poly_eval(
            logs(vss.commitments@),
            j + 1,
        )
}

/// The product of `ps[j]` over `j < m`, `j != i`.
pub open spec fn lagrange_num(ps: Seq<int>, i: int, m: int) -> int
    decreases m,
{
    if m <= 0 {
        1
    } else if m - 1 != i {
        (lagrange_num(ps, i, m - 1) * ps[m - 1]) % group_order()
    } else {
        lagrange_num(ps, i, m - 1)
    }
}

/// The product of `ps[j] - ps[i]` over `j < m`, `j != i`.
pub open spec fn lagrange_den(ps: Seq<int>, i: int, m: int) -> int
    decreases m,
{
    if m <= 0 {
        1
    } else if m - 1 != i {
        (lagrange_den(ps, i, m - 1) * ((ps[m - 1] - ps[i]) % group_order())) % group_order()
    } else {
        lagrange_den(ps, i, m - 1)
    }
}

/// The `i`-th term of the interpolation at zero: `ys[i]` times the Lagrange
/// basis polynomial of `ps[i]` evaluated at zero.
pub open spec fn lagrange_term(ps: Seq<int>, ys: Seq<int>, i: int) -> int {
    (((lagrange_num(ps, i, ps.len() as int) * field_inv(lagrange_den(ps, i, ps.len() as int)))
        % group_order()) * ys[i]) % group_order()
}

/// The sum of the first `m` terms of the interpolation at zero.
pub open spec fn lagrange_sum(ps: Seq<int>, ys: Seq<int>, m: int) -> int
    decreases m,
{
    if m <= 0 {
        0
    } else {
        (lagrange_sum(ps, ys, m - 1) + lagrange_term(ps, ys, m - 1)) % group_order()
    }
}

/// The value at zero of the polynomial through the points `(ps[i], ys[i])`.
pub open spec fn lagrange_at_zero(ps: Seq<int>, ys: Seq<int>) -> int {
    lagrange_sum(ps, ys, ys.len() as int)
}

/// The evaluation points `index + 1` of participants given by index.
pub open spec fn index_points(indices: Seq<usize>) -> Seq<int> {
    indices.map_values(|i: usize| i as int + 1)
}

/// The product of `s[k] + 1` over `k < m` with `s[k] != index`.
pub open spec fn subset_num(s: Seq<usize>, index: int, m: int) -> int
    decreases m,
{
    if m <= 0 {
        1
    } else if s[m - 1] as int != index {
        (subset_num(s, index, m - 1) * (s[m - 1] as int + 1)) % group_order()
    } else {
        subset_num(s, index, m - 1)
    }
}

/// The product of `(s[k] + 1) - (index + 1)` over `k < m` with `s[k] != index`.
pub open spec fn subset_den(s: Seq<usize>, index: int, m: int) -> int
    decreases m,
{
    if m <= 0 {
        1
    } else if s[m - 1] as int != index {
        (subset_den(s, index, m - 1) * (((s[m - 1] as int + 1) - (index + 1)) % group_order()))
            % group_order()
    } else {
        subset_den(s, index, m - 1)
    }
}

/// The Lagrange coefficient at zero of participant `index` within the live
/// subset `s`.
pub open spec fn subset_coefficient(s: Seq<usize>, index: int) -> int {
    (subset_num(s, index, s.len() as int) * field_inv(subset_den(s, index, s.len() as int)))
        % group_order()
}

/// One step of Horner's rule, with the reduction taken where the field
/// operations take it.
proof fn lemma_horner_step(c: int, acc: int, x: int)
    ensures
        (c + (acc * x) % group_order()) % group_order() == (c + x * acc) % group_order(),
{
    lemma_add_mod_noop_right(c, acc * x, group_order());
    assert(acc * x == x * acc) by (nonlinear_arith);
}

/// A polynomial with a single coefficient is that constant.
proof fn lemma_poly_eval_single(c: Seq<int>, x: int)
    requires
        c.len() == 1,
        0 <= c[0] < group_order(),
    ensures
        poly_eval(c, x) == c[0],
{
    assert(poly_eval(c.drop_first(), x) == 0);
    lemma_small_mod(c[0] as nat, group_order() as nat);
}

impl VerifiableSS {
    /// The number of shares needed to reconstruct: `t + 1`.
    pub fn reconstruct_limit(&self) -> (r: usize)
        requires
            self.parameters.threshold < usize::MAX,
        ensures
            r == self.parameters.threshold + 1,
    {
        self.parameters.threshold + 1
    }

    /// The polynomial with coefficients `coefficients` (constant term first)
    /// at `point`, by Horner's rule.
    pub fn mod_evaluate_polynomial(coefficients: &[FE], point: FE) -> (r: FE)
        requires
            coefficients.len() >= 1,
        ensures
            r@ == poly_eval(scalars(coefficients@), point@),
    {
        let n = coefficients.len();
        let mut acc = coefficients[n - 1];
        let mut k: usize = n - 1;
        proof {
            let c = scalars(coefficients@.subrange(k as int, n as int));
            lemma_scalar_range(coefficients@[k as int]);
            lemma_poly_eval_single(c, point@);
        }
        while k > 0
            invariant
                0 <= k < n,
                n == coefficients.len(),
                acc@ == poly_eval(scalars(coefficients@.subrange(k as int, n as int)), point@),
            decreases k,
        {
            k = k - 1;
            let prev = acc;
            acc = coefficients[k].add(&prev.mul(&point));
            proof {
                let c = scalars(coefficients@.subrange(k as int, n as int));
                assert(c.drop_first() =~= scalars(coefficients@.subrange(k + 1, n as int)));
                lemma_horner_step(c[0], prev@, point@);
            }
        }
        assert(coefficients@.subrange(0, n as int) =~= coefficients@);
        acc
    }

    /// The polynomial at the points `1..=n`.
    pub fn evaluate_polynomial(n: usize, coefficients: &[FE]) -> (r: Vec<FE>)
        requires
            coefficients.len() >= 1,
        ensures
            r.len() == n,
            forall|j: int|
                0 <= j < n ==> #[trigger] r@[j]@ == poly_eval(scalars(coefficients@), j + 1),
    {
        let mut shares: Vec<FE> = Vec::new();
        let mut j: usize = 0;
        while j < n
            invariant
                j <= n,
                coefficients.len() >= 1,
                shares.len() == j,
                forall|i: int|
                    0 <= i < j ==> #[trigger] shares@[i]@ == poly_eval(
                        scalars(coefficients@),
                        i + 1,
                    ),
            decreases n - j,
        {
            let point = FE::from_u64((j + 1) as u64);
            shares.push(VerifiableSS::mod_evaluate_polynomial(coefficients, point));
            j = j + 1;
        }
        shares
    }

    /// A polynomial of degree `t` with constant term `coef0` and the other
    /// coefficients drawn at random.
    pub fn sample_polynomial(t: usize, coef0: &FE) -> (r: Vec<FE>)
        ensures
            r.len() == t + 1,
            r@[0]@ == coef0@,
            forall|k: int| 1 <= k <= t ==> #[trigger] r@[k]@ != 0,
    {
        let mut coefficients: Vec<FE> = Vec::new();
        coefficients.push(*coef0);
        let mut i: usize = 0;
        while i < t
            invariant
                i <= t,
                coefficients.len() == i + 1,
                coefficients@[0]@ == coef0@,
                forall|k: int| 1 <= k <= i ==> #[trigger] coefficients@[k]@ != 0,
            decreases t - i,
        {
            coefficients.push(FE::new_random());
            i = i + 1;
        }
        coefficients
    }

    /// The sharing of the polynomial `coefficients` among `n` participants:
    /// the commitments to its coefficients and its values at `1..=n`.
    pub fn share_polynomial(n: usize, coefficients: &[FE]) -> (r: (VerifiableSS, Vec<FE>))
        requires
            coefficients.len() >= 1,
        ensures
            r.0.parameters.threshold == coefficients.len() - 1,
            r.0.parameters.share_count == n,
            logs(r.0.commitments@) == scalars(coefficients@),
            honest_sharing(r.0, r.1@),
    {
        let shares = VerifiableSS::evaluate_polynomial(n, coefficients);
        let g = GE::generator();
        let mut commitments: Vec<GE> = Vec::new();
        let mut k: usize = 0;
        while k < coefficients.len()
            invariant
                k <= coefficients.len(),
                g@ == 1,
                commitments.len() == k,
                forall|i: int| 0 <= i < k ==> #[trigger] commitments@[i]@ == coefficients@[i]@,
            decreases coefficients.len() - k,
        {
            let c = g.scalar_mul(&coefficients[k]);
            proof {
                lemma_scalar_range(coefficients@[k as int]);
                lemma_small_mod(coefficients@[k as int]@ as nat, group_order() as nat);
            }
            commitments.push(c);
            k = k + 1;
        }
        let vss = VerifiableSS {
            parameters: ShamirSecretSharing { threshold: coefficients.len() - 1, share_count: n },
            commitments,
        };
        assert(logs(vss.commitments@) =~= scalars(coefficients@));
        (vss, shares)
    }

    /// Shares `secret` among `n` participants so that any `t + 1` of them
    /// can reconstruct it.
    pub fn share(t: usize, n: usize, secret: &FE) -> (r: (VerifiableSS, Vec<FE>))
        ensures
            r.0.parameters.threshold == t,
            r.0.parameters.share_count == n,
            r.0.commitments@[0]@ == secret@,
            honest_sharing(r.0, r.1@),
    {
        let poly = VerifiableSS::sample_polynomial(t, secret);
        let r = VerifiableSS::share_polynomial(n, poly.as_slice());
        assert(logs(r.0.commitments@)[0] == scalars(poly@)[0]);
        r
    }

    /// Checks `secret_share` against the commitments at evaluation point
    /// `index`: `Ok` exactly when `secret_share * G` equals the commitments
    /// combined by Horner's rule in the group.
    pub fn validate_share(&self, secret_share: &FE, index: &usize) -> (r: Result<(), ErrorSS>)
        requires
            self.commitments.len() >= 1,
        ensures
            r is Ok <==> share_is_valid(*self, secret_share@, *index as int),
            r is Err ==> r == Err::<(), ErrorSS>(ErrorSS::VerifyShareError),
    {
        let g = GE::generator();
        let x = FE::from_u64(*index as u64);
        let ss_point = g.scalar_mul(secret_share);
        proof {
            lemma_scalar_range(*secret_share);
            lemma_small_mod(secret_share@ as nat, group_order() as nat);
        }
        let n = self.commitments.len();
        let mut acc = self.commitments[n - 1];
        let mut k: usize = n - 1;
        proof {
            let c = logs(self.commitments@.subrange(k as int, n as int));
            lemma_poly_eval_single(c, x@);
        }
        while k > 0
            invariant
                0 <= k < n,
                n == self.commitments.len(),
                acc@ == poly_eval(logs(self.commitments@.subrange(k as int, n as int)), x@),
            decreases k,
        {
            k = k - 1;
            let prev = acc;
            acc = self.commitments[k].add_point(&prev.scalar_mul(&x));
            proof {
                let c = logs(self.commitments@.subrange(k as int, n as int));
                assert(c.drop_first() =~= logs(self.commitments@.subrange(k + 1, n as int)));
                lemma_horner_step(c[0], prev@, x@);
            }
        }
        assert(self.commitments@.subrange(0, n as int) =~= self.commitments@);
        if ss_point == acc {
            Ok(())
        } else {
            Err(ErrorSS::VerifyShareError)
        }
    }

    /// The value at zero of the polynomial through `(points[i], values[i])`,
    /// by Lagrange interpolation.
    pub fn lagrange_interpolation_at_zero(points: &[FE], values: &[FE]) -> (r: FE)
        requires
            points.len() == values.len(),
            values.len() >= 1,
            scalars(points@).no_duplicates(),
        ensures
            r@ == lagrange_at_zero(scalars(points@), scalars(values@)),
    {
        let len = values.len();
        let ghost ps = scalars(points@);
        let ghost ys = scalars(values@);
        let mut result = FE::zero();
        let mut i: usize = 0;
        while i < len
            invariant
                i <= len,
                len == values.len(),
                len == points.len(),
                ps == scalars(points@),
                ys == scalars(values@),
                result@ == lagrange_sum(ps, ys, i as int),
            decreases len - i,
        {
            let xi = &points[i];
            let mut num = FE::one();
            let mut denum = FE::one();
            let mut j: usize = 0;
            while j < len
                invariant
                    i < len,
                    j <= len,
                    len == points.len(),
                    ps == scalars(points@),
                    xi@ == ps[i as int],
                    num@ == lagrange_num(ps, i as int, j as int),
                    denum@ == lagrange_den(ps, i as int, j as int),
                decreases len - j,
            {
                if i != j {
                    num = num.mul(&points[j]);
                    denum = denum.mul(&points[j].sub(xi));
                }
                j = j + 1;
            }
            let term = num.mul(&denum.invert()).mul(&values[i]);
            result = result.add(&term);
            i = i + 1;
        }
        result
    }

    /// Reconstructs the secret from the shares of the participants at
    /// `indices` (counted from zero), at least `t + 1` of them.
    pub fn reconstruct(&self, indices: &[usize], shares: &[FE]) -> (r: FE)
        requires
            shares.len() == indices.len(),
            shares.len() >= self.parameters.threshold + 1,
            indices@.no_duplicates(),
        ensures
            r@ == lagrange_at_zero(index_points(indices@), scalars(shares@)),
    {
        let one = FE::one();
        let mut points: Vec<FE> = Vec::new();
        let mut k: usize = 0;
        while k < indices.len()
            invariant
                k <= indices.len(),
                one@ == 1,
                points.len() == k,
                forall|m: int| 0 <= m < k ==> #[trigger] points@[m]@ == indices@[m] as int + 1,
            decreases indices.len() - k,
        {
            let p = FE::from_u64(indices[k] as u64).add(&one);
            proof {
                lemma_small_mod((indices@[k as int] as int + 1) as nat, group_order() as nat);
            }
            points.push(p);
            k = k + 1;
        }
        assert(scalars(points@) =~= index_points(indices@));
        assert(scalars(points@).no_duplicates()) by {
            assert forall|a: int, b: int|
                0 <= a < b < points@.len() implies scalars(points@)[a] != scalars(
                    points@,
                )[b] by {
                assert(indices@[a] != indices@[b]);
            }
        }
        VerifiableSS::lagrange_interpolation_at_zero(points.as_slice(), shares)
    }

    /// The Lagrange coefficient that turns the share of participant `index`
    /// into its share of a `(|s|, |s|)` sharing among the live subset `s`.
    pub fn map_share_to_new_params(&self, index: &usize, s: &[usize]) -> (r: FE)
        requires
            s.len() > self.parameters.threshold + 1,
            s@.no_duplicates(),
            s@.contains(*index),
            *index < self.parameters.share_count,
            forall|k: int| 0 <= k < s.len() ==> #[trigger] s@[k] < self.parameters.share_count,
        ensures
            r@ == subset_coefficient(s@, *index as int),
    {
        let s_len = s.len();
        let xi = FE::from_u64((*index + 1) as u64);
        let mut num = FE::one();
        let mut denum = FE::one();
        let mut k: usize = 0;
        while k < s_len
            invariant
                k <= s_len,
                s_len == s.len(),
                *index < self.parameters.share_count,
                forall|m: int| 0 <= m < s.len() ==> #[trigger] s@[m] < self.parameters.share_count,
                xi@ == *index as int + 1,
                num@ == subset_num(s@, *index as int, k as int),
                denum@ == subset_den(s@, *index as int, k as int),
            decreases s_len - k,
        {
            if s[k] != *index {
                let xj = FE::from_u64((s[k] + 1) as u64);
                num = num.mul(&xj);
                denum = denum.mul(&xj.sub(&xi));
            }
            k = k + 1;
        }
        num.mul(&denum.invert())
    }
}


/// The sum, over the live subset `s`, of each participant's Lagrange
/// coefficient times its share `ys[k]`, for the first `m` members.
pub open spec fn subset_weighted_sum(s: Seq<usize>, ys: Seq<int>, m: int) -> int
    decreases m,
{
    if m <= 0 {
        0
    } else {
        (subset_weighted_sum(s, ys, m - 1) + (subset_coefficient(s, s[m - 1] as int) * ys[m - 1])
            % group_order()) % group_order()
    }
}

/// Every share that the dealer hands out passes `validate_share` at its
/// participant's evaluation point.
pub proof fn lemma_honest_share_validates(vss: VerifiableSS, shares: Seq<FE>, j: int)
    requires
        honest_sharing(vss, shares),
        0 <= j < shares.len(),
    ensures
        share_is_valid(vss, shares[j]@, j + 1),
{
    assert(shares[j]@ == poly_eval(logs(vss.commitments@), j + 1));
}

/// A share that differs from the one handed out fails validation.
pub proof fn lemma_altered_share_rejected(vss: VerifiableSS, shares: Seq<FE>, j: int, other: FE)
    requires
        honest_sharing(vss, shares),
        0 <= j < shares.len(),
        other@ != shares[j]@,
    ensures
        !share_is_valid(vss, other@, j + 1),
{
    assert(shares[j]@ == poly_eval(logs(vss.commitments@), j + 1));
}

/// Two residues in `[0, l)` that agree modulo `l` after the same shift are
/// equal.
proof fn lemma_shift_cancel(a: int, b: int, k: int)
    requires
        0 <= a < group_order(),
        0 <= b < group_order(),
        (a + k) % group_order() == (b + k) % group_order(),
    ensures
        a == b,
{
    let q = group_order();
    let r = (a + k) % q;
    let d1 = (a + k) / q;
    let d2 = (b + k) / q;
    lemma_fundamental_div_mod(a + k, q);
    lemma_fundamental_div_mod(b + k, q);
    assert(a - b == q * (d1 - d2)) by (nonlinear_arith)
        requires
            a + k == q * d1 + r,
            b + k == q * d2 + r,
    ;
    assert(d1 - d2 == 0) by (nonlinear_arith)
        requires
            a - b == q * (d1 - d2),
            -q < a - b < q,
            q > 0,
    ;
}

/// Altering the commitment to the secret, and no other, makes every honest
/// share fail validation.
pub proof fn lemma_altered_commitment_rejected(
    vss: VerifiableSS,
    altered: VerifiableSS,
    shares: Seq<FE>,
    j: int,
)
    requires
        honest_sharing(vss, shares),
        0 <= j < shares.len(),
        altered.commitments@.len() == vss.commitments@.len(),
        altered.commitments@[0]@ != vss.commitments@[0]@,
        forall|k: int|
            1 <= k < vss.commitments@.len() ==> #[trigger] altered.commitments@[k]@
                == vss.commitments@[k]@,
    ensures
        !share_is_valid(altered, shares[j]@, j + 1),
{
    let c = logs(vss.commitments@);
    let c2 = logs(altered.commitments@);
    assert(c.drop_first() =~= c2.drop_first());
    let rest = (j + 1) * poly_eval(c.drop_first(), j + 1);
    assert(shares[j]@ == poly_eval(c, j + 1));
    if share_is_valid(altered, shares[j]@, j + 1) {
        assert((c[0] + rest) % group_order() == (c2[0] + rest) % group_order());
        lemma_shift_cancel(c[0], c2[0], rest);
    }
}

/// Matching the two products of the interpolation over `index_points(s)`
/// with those of the subset coefficient of `s[i]`.
proof fn lemma_products_match(s: Seq<usize>, i: int, m: int)
    requires
        s.no_duplicates(),
        0 <= i < s.len(),
        0 <= m <= s.len(),
    ensures
        lagrange_num(index_points(s), i, m) == subset_num(s, s[i] as int, m),
        lagrange_den(index_points(s), i, m) == subset_den(s, s[i] as int, m),
    decreases m,
{
    if m > 0 {
        lemma_products_match(s, i, m - 1);
        assert((m - 1 != i) == (s[m - 1] != s[i]));
    }
}

/// The weighted sum over the first `m` members equals the first `m` terms
/// of the interpolation.
proof fn lemma_weighted_prefix(s: Seq<usize>, ys: Seq<int>, m: int)
    requires
        s.no_duplicates(),
        ys.len() == s.len(),
        0 <= m <= s.len(),
    ensures
        lagrange_sum(index_points(s), ys, m) == subset_weighted_sum(s, ys, m),
    decreases m,
{
    if m > 0 {
        lemma_weighted_prefix(s, ys, m - 1);
        lemma_products_match(s, m - 1, s.len() as int);
    }
}

/// Reparameterization is consistent: over a live subset `s` of distinct
/// participants, the sum of each one's mapped coefficient times its share
/// equals the secret that direct reconstruction from those shares gives.
pub proof fn lemma_reparameterization_consistent(s: Seq<usize>, shares: Seq<FE>)
    requires
        s.no_duplicates(),
        shares.len() == s.len(),
    ensures
        lagrange_at_zero(index_points(s), scalars(shares)) == subset_weighted_sum(
            s,
            scalars(shares),
            s.len() as int,
        ),
{
    lemma_weighted_prefix(s, scalars(shares), s.len() as int);
}

/// With threshold zero every share equals the committed secret.
pub proof fn lemma_degenerate_shares(vss: VerifiableSS, shares: Seq<FE>, j: int)
    requires
        honest_sharing(vss, shares),
        vss.parameters.threshold == 0,
        0 <= j < shares.len(),
    ensures
        shares[j]@ == vss.commitments@[0]@,
{
    let c = logs(vss.commitments@);
    assert(shares[j]@ == poly_eval(c, j + 1));
    lemma_poly_eval_single(c, j + 1);
}

proof fn lemma_pow_of_one(e: nat)
    ensures
        pow(1, e) == 1,
    decreases e,
{
    reveal(pow);
    if e > 0 {
        lemma_pow_of_one((e - 1) as nat);
    }
}

/// A single share, at any evaluation point, interpolates to itself.
pub proof fn lemma_single_share_reconstructs(point: int, share: FE)
    ensures
        lagrange_at_zero(seq![point], seq![share@]) == share@,
{
    let ps = seq![point];
    let ys = seq![share@];
    lemma_pow_of_one((group_order() - 2) as nat);
    lemma_small_mod(1, group_order() as nat);
    assert(field_inv(1) == 1);
    assert(lagrange_num(ps, 0, 0) == 1);
    assert(lagrange_num(ps, 0, 1) == 1);
    assert(lagrange_den(ps, 0, 0) == 1);
    assert(lagrange_den(ps, 0, 1) == 1);
    lemma_scalar_range(share);
    lemma_small_mod(share@ as nat, group_order() as nat);
    assert(ps.len() == 1 && ys[0] == share@);
    assert((1int * 1int) % group_order() == 1);
    assert(1int * share@ == share@);
    assert(lagrange_term(ps, ys, 0) == share@);
    assert(lagrange_sum(ps, ys, 0) == 0);
    assert(lagrange_sum(ps, ys, 1) == share@);
}

} // verus!
