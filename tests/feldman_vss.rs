use curv::feldman_vss::VerifiableSS;
use curv::{ErrorSS, FE, GE};

fn weighted(coefficients: &[FE], shares: &[FE]) -> FE {
    let mut acc = FE::zero();
    for k in 0..coefficients.len() {
        acc = acc.add(&coefficients[k].mul(&shares[k]));
    }
    acc
}

#[test]
fn test_secret_sharing_3_out_of_5() {
    let secret = FE::new_random();
    let (vss_scheme, secret_shares) = VerifiableSS::share(3, 5, &secret);
    let shares_vec = vec![secret_shares[0], secret_shares[1], secret_shares[2], secret_shares[4]];
    let secret_reconstructed = vss_scheme.reconstruct(&[0, 1, 2, 4], &shares_vec);
    assert_eq!(secret, secret_reconstructed);

    let valid3 = vss_scheme.validate_share(&secret_shares[2], &3);
    let valid1 = vss_scheme.validate_share(&secret_shares[0], &1);
    assert!(valid3.is_ok());
    assert!(valid1.is_ok());

    let s = vec![0, 1, 2, 3, 4];
    let l0 = vss_scheme.map_share_to_new_params(&0, &s);
    let l1 = vss_scheme.map_share_to_new_params(&1, &s);
    let l2 = vss_scheme.map_share_to_new_params(&2, &s);
    let l3 = vss_scheme.map_share_to_new_params(&3, &s);
    let l4 = vss_scheme.map_share_to_new_params(&4, &s);
    let w = weighted(&[l0, l1, l2, l3, l4], &secret_shares);
    assert_eq!(w, secret_reconstructed);
}

#[test]
fn test_secret_sharing_3_out_of_7() {
    let secret = FE::new_random();
    let (vss_scheme, secret_shares) = VerifiableSS::share(3, 7, &secret);
    let shares_vec = vec![secret_shares[0], secret_shares[6], secret_shares[2], secret_shares[4]];
    let secret_reconstructed = vss_scheme.reconstruct(&[0, 6, 2, 4], &shares_vec);
    assert_eq!(secret, secret_reconstructed);

    let valid3 = vss_scheme.validate_share(&secret_shares[2], &3);
    let valid1 = vss_scheme.validate_share(&secret_shares[0], &1);
    assert!(valid3.is_ok());
    assert!(valid1.is_ok());

    let s = vec![0, 1, 3, 4, 6];
    let l0 = vss_scheme.map_share_to_new_params(&0, &s);
    let l1 = vss_scheme.map_share_to_new_params(&1, &s);
    let l3 = vss_scheme.map_share_to_new_params(&3, &s);
    let l4 = vss_scheme.map_share_to_new_params(&4, &s);
    let l6 = vss_scheme.map_share_to_new_params(&6, &s);
    let picked = [secret_shares[0], secret_shares[1], secret_shares[3], secret_shares[4], secret_shares[6]];
    let w = weighted(&[l0, l1, l3, l4, l6], &picked);
    assert_eq!(w, secret_reconstructed);
}

#[test]
fn every_share_validates_at_its_point() {
    let secret = FE::from_u64(123456789);
    let (vss, shares) = VerifiableSS::share(4, 9, &secret);
    assert_eq!(shares.len(), 9);
    assert_eq!(vss.commitments.len(), 5);
    for j in 0..9 {
        assert!(vss.validate_share(&shares[j], &(j + 1)).is_ok());
    }
}

#[test]
fn every_quorum_reconstructs_the_secret() {
    let secret = FE::new_random();
    let (vss, shares) = VerifiableSS::share(2, 5, &secret);
    let quorums: [[usize; 3]; 4] = [[0, 1, 2], [0, 1, 3], [2, 3, 4], [4, 0, 2]];
    for q in quorums.iter() {
        let picked: Vec<FE> = q.iter().map(|&i| shares[i]).collect();
        assert_eq!(vss.reconstruct(q, &picked), secret);
    }
}

#[test]
fn two_quorums_agree() {
    let secret = FE::new_random();
    let (vss, shares) = VerifiableSS::share(3, 5, &secret);
    let a = vss.reconstruct(&[0, 1, 2, 4], &[shares[0], shares[1], shares[2], shares[4]]);
    let b = vss.reconstruct(&[0, 1, 3, 4], &[shares[0], shares[1], shares[3], shares[4]]);
    assert_eq!(a, b);
    assert_eq!(a, secret);
}

#[test]
fn altered_share_is_rejected() {
    let secret = FE::new_random();
    let (vss, shares) = VerifiableSS::share(3, 5, &secret);
    let altered = shares[1].add(&FE::one());
    assert!(matches!(vss.validate_share(&altered, &2), Err(ErrorSS::VerifyShareError)));
    assert!(vss.validate_share(&shares[1], &3).is_err());
}

#[test]
fn altered_commitment_is_rejected() {
    let secret = FE::new_random();
    let (vss, shares) = VerifiableSS::share(3, 5, &secret);
    for k in 0..vss.commitments.len() {
        let mut altered = vss.clone();
        altered.commitments[k] = altered.commitments[k].add_point(&GE::generator());
        assert!(altered.validate_share(&shares[0], &1).is_err());
    }
}

#[test]
fn threshold_zero_hands_out_the_secret() {
    let secret = FE::from_u64(42);
    let (vss, shares) = VerifiableSS::share(0, 4, &secret);
    for j in 0..4 {
        assert_eq!(shares[j], secret);
        assert_eq!(vss.reconstruct(&[j], &[shares[j]]), secret);
    }
}

#[test]
fn reparameterized_subset_matches_reconstruction() {
    let secret = FE::new_random();
    let (vss, shares) = VerifiableSS::share(1, 6, &secret);
    let s = [5usize, 1, 3];
    let coefficients: Vec<FE> = s.iter().map(|i| vss.map_share_to_new_params(i, &s)).collect();
    let picked: Vec<FE> = s.iter().map(|&i| shares[i]).collect();
    assert_eq!(weighted(&coefficients, &picked), vss.reconstruct(&s, &picked));
    assert_eq!(weighted(&coefficients, &picked), secret);
}

#[test]
fn horner_evaluation_exact_value() {
    // 3 + 2x + x^2 at x = 5 is 38
    let c = [FE::from_u64(3), FE::from_u64(2), FE::from_u64(1)];
    assert_eq!(VerifiableSS::mod_evaluate_polynomial(&c, FE::from_u64(5)), FE::from_u64(38));
    let values = VerifiableSS::evaluate_polynomial(3, &c);
    assert_eq!(values, vec![FE::from_u64(6), FE::from_u64(11), FE::from_u64(18)]);
}

#[test]
fn interpolation_exact_value() {
    // the line through (1, 5) and (2, 7) meets zero at 3
    let points = [FE::from_u64(1), FE::from_u64(2)];
    let values = [FE::from_u64(5), FE::from_u64(7)];
    assert_eq!(VerifiableSS::lagrange_interpolation_at_zero(&points, &values), FE::from_u64(3));
}

#[test]
fn map_coefficients_exact_values() {
    let (vss, _) = VerifiableSS::share(1, 3, &FE::from_u64(9));
    let s = [0usize, 1, 2];
    // points 1, 2, 3: coefficients 3, -3, 1
    assert_eq!(vss.map_share_to_new_params(&0, &s), FE::from_u64(3));
    assert_eq!(vss.map_share_to_new_params(&1, &s), FE::zero().sub(&FE::from_u64(3)));
    assert_eq!(vss.map_share_to_new_params(&2, &s), FE::one());
}

#[test]
fn sample_polynomial_keeps_constant_term() {
    let secret = FE::from_u64(77);
    let poly = VerifiableSS::sample_polynomial(5, &secret);
    assert_eq!(poly.len(), 6);
    assert_eq!(poly[0], secret);
}

#[test]
fn share_polynomial_commits_to_coefficients() {
    let c = [FE::from_u64(10), FE::from_u64(20)];
    let (vss, shares) = VerifiableSS::share_polynomial(3, &c);
    assert_eq!(vss.parameters.threshold, 1);
    assert_eq!(vss.parameters.share_count, 3);
    assert_eq!(vss.reconstruct_limit(), 2);
    assert!(vss.commitments[0] == GE::generator().scalar_mul(&c[0]));
    assert!(vss.commitments[1] == GE::generator().scalar_mul(&c[1]));
    assert_eq!(shares, vec![FE::from_u64(30), FE::from_u64(50), FE::from_u64(70)]);
}

#[test]
fn field_operations_exact_values() {
    let two = FE::from_u64(2);
    let three = FE::from_u64(3);
    assert_eq!(two.add(&three), FE::from_u64(5));
    assert_eq!(three.sub(&two), FE::one());
    assert_eq!(two.mul(&three), FE::from_u64(6));
    assert_eq!(two.invert().mul(&two), FE::one());
    assert_ne!(two.invert(), two);
    assert_eq!(FE::zero().invert(), FE::zero());
    assert_eq!(FE::zero().sub(&FE::one()).add(&FE::one()), FE::zero());
}

#[test]
fn group_operations_exact_values() {
    let g = GE::generator();
    let two_g = g.add_point(&g);
    assert!(two_g == g.scalar_mul(&FE::from_u64(2)));
    assert!(!(two_g == g));
    assert!(g.scalar_mul(&FE::one()) == g);
}

#[test]
fn random_scalars_are_nonzero_and_differ() {
    let a = FE::new_random();
    let b = FE::new_random();
    assert_ne!(a, FE::zero());
    assert_ne!(a, b);
    let poly = VerifiableSS::sample_polynomial(4, &FE::zero());
    assert_eq!(poly[0], FE::zero());
    for k in 1..5 {
        assert_ne!(poly[k], FE::zero());
    }
}
