use curv::secp256_k1::{
    bytes_compressed_to_big_int, from_big_int, from_key_slice, get_base_point, get_q, new_random,
    to_big_int, to_key, to_key_slice, to_point, Point,
};
use curv::ErrorKey;
use secp256k1::constants::{CURVE_ORDER, GENERATOR_X, GENERATOR_Y};
use secp256k1::{PublicKey, SecretKey};


const VALID_KEY: [u8; 65] = [
    4, 54, 57, 149, 239, 162, 148, 175, 246, 254, 239, 75, 154, 152, 10, 82, 234, 224, 85, 220,
    40, 100, 57, 121, 30, 162, 94, 156, 135, 67, 74, 49, 179, 57, 236, 53, 162, 124, 149, 144,
    168, 77, 74, 30, 72, 211, 229, 110, 111, 55, 96, 193, 86, 227, 183, 152, 195, 155, 51, 247,
    123, 113, 60, 228, 188,
];

#[test]
fn get_base_point_test() {
    let p = get_base_point();
    assert_eq!(p.x, GENERATOR_X.to_vec());
    assert_eq!(p.y, GENERATOR_Y.to_vec());
}

#[test]
fn get_q_test() {
    let q = get_q();
    assert_eq!(q, CURVE_ORDER.to_vec());
}

#[test]
fn from_secret_key_to_big_int() {
    let sk = new_random();
    let sk_n = to_big_int(&sk);
    let sk_back = from_big_int(&sk_n);
    assert_eq!(sk, sk_back);
}

#[test]
fn short_big_int_is_widened() {
    let sk = from_big_int(&[1, 2]);
    let mut expected = [0u8; 32];
    expected[30] = 1;
    expected[31] = 2;
    assert_eq!(to_big_int(&sk), expected.to_vec());
}

#[test]
#[should_panic]
fn from_invalid_header_key_slice_test() {
    let invalid_key: [u8; 65] = [
        1, 231, 191, 194, 227, 183, 188, 238, 170, 206, 138, 20, 92, 140, 107, 83, 73, 111, 170,
        217, 69, 17, 64, 121, 65, 219, 97, 147, 181, 197, 239, 158, 56, 62, 15, 115, 56, 226, 122,
        3, 180, 192, 166, 171, 137, 121, 23, 29, 225, 234, 220, 154, 2, 157, 44, 73, 220, 31, 15,
        55, 4, 244, 189, 7, 210,
    ];
    from_key_slice(&invalid_key).unwrap();
}

#[test]
fn from_valid_uncompressed_key_slice_to_key_test() {
    let p = from_key_slice(&VALID_KEY).unwrap();
    let k = to_key_slice(&p);
    assert_eq!(VALID_KEY.len(), k.len());
    for (i, _elem) in k.iter().enumerate() {
        assert_eq!(VALID_KEY[i], k[i]);
    }
}

#[test]
fn from_public_key_to_point_to_slice_to_key() {
    let uncompressed_key = PublicKey::from_slice(&VALID_KEY).unwrap();
    let p = to_point(&uncompressed_key);
    let key_slice = to_key_slice(&p);
    assert_eq!(VALID_KEY.len(), key_slice.len());
    for (i, _elem) in key_slice.iter().enumerate() {
        assert_eq!(VALID_KEY[i], key_slice[i]);
    }
    let expected_key = to_key(&p).unwrap();
    assert_eq!(expected_key, uncompressed_key);
}

#[test]
fn malformed_encodings_are_rejected() {
    let mut wrong_marker = VALID_KEY;
    wrong_marker[0] = 2;
    assert_eq!(from_key_slice(&wrong_marker), Err(ErrorKey::InvalidPublicKey));
    assert_eq!(from_key_slice(&VALID_KEY[..64]), Err(ErrorKey::InvalidPublicKey));
    let mut longer = VALID_KEY.to_vec();
    longer.push(0);
    assert_eq!(from_key_slice(&longer), Err(ErrorKey::InvalidPublicKey));
    assert_eq!(from_key_slice(&[]), Err(ErrorKey::InvalidPublicKey));
}

#[test]
fn coordinates_round_trip() {
    let p = Point { x: VALID_KEY[1..33].to_vec(), y: VALID_KEY[33..65].to_vec() };
    let bytes = to_key_slice(&p);
    assert_eq!(bytes[0], 4);
    assert_eq!(from_key_slice(&bytes), Ok(p));
}

#[test]
fn point_off_the_curve_has_no_key() {
    let mut p = from_key_slice(&VALID_KEY).unwrap();
    p.y[31] ^= 1;
    assert!(to_key(&p).is_none());
}

#[test]
fn compressed_form_has_parity_marker() {
    let key = PublicKey::from_slice(&VALID_KEY).unwrap();
    let c = bytes_compressed_to_big_int(&key);
    assert_eq!(c.len(), 33);
    assert_eq!(c[0], if VALID_KEY[64] % 2 == 0 { 2 } else { 3 });
    assert_eq!(&c[1..], &VALID_KEY[1..33]);
}

#[test]
fn big_int_at_or_above_order_is_reduced() {
    // q + 5, big-endian: the order's last byte 0x41 becomes 0x46
    let mut n = CURVE_ORDER;
    n[31] += 5;
    let sk = from_big_int(&n);
    let mut expected = [0u8; 32];
    expected[31] = 5;
    assert_eq!(to_big_int(&sk), expected.to_vec());
}

#[test]
fn big_int_below_order_is_kept() {
    let mut n = CURVE_ORDER;
    n[31] -= 1;
    assert_eq!(to_big_int(&from_big_int(&n)), n.to_vec());
}

#[test]
fn encoding_off_the_curve_is_rejected() {
    let mut off_curve = VALID_KEY;
    off_curve[64] ^= 1;
    assert_eq!(from_key_slice(&off_curve), Err(ErrorKey::InvalidPublicKey));
    let mut above_prime = VALID_KEY;
    for b in above_prime[1..33].iter_mut() {
        *b = 0xff;
    }
    assert_eq!(from_key_slice(&above_prime), Err(ErrorKey::InvalidPublicKey));
}

#[test]
fn key_survives_point_round_trip() {
    let key = PublicKey::from_slice(&VALID_KEY).unwrap();
    let back = to_key(&to_point(&key)).unwrap();
    assert_eq!(back.serialize_uncompressed(), key.serialize_uncompressed());
    assert_eq!(back, key);
}

#[test]
fn random_keys_differ_and_are_valid() {
    let a = new_random();
    let b = new_random();
    assert_ne!(a, b);
    assert!(SecretKey::from_slice(&to_big_int(&a)).is_ok());
}

#[test]
fn wide_big_int_is_reduced() {
    // 2^256 mod q = 2^256 - q
    let mut n = vec![1u8];
    n.extend_from_slice(&[0u8; 32]);
    let expected: Vec<u8> = vec![
        0, 0, 0, 0, 0, 0, 0, 0, 0, 0, 0, 0, 0, 0, 0, 1, 69, 81, 35, 25, 80, 183, 95, 196, 64, 45,
        161, 115, 47, 201, 190, 191,
    ];
    assert_eq!(to_big_int(&from_big_int(&n)), expected);
}

#[test]
fn leading_zero_bytes_are_ignored() {
    let mut n = vec![0u8; 8];
    n.extend_from_slice(&CURVE_ORDER);
    n[39] += 5;
    let mut expected = [0u8; 32];
    expected[31] = 5;
    assert_eq!(to_big_int(&from_big_int(&n)), expected.to_vec());
}
