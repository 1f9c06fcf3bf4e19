//! Codecs between secp256k1 keys and plain values: a secret key and its
//! big-endian integer, a public key and its coordinate pair, and the
//! uncompressed encoding `0x04 || x || y` with 32-byte coordinates.
use crate::ErrorKey;
use secp256k1::constants::{CURVE_ORDER, GENERATOR_X, GENERATOR_Y};
use secp256k1::{PublicKey, SecretKey};
use vstd::arithmetic::div_mod::{
    lemma_add_mod_noop, lemma_mod_sub_multiples_vanish, lemma_mul_mod_noop_left, lemma_small_mod,
};
use vstd::prelude::*;

verus! {

#[verifier::external_type_specification]
#[verifier::external_body]
pub struct ExPublicKey(PublicKey);

#[verifier::external_type_specification]
#[verifier::external_body]
pub struct ExSecretKey(SecretKey);

/// The length of an uncompressed public key.
pub const KEY_SIZE: usize = 65;

/// The marker byte of the uncompressed form.
pub const HEADER_MARKER: u8 = 4;

/// The width of a coordinate and of a secret key.
pub const COORDINATE_SIZE: usize = 32;

/// The order `n` of the secp256k1 group.
pub open spec fn curve_order() -> int {
    (0xFFFF_FFFF_FFFF_FFFF_FFFF_FFFF_FFFF_FFFE * 0x1_0000_0000_0000_0000_0000_0000_0000_0000
        + 0xBAAE_DCE6_AF48_A03B_BFD2_5E8C_D036_4141) as int
}

/// The x coordinate of the secp256k1 generator.
pub open spec fn generator_x_value() -> int {
    (0x79BE_667E_F9DC_BBAC_55A0_6295_CE87_0B07 * 0x1_0000_0000_0000_0000_0000_0000_0000_0000
        + 0x029B_FCDB_2DCE_28D9_59F2_815B_16F8_1798) as int
}

/// The y coordinate of the secp256k1 generator.
pub open spec fn generator_y_value() -> int {
    (0x483A_DA77_26A3_C465_5DA4_FBFC_0E11_08A8 * 0x1_0000_0000_0000_0000_0000_0000_0000_0000
        + 0xFD17_B448_A685_5419_9C47_D08F_FB10_D4B8) as int
}

/// The prime `p = 2^256 - 2^32 - 977` of the field the curve is defined over.
pub open spec fn field_prime() -> int {
    (0xFFFF_FFFF_FFFF_FFFF_FFFF_FFFF_FFFF_FFFF * 0x1_0000_0000_0000_0000_0000_0000_0000_0000
        + 0xFFFF_FFFF_FFFF_FFFF_FFFF_FFFE_FFFF_FC2F) as int
}

/// `(x, y)` is an affine point of `y^2 = x^3 + 7` over the field of `p`.
pub open spec fn on_curve(x: int, y: int) -> bool {
    &&& 0 <= x < field_prime()
    &&& 0 <= y < field_prime()
    &&& (y * y - x * x * x - 7) % field_prime() == 0
}

/// The coordinates of an uncompressed encoding lie on the curve.
pub open spec fn encodes_curve_point(key: Seq<u8>) -> bool {
    on_curve(be_value(key.subrange(1, 33)), be_value(key.subrange(33, 65)))
}

/// The integer that a big-endian byte string stands for.
pub open spec fn be_value(b: Seq<u8>) -> int
    decreases b.len(),
{
    if b.len() == 0 {
        0
    } else {
        be_value(b.drop_last()) * 256 + b.last() as int
    }
}

/// The 32 bytes of a secret key.
pub uninterp spec fn secret_key_bytes(k: SecretKey) -> Seq<u8>;

/// The uncompressed serialization of a public key.
pub uninterp spec fn uncompressed_form(k: PublicKey) -> Seq<u8>;

/// Whether libsecp256k1 parses `b` as a point of the curve.
pub uninterp spec fn parses_as_public_key(b: Seq<u8>) -> bool;

/// A point as its two coordinates, big-endian.
#[derive(Clone, PartialEq, Eq, Debug)]
pub struct Point {
    pub x: Vec<u8>,
    pub y: Vec<u8>,
}

impl Point {
    /// Both coordinates are 32 bytes wide.
    pub open spec fn wf(&self) -> bool {
        self.x@.len() == 32 && self.y@.len() == 32
    }
}

/// The uncompressed encoding of the coordinates `x` and `y`.
pub open spec fn encoding_of(x: Seq<u8>, y: Seq<u8>) -> Seq<u8> {
    seq![HEADER_MARKER] + x + y
}

/// `key` has the length and the marker of the uncompressed form.
pub open spec fn is_uncompressed_encoding(key: Seq<u8>) -> bool {
    key.len() == KEY_SIZE && key[0] == HEADER_MARKER
}

/// Relies on secp256k1's `SecretKey::from_slice`: accepts exactly the 32-byte
/// strings whose value lies in `[1, n)`, and keeps their bytes.
#[verifier::external_body]
fn secret_key_from_slice(b: &[u8]) -> (r: Option<SecretKey>)
    ensures
        r is Some <==> (b@.len() == 32 && 0 < be_value(b@) < curve_order()),
        r is Some ==> secret_key_bytes(r->Some_0) == b@,
{
    SecretKey::from_slice(b).ok()
}

/// Relies on secp256k1's `SecretKey::new`: a key drawn from the thread-local
/// CSPRNG of `rand`; every key has 32 bytes with a value in `[1, n)`.
#[verifier::external_body]
fn random_secret_key() -> (r: SecretKey)
    ensures
        secret_key_bytes(r).len() == 32,
        0 < be_value(secret_key_bytes(r)) < curve_order(),
{
    SecretKey::new(&mut rand::thread_rng())
}

/// Relies on secp256k1's `SecretKey::secret_bytes`: the key's 32 bytes, which
/// `from_slice` admitted only with a value in `[1, n)`.
#[verifier::external_body]
fn secret_key_to_bytes(k: &SecretKey) -> (r: Vec<u8>)
    ensures
        r@ == secret_key_bytes(*k),
        r@.len() == 32,
        0 < be_value(r@) < curve_order(),
{
    k.secret_bytes().to_vec()
}

/// Relies on secp256k1's `PublicKey::from_slice`: parses an encoded point. An
/// uncompressed encoding parses exactly when its coordinates are below `p`
/// and satisfy the curve equation, and the key then serializes back to it.
#[verifier::external_body]
fn public_key_from_slice(b: &[u8]) -> (r: Option<PublicKey>)
    ensures
        r is Some <==> parses_as_public_key(b@),
        is_uncompressed_encoding(b@) ==> (r is Some <==> encodes_curve_point(b@)),
        r is Some && is_uncompressed_encoding(b@) ==> uncompressed_form(r->Some_0) == b@,
{
    PublicKey::from_slice(b).ok()
}

/// Relies on secp256k1's `PublicKey::serialize_uncompressed`: 65 bytes that
/// start with the marker `0x04`, then the key's coordinates, which lie on
/// the curve; `PublicKey::from_slice` parses them back.
#[verifier::external_body]
fn serialize_uncompressed(k: &PublicKey) -> (r: Vec<u8>)
    ensures
        r@ == uncompressed_form(*k),
        is_uncompressed_encoding(r@),
        encodes_curve_point(r@),
        parses_as_public_key(r@),
{
    k.serialize_uncompressed().to_vec()
}

/// Relies on secp256k1's `PublicKey::serialize`: the 33-byte compressed form,
/// the marker `0x02` plus the parity of y, then x as in the uncompressed form.
#[verifier::external_body]
fn serialize_compressed(k: &PublicKey) -> (r: Vec<u8>)
    ensures
        r@.len() == 33,
        r@[0] == 2 + uncompressed_form(*k)[64] % 2,
        r@.subrange(1, 33) == uncompressed_form(*k).subrange(1, 33),
{
    k.serialize().to_vec()
}

/// Relies on secp256k1's `constants::GENERATOR_X`, big-endian.
#[verifier::external_body]
fn generator_x() -> (r: Vec<u8>)
    ensures
        r@.len() == 32,
        be_value(r@) == generator_x_value(),
{
    GENERATOR_X.to_vec()
}

/// Relies on secp256k1's `constants::GENERATOR_Y`, big-endian.
#[verifier::external_body]
fn generator_y() -> (r: Vec<u8>)
    ensures
        r@.len() == 32,
        be_value(r@) == generator_y_value(),
{
    GENERATOR_Y.to_vec()
}

/// Relies on secp256k1's `constants::CURVE_ORDER`: the group order, big-endian.
#[verifier::external_body]
fn curve_order_bytes() -> (r: Vec<u8>)
    ensures
        r@.len() == 32,
        be_value(r@) == curve_order(),
{
    CURVE_ORDER.to_vec()
}

proof fn lemma_be_value_zeros(z: Seq<u8>)
    requires
        forall|i: int| 0 <= i < z.len() ==> z[i] == 0,
    ensures
        be_value(z) == 0,
    decreases z.len(),
{
    if z.len() > 0 {
        lemma_be_value_zeros(z.drop_last());
    }
}

/// Leading zeros do not change a big-endian value.
proof fn lemma_be_value_leading_zeros(z: Seq<u8>, b: Seq<u8>)
    requires
        forall|i: int| 0 <= i < z.len() ==> z[i] == 0,
    ensures
        be_value(z + b) == be_value(b),
    decreases b.len(),
{
    if b.len() == 0 {
        assert(z + b =~= z);
        lemma_be_value_zeros(z);
    } else {
        lemma_be_value_leading_zeros(z, b.drop_last());
        assert((z + b).drop_last() =~= z + b.drop_last());
    }
}

/// `256^k`.
pub open spec fn byte_pow(k: nat) -> int
    decreases k,
{
    if k == 0 {
        1
    } else {
        256 * byte_pow((k - 1) as nat)
    }
}

/// A big-endian value is its leading byte at its weight plus the rest.
proof fn lemma_be_value_first(s: Seq<u8>)
    requires
        s.len() >= 1,
    ensures
        be_value(s) == s[0] as int * byte_pow((s.len() - 1) as nat) + be_value(s.drop_first()),
    decreases s.len(),
{
    if s.len() == 1 {
        assert(s.drop_last().len() == 0);
        assert(s.drop_first().len() == 0);
        assert(be_value(s.drop_last()) == 0);
        assert(byte_pow(0) == 1);
        assert(s.last() == s[0]);
    } else {
        let dl = s.drop_last();
        lemma_be_value_first(dl);
        assert(dl.drop_first() =~= s.drop_first().drop_last());
        assert(dl[0] == s[0]);
        assert(s.drop_first().last() == s.last());
        assert(be_value(s.drop_first()) == be_value(s.drop_first().drop_last()) * 256
            + s.last() as int);
        assert(byte_pow((s.len() - 1) as nat) == 256 * byte_pow((s.len() - 2) as nat));
        let w = byte_pow((s.len() - 2) as nat);
        let a = s[0] as int;
        let b = be_value(dl.drop_first());
        let c = s.last() as int;
        assert(be_value(s) == (a * w + b) * 256 + c);
        assert((a * w + b) * 256 + c == a * (256 * w) + (b * 256 + c)) by (nonlinear_arith);
    }
}

/// A big-endian value of `k` bytes is below `256^k`.
proof fn lemma_be_value_bound(s: Seq<u8>)
    ensures
        0 <= be_value(s) < byte_pow(s.len()),
    decreases s.len(),
{
    if s.len() > 0 {
        let dl = s.drop_last();
        lemma_be_value_bound(dl);
        let w = byte_pow(dl.len());
        let b = be_value(dl);
        let c = s.last() as int;
        assert(b * 256 + c < 256 * w) by (nonlinear_arith)
            requires
                0 <= b < w,
                0 <= c < 256,
        ;
    }
}

/// `256^32` lies between the group order and twice it.
proof fn lemma_key_space()
    ensures
        curve_order() < byte_pow(32) < 2 * curve_order(),
{
    reveal_with_fuel(byte_pow, 33);
    assert(byte_pow(32) == 0x1_0000_0000_0000_0000_0000_0000_0000_0000
        * 0x1_0000_0000_0000_0000_0000_0000_0000_0000);
}

/// `a - b` on big-endian integers of one width `w`, with the final borrow:
/// `a - b + borrow * 256^w` is the difference.
fn sub_bytes(a: &Vec<u8>, b: &Vec<u8>) -> (r: (Vec<u8>, u8))
    requires
        b@.len() == a@.len(),
    ensures
        r.0@.len() == a@.len(),
        r.1 <= 1,
        be_value(a@) - be_value(b@) + r.1 as int * byte_pow(a@.len()) == be_value(r.0@),
{
    let w = a.len();
    let mut d: Vec<u8> = Vec::new();
    while d.len() < w
        invariant
            d.len() <= w,
        decreases w - d.len(),
    {
        d.push(0);
    }
    let mut borrow: u8 = 0;
    let mut i: usize = w;
    assert(a@.subrange(w as int, w as int).len() == 0 && b@.subrange(w as int, w as int).len() == 0
        && d@.subrange(w as int, w as int).len() == 0);
    while i > 0
        invariant
            i <= w,
            w == a@.len(),
            b@.len() == w,
            d@.len() == w,
            borrow <= 1,
            be_value(a@.subrange(i as int, w as int)) - be_value(b@.subrange(i as int, w as int))
                + borrow as int * byte_pow((w - i) as nat) == be_value(
                d@.subrange(i as int, w as int),
            ),
        decreases i,
    {
        let ghost old_d = d@;
        let ghost old_borrow = borrow as int;
        i = i - 1;
        let x: i32 = a[i] as i32 - b[i] as i32 - borrow as i32;
        if x < 0 {
            d.set(i, (x + 256) as u8);
            borrow = 1;
        } else {
            d.set(i, x as u8);
            borrow = 0;
        }
        proof {
            let k = (w - 1 - i) as nat;
            let sa = a@.subrange(i as int, w as int);
            let sb = b@.subrange(i as int, w as int);
            let sd = d@.subrange(i as int, w as int);
            lemma_be_value_first(sa);
            lemma_be_value_first(sb);
            lemma_be_value_first(sd);
            assert(sa.drop_first() =~= a@.subrange(i + 1, w as int));
            assert(sb.drop_first() =~= b@.subrange(i + 1, w as int));
            assert(sd.drop_first() =~= old_d.subrange(i + 1, w as int));
            let w = byte_pow(k);
            assert(byte_pow(k + 1) == 256 * w);
            let xa = a@[i as int] as int;
            let xb = b@[i as int] as int;
            let xd = d@[i as int] as int;
            let nb = borrow as int;
            assert(xd == xa - xb - old_borrow + 256 * nb);
            assert(xa * w - xb * w + nb * (256 * w) - old_borrow * w == xd * w) by (nonlinear_arith)
                requires
                    xd == xa - xb - old_borrow + 256 * nb,
            ;
        }
    }
    assert(a@.subrange(0, w as int) =~= a@);
    assert(b@.subrange(0, w as int) =~= b@);
    assert(d@.subrange(0, w as int) =~= d@);
    (d, borrow)
}

/// A 33-byte value below `256^32` has a zero leading byte, and dropping
/// it keeps the value.
proof fn lemma_top_byte_zero(s: Seq<u8>)
    requires
        s.len() == 33,
        be_value(s) < byte_pow(32),
    ensures
        s[0] == 0,
        be_value(s.drop_first()) == be_value(s),
{
    lemma_be_value_first(s);
    lemma_be_value_bound(s.drop_first());
    let c = s[0] as int;
    let w = byte_pow(32);
    let rest = be_value(s.drop_first());
    let v = be_value(s);
    lemma_key_space();
    assert(v == c * w + rest);
    assert(c == 0) by (nonlinear_arith)
        requires
            v == c * w + rest,
            rest >= 0,
            c >= 0,
            v < w,
            w > 0,
    ;
}

/// All bytes of `a` but the first.
fn tail_bytes(a: &Vec<u8>) -> (r: Vec<u8>)
    requires
        a@.len() >= 1,
    ensures
        r@ == a@.drop_first(),
{
    let mut r: Vec<u8> = Vec::new();
    let mut j: usize = 1;
    while j < a.len()
        invariant
            1 <= j <= a@.len(),
            r@ == a@.subrange(1, j as int),
        decreases a@.len() - j,
    {
        r.push(a[j]);
        j = j + 1;
        assert(r@ =~= a@.subrange(1, j as int));
    }
    assert(a@.drop_first() =~= a@.subrange(1, a@.len() as int));
    r
}

/// The secret key whose big-endian integer is `n mod q`, for `n` of any
/// length.
pub fn from_big_int(n: &[u8]) -> (r: SecretKey)
    requires
        be_value(n@) % curve_order() != 0,
    ensures
        secret_key_bytes(r).len() == 32,
        be_value(secret_key_bytes(r)) == be_value(n@) % curve_order(),
{
    let q = curve_order_bytes();
    let mut q33: Vec<u8> = Vec::new();
    q33.push(0);
    let mut j: usize = 0;
    while j < q.len()
        invariant
            j <= q@.len(),
            q33@ == seq![0u8] + q@.subrange(0, j as int),
        decreases q@.len() - j,
    {
        q33.push(q[j]);
        j = j + 1;
        assert(q33@ =~= seq![0u8] + q@.subrange(0, j as int));
    }
    let mut acc: Vec<u8> = Vec::new();
    while acc.len() < 33
        invariant
            acc.len() <= 33,
            forall|k: int| 0 <= k < acc@.len() ==> acc@[k] == 0,
        decreases 33 - acc.len(),
    {
        acc.push(0);
    }
    proof {
        assert(q@.subrange(0, 32) =~= q@);
        lemma_be_value_leading_zeros(seq![0u8], q@);
        lemma_be_value_zeros(acc@);
        lemma_key_space();
        assert(n@.subrange(0, 0).len() == 0);
    }
    let ghost qv = curve_order();
    let mut i: usize = 0;
    while i < n.len()
        invariant
            i <= n@.len(),
            acc@.len() == 33,
            q33@.len() == 33,
            be_value(q33@) == qv,
            qv == curve_order(),
            qv < byte_pow(32),
            0 <= be_value(acc@) < qv,
            be_value(acc@) % qv == be_value(n@.subrange(0, i as int)) % qv,
        decreases n@.len() - i,
    {
        let ghost a0 = be_value(acc@);
        let ghost b = n@[i as int] as int;
        proof {
            lemma_top_byte_zero(acc@);
        }
        let mut x = tail_bytes(&acc);
        x.push(n[i]);
        proof {
            assert(x@.drop_last() =~= acc@.drop_first());
            assert(x@.last() == n@[i as int]);
            assert(be_value(x@) == a0 * 256 + b);
            let p = be_value(n@.subrange(0, i as int));
            assert(n@.subrange(0, i + 1).drop_last() =~= n@.subrange(0, i as int));
            assert(be_value(n@.subrange(0, i + 1)) == p * 256 + b);
            lemma_mul_mod_noop_left(a0, 256, qv);
            lemma_mul_mod_noop_left(p, 256, qv);
            lemma_add_mod_noop(a0 * 256, b, qv);
            lemma_add_mod_noop(p * 256, b, qv);
        }
        let ghost target = be_value(n@.subrange(0, i + 1));
        let (mut d, mut borrow) = sub_bytes(&x, &q33);
        proof {
            lemma_be_value_bound(x@);
            lemma_be_value_bound(d@);
        }
        while borrow == 0
            invariant
                x@.len() == 33,
                d@.len() == 33,
                q33@.len() == 33,
                be_value(q33@) == qv,
                qv == curve_order(),
                borrow <= 1,
                0 <= be_value(x@),
                0 <= be_value(d@) < byte_pow(33),
                be_value(x@) - qv + borrow as int * byte_pow(33) == be_value(d@),
                be_value(x@) % qv == target % qv,
            decreases be_value(x@),
        {
            proof {
                lemma_mod_sub_multiples_vanish(be_value(x@), qv);
            }
            x = d;
            let (d2, b2) = sub_bytes(&x, &q33);
            d = d2;
            borrow = b2;
            proof {
                lemma_be_value_bound(d@);
            }
        }
        acc = x;
        i = i + 1;
    }
    proof {
        let a0 = be_value(acc@);
        lemma_top_byte_zero(acc@);
        assert(n@.subrange(0, n@.len() as int) =~= n@);
        lemma_small_mod(a0 as nat, qv as nat);
    }
    let key = tail_bytes(&acc);
    secret_key_from_slice(key.as_slice()).unwrap()
}

/// A secret key drawn at random.
pub fn new_random() -> (r: SecretKey)
    ensures
        secret_key_bytes(r).len() == 32,
        0 < be_value(secret_key_bytes(r)) < curve_order(),
{
    random_secret_key()
}

/// The big-endian integer of a secret key, as its 32 bytes.
pub fn to_big_int(k: &SecretKey) -> (r: Vec<u8>)
    ensures
        r@ == secret_key_bytes(*k),
        r@.len() == 32,
        0 < be_value(r@) < curve_order(),
{
    secret_key_to_bytes(k)
}

/// The order of the group, big-endian.
pub fn get_q() -> (r: Vec<u8>)
    ensures
        be_value(r@) == curve_order(),
{
    curve_order_bytes()
}

/// The coordinates of the group's generator.
pub fn get_base_point() -> (r: Point)
    ensures
        r.wf(),
        be_value(r.x@) == generator_x_value(),
        be_value(r.y@) == generator_y_value(),
{
    Point { x: generator_x(), y: generator_y() }
}

/// The compressed encoding of a public key, as a big-endian integer.
pub fn bytes_compressed_to_big_int(k: &PublicKey) -> (r: Vec<u8>)
    ensures
        r@.len() == 33,
        r@[0] == 2 + uncompressed_form(*k)[64] % 2,
        r@.subrange(1, 33) == uncompressed_form(*k).subrange(1, 33),
{
    serialize_compressed(k)
}

/// Splits an uncompressed encoding into its coordinates. Any other length
/// or marker is rejected, and so are coordinates off the curve.
pub fn from_key_slice(key: &[u8]) -> (r: Result<Point, ErrorKey>)
    ensures
        r is Ok <==> (is_uncompressed_encoding(key@) && encodes_curve_point(key@)),
        r is Ok ==> parses_as_public_key(key@),
        r is Ok ==> r->Ok_0.x@ == key@.subrange(1, 33) && r->Ok_0.y@ == key@.subrange(33, 65),
        r is Err ==> r == Err::<Point, ErrorKey>(ErrorKey::InvalidPublicKey),
{
    if key.len() != KEY_SIZE || key[0] != HEADER_MARKER {
        return Err(ErrorKey::InvalidPublicKey);
    }
    if public_key_from_slice(key).is_none() {
        return Err(ErrorKey::InvalidPublicKey);
    }
    let mut x: Vec<u8> = Vec::new();
    let mut y: Vec<u8> = Vec::new();
    let mut i: usize = 0;
    while i < COORDINATE_SIZE
        invariant
            i <= 32,
            key@.len() == 65,
            x@ == key@.subrange(1, 1 + i),
            y@ == key@.subrange(33, 33 + i),
        decreases 32 - i,
    {
        x.push(key[1 + i]);
        y.push(key[1 + COORDINATE_SIZE + i]);
        i = i + 1;
        assert(x@ =~= key@.subrange(1, 1 + i));
        assert(y@ =~= key@.subrange(33, 33 + i));
    }
    Ok(Point { x, y })
}

/// The uncompressed encoding of a point: the marker, then both coordinates.
pub fn to_key_slice(p: &Point) -> (r: Vec<u8>)
    requires
        p.wf(),
    ensures
        r@ == encoding_of(p.x@, p.y@),
{
    let mut v: Vec<u8> = Vec::new();
    v.push(HEADER_MARKER);
    let mut i: usize = 0;
    while i < p.x.len()
        invariant
            i <= p.x@.len(),
            v@ == seq![HEADER_MARKER] + p.x@.subrange(0, i as int),
        decreases p.x@.len() - i,
    {
        v.push(p.x[i]);
        i = i + 1;
        assert(v@ =~= seq![HEADER_MARKER] + p.x@.subrange(0, i as int));
    }
    assert(p.x@.subrange(0, p.x@.len() as int) =~= p.x@);
    let mut j: usize = 0;
    while j < p.y.len()
        invariant
            j <= p.y@.len(),
            v@ == seq![HEADER_MARKER] + p.x@ + p.y@.subrange(0, j as int),
        decreases p.y@.len() - j,
    {
        v.push(p.y[j]);
        j = j + 1;
        assert(v@ =~= seq![HEADER_MARKER] + p.x@ + p.y@.subrange(0, j as int));
    }
    assert(p.y@.subrange(0, p.y@.len() as int) =~= p.y@);
    v
}

/// The coordinates of a public key, read from its uncompressed form.
pub fn to_point(k: &PublicKey) -> (r: Point)
    ensures
        r.wf(),
        on_curve(be_value(r.x@), be_value(r.y@)),
        encoding_of(r.x@, r.y@) == uncompressed_form(*k),
{
    let bytes = serialize_uncompressed(k);
    match from_key_slice(bytes.as_slice()) {
        Ok(p) => {
            proof {
                lemma_decoding_round_trip(bytes@);
            }
            p
        },
        Err(_) => {
            proof {
                assert(false);
            }
            get_base_point()
        },
    }
}

/// The public key at the coordinates of `p`, if they are a point of the
/// curve; its uncompressed form is the encoding of `p`.
pub fn to_key(p: &Point) -> (r: Option<PublicKey>)
    requires
        p.wf(),
    ensures
        r is Some <==> on_curve(be_value(p.x@), be_value(p.y@)),
        r is Some ==> uncompressed_form(r->Some_0) == encoding_of(p.x@, p.y@),
{
    let bytes = to_key_slice(p);
    proof {
        lemma_encoding_round_trip(p.x@, p.y@);
    }
    public_key_from_slice(bytes.as_slice())
}

/// Encoding then decoding gives the coordinates back.
pub proof fn lemma_encoding_round_trip(x: Seq<u8>, y: Seq<u8>)
    requires
        x.len() == 32,
        y.len() == 32,
    ensures
        is_uncompressed_encoding(encoding_of(x, y)),
        encoding_of(x, y).subrange(1, 33) == x,
        encoding_of(x, y).subrange(33, 65) == y,
{
    assert(encoding_of(x, y).subrange(1, 33) =~= x);
    assert(encoding_of(x, y).subrange(33, 65) =~= y);
}

/// Decoding then encoding gives the bytes back.
pub proof fn lemma_decoding_round_trip(key: Seq<u8>)
    requires
        is_uncompressed_encoding(key),
    ensures
        encoding_of(key.subrange(1, 33), key.subrange(33, 65)) == key,
{
    assert(encoding_of(key.subrange(1, 33), key.subrange(33, 65)) =~= key);
}

} // verus!
