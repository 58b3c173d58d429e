//! BLS12-381 operations, carried out by the bls12_381 crate behind trusted
//! wrappers. Points travel as their compressed encodings, which are unique
//! per point, so group equality is byte equality. A Miller-loop accumulator
//! travels as the list of (G1, G2) factors it multiplies; the final
//! verification consumes the factors at once, which yields the same result
//! because the final exponentiation is multiplicative.

use vstd::prelude::*;
use crate::bigint::{le_val, be_val};
use bls12_381::hash_to_curve::{ExpandMsgXmd, HashToCurve};
use bls12_381::{multi_miller_loop, G1Affine, G1Projective, G2Affine, G2Prepared, G2Projective,
    MillerLoopResult, Scalar};

verus! {

/// Whether these bytes decompress to a valid G1 point (canonical encoding,
/// on the curve and in the subgroup); names the success of
/// `G1Affine::from_compressed`.
pub uninterp spec fn g1_ok(b: Seq<u8>) -> bool;

/// Whether these bytes decompress to a valid G2 point; names the success of
/// `G2Affine::from_compressed`.
pub uninterp spec fn g2_ok(b: Seq<u8>) -> bool;

/// The compressed sum of the two G1 points these encodings denote.
pub uninterp spec fn g1_add_of(a: Seq<u8>, b: Seq<u8>) -> Seq<u8>;

/// The compressed negation of the G1 point this encoding denotes.
pub uninterp spec fn g1_neg_of(a: Seq<u8>) -> Seq<u8>;

/// The compressed scalar multiple of a G1 point; the scalar is below the
/// group order.
pub uninterp spec fn g1_mul_of(k: int, p: Seq<u8>) -> Seq<u8>;

/// The compressed hash-to-curve image in G1 of a message under a domain
/// separation tag.
pub uninterp spec fn g1_hash_of(msg: Seq<u8>, dst: Seq<u8>) -> Seq<u8>;

/// The compressed sum of the two G2 points these encodings denote.
pub uninterp spec fn g2_add_of(a: Seq<u8>, b: Seq<u8>) -> Seq<u8>;

/// The compressed negation of the G2 point this encoding denotes.
pub uninterp spec fn g2_neg_of(a: Seq<u8>) -> Seq<u8>;

/// The compressed scalar multiple of a G2 point.
pub uninterp spec fn g2_mul_of(k: int, p: Seq<u8>) -> Seq<u8>;

/// The compressed hash-to-curve image in G2.
pub uninterp spec fn g2_hash_of(msg: Seq<u8>, dst: Seq<u8>) -> Seq<u8>;

/// Whether the products of the pairings of the two factor lists agree
/// after the final exponentiation.
pub uninterp spec fn ml_final_verify(
    xs: Seq<(Seq<u8>, Seq<u8>)>,
    ys: Seq<(Seq<u8>, Seq<u8>)>,
) -> bool;

/// View of a factor list as sequences of byte sequences.
pub open spec fn ml_view(fs: Seq<(Vec<u8>, Vec<u8>)>) -> Seq<(Seq<u8>, Seq<u8>)> {
    Seq::new(fs.len(), |i: int| (fs[i].0@, fs[i].1@))
}

/// The order of the BLS12-381 scalar field, big-endian.
pub open spec fn scalar_period_bytes() -> Seq<u8> {
    seq![
        0x73u8, 0xedu8, 0xa7u8, 0x53u8, 0x29u8, 0x9du8, 0x7du8, 0x48u8, 0x33u8, 0x39u8, 0xd8u8,
        0x08u8, 0x09u8, 0xa1u8, 0xd8u8, 0x05u8, 0x53u8, 0xbdu8, 0xa4u8, 0x02u8, 0xffu8, 0xfeu8,
        0x5bu8, 0xfeu8, 0xffu8, 0xffu8, 0xffu8, 0xffu8, 0x00u8, 0x00u8, 0x00u8, 0x01u8,
    ]
}

/// The scalar field order as a number: scalar multiplication reduces its
/// scalar by this period.
pub open spec fn scalar_period_val() -> int {
    be_val(scalar_period_bytes()) as int
}

/// Relies on bls12_381's `G1Affine::from_compressed`: succeeds exactly on a
/// canonical, on-curve, in-subgroup encoding.
#[verifier::external_body]
pub fn g1_check(b: &Vec<u8>) -> (r: bool)
    requires
        b@.len() == 48,
    ensures
        r == g1_ok(b@),
{
    bool::from(G1Affine::from_compressed(b.as_slice().try_into().unwrap()).is_some())
}

/// Relies on bls12_381's `G2Affine::from_compressed`.
#[verifier::external_body]
pub fn g2_check(b: &Vec<u8>) -> (r: bool)
    requires
        b@.len() == 96,
    ensures
        r == g2_ok(b@),
{
    bool::from(G2Affine::from_compressed(b.as_slice().try_into().unwrap()).is_some())
}

/// Relies on bls12_381's G1 addition and point compression.
#[verifier::external_body]
pub fn g1_add(a: &Vec<u8>, b: &Vec<u8>) -> (r: Vec<u8>)
    requires
        a@.len() == 48,
        b@.len() == 48,
        g1_ok(a@),
        g1_ok(b@),
    ensures
        r@ == g1_add_of(a@, b@),
        r@.len() == 48,
        g1_ok(r@),
{
    let pa = G1Affine::from_compressed(a.as_slice().try_into().unwrap()).unwrap();
    let pb = G1Affine::from_compressed(b.as_slice().try_into().unwrap()).unwrap();
    G1Affine::from(G1Projective::from(pa) + pb).to_compressed().to_vec()
}

/// Relies on bls12_381's G1 negation.
#[verifier::external_body]
pub fn g1_neg(a: &Vec<u8>) -> (r: Vec<u8>)
    requires
        a@.len() == 48,
        g1_ok(a@),
    ensures
        r@ == g1_neg_of(a@),
        r@.len() == 48,
        g1_ok(r@),
{
    let pa = G1Affine::from_compressed(a.as_slice().try_into().unwrap()).unwrap();
    (-pa).to_compressed().to_vec()
}

/// Relies on bls12_381's G1 scalar multiplication; the scalar arrives
/// little-endian, already reduced below the group order, as
/// `Scalar::from_bytes` requires.
#[verifier::external_body]
pub fn g1_mul(k_le: &Vec<u8>, p: &Vec<u8>) -> (r: Vec<u8>)
    requires
        k_le@.len() == 32,
        le_val(k_le@) < scalar_period_val(),
        p@.len() == 48,
        g1_ok(p@),
    ensures
        r@ == g1_mul_of(le_val(k_le@) as int, p@),
        r@.len() == 48,
        g1_ok(r@),
{
    let s = Scalar::from_bytes(k_le.as_slice().try_into().unwrap()).unwrap();
    let pa = G1Affine::from_compressed(p.as_slice().try_into().unwrap()).unwrap();
    G1Affine::from(G1Projective::from(pa) * s).to_compressed().to_vec()
}

/// Relies on bls12_381's hash-to-curve for G1 (expand-message-xmd over
/// SHA-256): a function of the message and tag alone.
#[verifier::external_body]
pub fn g1_hash(msg: &Vec<u8>, dst: &Vec<u8>) -> (r: Vec<u8>)
    requires
        dst@.len() <= 255,
    ensures
        r@ == g1_hash_of(msg@, dst@),
        r@.len() == 48,
        g1_ok(r@),
{
    let p = <G1Projective as HashToCurve<ExpandMsgXmd<sha2::Sha256>>>::hash_to_curve(
        msg.as_slice(),
        dst.as_slice(),
    );
    G1Affine::from(p).to_compressed().to_vec()
}

/// Relies on bls12_381's G2 addition and point compression.
#[verifier::external_body]
pub fn g2_add(a: &Vec<u8>, b: &Vec<u8>) -> (r: Vec<u8>)
    requires
        a@.len() == 96,
        b@.len() == 96,
        g2_ok(a@),
        g2_ok(b@),
    ensures
        r@ == g2_add_of(a@, b@),
        r@.len() == 96,
        g2_ok(r@),
{
    let pa = G2Affine::from_compressed(a.as_slice().try_into().unwrap()).unwrap();
    let pb = G2Affine::from_compressed(b.as_slice().try_into().unwrap()).unwrap();
    G2Affine::from(G2Projective::from(pa) + pb).to_compressed().to_vec()
}

/// Relies on bls12_381's G2 negation.
#[verifier::external_body]
pub fn g2_neg(a: &Vec<u8>) -> (r: Vec<u8>)
    requires
        a@.len() == 96,
        g2_ok(a@),
    ensures
        r@ == g2_neg_of(a@),
        r@.len() == 96,
        g2_ok(r@),
{
    let pa = G2Affine::from_compressed(a.as_slice().try_into().unwrap()).unwrap();
    (-pa).to_compressed().to_vec()
}

/// Relies on bls12_381's G2 scalar multiplication.
#[verifier::external_body]
pub fn g2_mul(k_le: &Vec<u8>, p: &Vec<u8>) -> (r: Vec<u8>)
    requires
        k_le@.len() == 32,
        le_val(k_le@) < scalar_period_val(),
        p@.len() == 96,
        g2_ok(p@),
    ensures
        r@ == g2_mul_of(le_val(k_le@) as int, p@),
        r@.len() == 96,
        g2_ok(r@),
{
    let s = Scalar::from_bytes(k_le.as_slice().try_into().unwrap()).unwrap();
    let pa = G2Affine::from_compressed(p.as_slice().try_into().unwrap()).unwrap();
    G2Affine::from(G2Projective::from(pa) * s).to_compressed().to_vec()
}

/// Relies on bls12_381's hash-to-curve for G2.
#[verifier::external_body]
pub fn g2_hash(msg: &Vec<u8>, dst: &Vec<u8>) -> (r: Vec<u8>)
    requires
        dst@.len() <= 255,
    ensures
        r@ == g2_hash_of(msg@, dst@),
        r@.len() == 96,
        g2_ok(r@),
{
    let p = <G2Projective as HashToCurve<ExpandMsgXmd<sha2::Sha256>>>::hash_to_curve(
        msg.as_slice(),
        dst.as_slice(),
    );
    G2Affine::from(p).to_compressed().to_vec()
}

/// Relies on bls12_381's `multi_miller_loop`, `MillerLoopResult` addition
/// (multiplication in the target group) and `final_exponentiation`: whether
/// the two accumulated pairing products agree after final exponentiation.
#[verifier::external_body]
pub fn final_verify(xs: &Vec<(Vec<u8>, Vec<u8>)>, ys: &Vec<(Vec<u8>, Vec<u8>)>) -> (r: bool)
    requires
        forall|i: int|
            0 <= i < xs@.len() ==> (#[trigger] xs@[i]).0@.len() == 48 && xs@[i].1@.len() == 96
                && g1_ok(xs@[i].0@) && g2_ok(xs@[i].1@),
        forall|i: int|
            0 <= i < ys@.len() ==> (#[trigger] ys@[i]).0@.len() == 48 && ys@[i].1@.len() == 96
                && g1_ok(ys@[i].0@) && g2_ok(ys@[i].1@),
    ensures
        r == ml_final_verify(ml_view(xs@), ml_view(ys@)),
{
    let acc = |ps: &Vec<(Vec<u8>, Vec<u8>)>| ps.iter().fold(
        MillerLoopResult::default(),
        |m, (p, q)| m + multi_miller_loop(
            &[(
                &G1Affine::from_compressed(p.as_slice().try_into().unwrap()).unwrap(),
                &G2Prepared::from(G2Affine::from_compressed(q.as_slice().try_into().unwrap()).unwrap()),
            )],
        ),
    );
    acc(xs).final_exponentiation() == acc(ys).final_exponentiation()
}

} // verus!
