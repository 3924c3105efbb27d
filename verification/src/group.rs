//! The three groups of the pairing, each read through the exponent of an
//! element over a fixed generator.
//!
//! G1 and G2 are groups of prime order `modulus()`, so each of their elements
//! is a unique multiple `e * one()` of the group's fixed generator with
//! `e < modulus()`; that `e` is the element's exponent. The pairing is
//! bilinear and not degenerate, so the pairing of two elements is the pairing
//! of the two generators raised to the product of the exponents, and is a
//! different element of GT for each product below `modulus()`.

use vstd::prelude::*;
use crate::field::fr_value;
use crate::field::modulus;
use crate::field::scalar_add;
use crate::field::scalar_mul;
use pairing::bls12_381::Bls12;
use pairing::bls12_381::Fq12;
use pairing::bls12_381::Fr;
use pairing::bls12_381::G1;
use pairing::bls12_381::G2;
use pairing::CurveAffine;
use pairing::CurveProjective;
use pairing::Engine;
use pairing::PrimeField;
use rand::Rand;
use rand::Rng;

verus! {

#[verifier::external_type_specification]
#[verifier::external_body]
pub struct ExG1(G1);

#[verifier::external_type_specification]
#[verifier::external_body]
pub struct ExG2(G2);

#[verifier::external_type_specification]
#[verifier::external_body]
pub struct ExFq12(Fq12);

/// The `e` in `0..modulus()` for which `p` is `e * G1::one()`.
pub uninterp spec fn g1_exponent(p: G1) -> nat;

/// The `e` in `0..modulus()` for which `q` is `e * G2::one()`.
pub uninterp spec fn g2_exponent(q: G2) -> nat;

/// The pairing of `G1::one()` with `G2::one()`, raised to the power `e`.
pub uninterp spec fn gt_power(e: nat) -> Fq12;

/// The `e` in `0..modulus()` for which `k` is `gt_power(e)`, where `k` is a
/// value of the pairing.
pub uninterp spec fn gt_exponent(k: Fq12) -> nat;

/// `Rand::rand` of `rand`, on `G1`, for any source of randomness: which
/// element comes back is left open, only that it is not the identity.
#[verifier::external_body]
pub(crate) fn random_g1<R: Rng>(rng: &mut R) -> (out: G1)
    ensures
        0 < g1_exponent(out) < modulus(),
{
    G1::rand(rng)
}

/// `Rand::rand` of `rand`, on `G2`, for any source of randomness: which
/// element comes back is left open, only that it is not the identity.
#[verifier::external_body]
pub(crate) fn random_g2<R: Rng>(rng: &mut R) -> (out: G2)
    ensures
        0 < g2_exponent(out) < modulus(),
{
    G2::rand(rng)
}

/// `CurveAffine::mul` of `pairing`, on the affine form of a G1 element and
/// the integer form of a scalar: the element taken `k` times.
#[verifier::external_body]
pub(crate) fn g1_mul(p: &G1, k: &Fr) -> (out: G1)
    ensures
        g1_exponent(out) == scalar_mul(g1_exponent(*p), fr_value(*k)),
{
    p.into_affine().mul(k.into_repr())
}

/// `CurveAffine::mul` of `pairing`, on the affine form of a G2 element and
/// the integer form of a scalar: the element taken `k` times.
#[verifier::external_body]
pub(crate) fn g2_mul(q: &G2, k: &Fr) -> (out: G2)
    ensures
        g2_exponent(out) == scalar_mul(g2_exponent(*q), fr_value(*k)),
{
    q.into_affine().mul(k.into_repr())
}

/// `CurveProjective::add_assign` of `pairing`, on `G1`: the group law, the
/// sum taking the place of the first operand.
pub assume_specification[ <G1 as CurveProjective>::add_assign ](p: &mut G1, q: &G1)
    ensures
        g1_exponent(*final(p)) == scalar_add(g1_exponent(*old(p)), g1_exponent(*q)),
;

/// `Engine::pairing` of `pairing`, on `Bls12`: bilinear, so the generators'
/// pairing raised to the product of the two exponents.
#[verifier::external_body]
pub(crate) fn pair(p: &G1, q: &G2) -> (out: Fq12)
    ensures
        out == gt_power(scalar_mul(g1_exponent(*p), g2_exponent(*q))),
        gt_exponent(out) == scalar_mul(g1_exponent(*p), g2_exponent(*q)),
{
    Bls12::pairing(*p, *q)
}

} // verus!
