//! The scalar field of the pairing groups, as integers modulo the group order.

use vstd::prelude::*;
use vstd::arithmetic::div_mod::lemma_add_mod_noop;
use vstd::arithmetic::div_mod::lemma_mul_mod_noop_general;
use vstd::arithmetic::div_mod::lemma_mod_twice;
use vstd::arithmetic::div_mod::lemma_small_mod;
use vstd::arithmetic::mul::lemma_mul_is_associative;
use vstd::arithmetic::mul::lemma_mul_is_commutative;
use pairing::bls12_381::Fr;
use pairing::Field;
use rand::Rand;
use rand::Rng;

verus! {

/// The order `r` of the groups G1, G2 and GT of BLS12-381, which is the
/// modulus of the scalar field.
pub open spec fn modulus() -> nat {
    0x73eda753299d7d483339d80809a1d80553bda402fffe5bfeffffffff00000001nat
}

/// Sum of two scalars.
pub open spec fn scalar_add(a: nat, b: nat) -> nat {
    (a + b) % modulus()
}

/// Product of two scalars.
pub open spec fn scalar_mul(a: nat, b: nat) -> nat {
    (a * b) % modulus()
}

/// `i` is the multiplicative inverse of `a` in the scalar field.
pub open spec fn is_inverse(a: nat, i: nat) -> bool {
    i < modulus() && scalar_mul(a, i) == 1
}

/// `a` has a multiplicative inverse in the scalar field.
pub open spec fn invertible(a: nat) -> bool {
    exists|i: nat| is_inverse(a, i)
}

/// The multiplicative inverse of an invertible scalar.
pub open spec fn scalar_inv(a: nat) -> nat {
    choose|i: nat| is_inverse(a, i)
}

/// An invertible scalar has only one inverse.
pub proof fn lemma_inverse_unique(a: nat, i: nat, j: nat)
    requires
        is_inverse(a, i),
        is_inverse(a, j),
    ensures
        i == j,
{
    let m = modulus() as int;
    let (a, i, j) = (a as int, i as int, j as int);
    // i = i * (a * j) = (i * a) * j = j, all modulo m
    lemma_mul_mod_noop_general(i, a * j, m);
    lemma_mul_mod_noop_general(a * i, j, m);
    lemma_mul_is_associative(i, a, j);
    lemma_mul_is_commutative(i, a);
    lemma_small_mod(i as nat, m as nat);
    lemma_small_mod(j as nat, m as nat);
    assert((i * 1) % m == i);
    assert((1 * j) % m == j);
}

/// Whatever inverse is at hand, it is the one `scalar_inv` names.
pub proof fn lemma_inverse_is_scalar_inv(a: nat, i: nat)
    requires
        is_inverse(a, i),
    ensures
        invertible(a),
        scalar_inv(a) == i,
{
    lemma_inverse_unique(a, i, scalar_inv(a));
}

/// Zero has no inverse.
pub proof fn lemma_zero_not_invertible()
    ensures
        !invertible(0),
{
    assert forall|i: nat| !is_inverse(0, i) by {
        assert(0 * i == 0);
    }
}

/// One is its own inverse.
pub proof fn lemma_one_inverse()
    ensures
        is_inverse(1, 1),
        scalar_inv(1) == 1,
{
    assert(1nat * 1nat == 1);
    lemma_small_mod(1, modulus());
    lemma_inverse_is_scalar_inv(1, 1);
}

/// The product of a sequence of scalars.
pub open spec fn product(hs: Seq<nat>) -> nat
    decreases hs.len(),
{
    if hs.len() == 0 {
        1
    } else {
        scalar_mul(product(hs.drop_last()), hs.last())
    }
}

/// The scalar `s` raised to the power `n`.
pub open spec fn power(s: nat, n: nat) -> nat
    decreases n,
{
    if n == 0 {
        1
    } else {
        scalar_mul(power(s, (n - 1) as nat), s)
    }
}

/// A product of two products is the product of the four factors.
pub proof fn lemma_mul_of_products(a: nat, b: nat, c: nat, d: nat)
    ensures
        scalar_mul(scalar_mul(a, b), scalar_mul(c, d)) == (a * b * (c * d)) % modulus(),
{
    lemma_mul_mod_noop_general((a * b) as int, (c * d) as int, modulus() as int);
}

/// Products of the same four factors agree, however the factors are paired.
pub proof fn lemma_mul_pairs_swap(a: nat, b: nat, c: nat, d: nat)
    ensures
        scalar_mul(scalar_mul(a, b), scalar_mul(c, d)) == scalar_mul(
            scalar_mul(a, d),
            scalar_mul(b, c),
        ),
{
    lemma_mul_of_products(a, b, c, d);
    lemma_mul_of_products(a, d, b, c);
    assert(a * b * (c * d) == a * d * (b * c)) by (nonlinear_arith);
}

/// The integer `a` stands for the scalar that `b` stands for.
pub open spec fn congruent(a: int, b: int) -> bool {
    a % (modulus() as int) == b % (modulus() as int)
}

/// A product of scalars stands for the product of what its factors stand for.
pub proof fn lemma_mul_congruent(a: nat, b: nat, x: int, y: int)
    requires
        congruent(a as int, x),
        congruent(b as int, y),
    ensures
        congruent(scalar_mul(a, b) as int, x * y),
{
    let m = modulus() as int;
    lemma_mul_mod_noop_general(a as int, b as int, m);
    lemma_mul_mod_noop_general(x, y, m);
    lemma_mod_twice(a as int * b as int, m);
}

/// A sum of scalars stands for the sum of what its terms stand for.
pub proof fn lemma_add_congruent(a: nat, b: nat, x: int, y: int)
    requires
        congruent(a as int, x),
        congruent(b as int, y),
    ensures
        congruent(scalar_add(a, b) as int, x + y),
{
    let m = modulus() as int;
    lemma_add_mod_noop(a as int, b as int, m);
    lemma_add_mod_noop(x, y, m);
    lemma_mod_twice(a as int + b as int, m);
}

/// Integers that stand for the same scalars have products that do.
pub proof fn lemma_congruent_products(x: int, y: int, u: int, v: int)
    requires
        congruent(x, u),
        congruent(y, v),
    ensures
        congruent(x * y, u * v),
{
    let m = modulus() as int;
    lemma_mul_mod_noop_general(x, y, m);
    lemma_mul_mod_noop_general(u, v, m);
}

/// Two reduced scalars that stand for the same scalar are the same.
pub proof fn lemma_congruent_reduced(a: nat, b: nat)
    requires
        a < modulus(),
        b < modulus(),
        congruent(a as int, b as int),
    ensures
        a == b,
{
    lemma_small_mod(a, modulus());
    lemma_small_mod(b, modulus());
}

#[verifier::external_type_specification]
#[verifier::external_body]
pub struct ExFr(Fr);

/// The integer in `0..modulus()` that a field element stands for.
pub uninterp spec fn fr_value(x: Fr) -> nat;

/// `Field::one` of `pairing`, on `Fr`: the multiplicative identity.
pub assume_specification[ <Fr as Field>::one ]() -> (out: Fr)
    ensures
        fr_value(out) == 1,
;

/// `Field::add_assign` of `pairing`, on `Fr`: addition modulo the group
/// order, the sum taking the place of the first operand.
pub assume_specification[ <Fr as Field>::add_assign ](a: &mut Fr, b: &Fr)
    ensures
        fr_value(*final(a)) == scalar_add(fr_value(*old(a)), fr_value(*b)),
;

/// `Field::mul_assign` of `pairing`, on `Fr`: multiplication modulo the
/// group order, the product taking the place of the first operand.
pub assume_specification[ <Fr as Field>::mul_assign ](a: &mut Fr, b: &Fr)
    ensures
        fr_value(*final(a)) == scalar_mul(fr_value(*old(a)), fr_value(*b)),
;

/// `Field::inverse` of `pairing`, on `Fr`: nothing for zero, and for any
/// other element the one whose product with it is one.
pub assume_specification[ <Fr as Field>::inverse ](a: &Fr) -> (out: Option<Fr>)
    ensures
        out is None <==> fr_value(*a) == 0,
        out matches Some(i) ==> is_inverse(fr_value(*a), fr_value(i)),
;

/// `Rand::rand` of `rand`, on `Fr`, for any source of randomness: which
/// element comes back is left open, only that it is reduced.
#[verifier::external_body]
pub(crate) fn random_scalar<R: Rng>(rng: &mut R) -> (out: Fr)
    ensures
        fr_value(out) < modulus(),
{
    Fr::rand(rng)
}

} // verus!
