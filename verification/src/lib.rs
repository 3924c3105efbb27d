//! Identity-based broadcast encryption over the pairing groups of BLS12-381.
//!
//! A session key is encapsulated once for a list of identities; the holder
//! of a secret key for one of them opens the header again.
//!
//! Contracts read every group element through its exponent over the fixed
//! generator of its group (see [`group`]), and every scalar through the
//! integer it stands for (see [`field`]).

use vstd::prelude::*;
use vstd::string::StringSliceAdditionalSpecFns;
use crate::common::identity_hash;
use crate::common::str_to_fr;
use crate::field::fr_value;
use crate::field::invertible;
use crate::field::lemma_inverse_is_scalar_inv;
use crate::field::lemma_mul_pairs_swap;
use crate::field::lemma_one_inverse;
use crate::field::lemma_zero_not_invertible;
use crate::field::modulus;
use crate::field::power;
use crate::field::product;
use crate::field::random_scalar;
use crate::field::scalar_add;
use crate::field::scalar_inv;
use crate::field::scalar_mul;
use crate::group::g1_exponent;
use crate::group::g1_mul;
use crate::group::g2_exponent;
use crate::group::g2_mul;
use crate::group::gt_exponent;
use crate::group::gt_power;
use crate::group::pair;
use crate::group::random_g1;
use crate::group::random_g2;
use pairing::bls12_381::Fq12;
use pairing::bls12_381::Fr;
use pairing::bls12_381::G1;
use pairing::bls12_381::G2;
use pairing::CurveProjective;
use pairing::Field;
use rand::Rng;

pub mod common;
pub mod field;
pub mod group;
pub mod laws;

verus! {

/// A session key: an element of the target group.
pub type Gt = Fq12;

/// The master secret key: the scalars `x` and `y`.
pub struct Msk(Fr, Fr);

/// The master public key: a generator of each source group, and the first
/// one raised to `x` and to `y`.
pub struct Mpk {
    g: (G1, G2),
    xx: G1,
    yy: G1,
}

/// The secret key of one identity.
pub struct Sk(Fr, G2);

/// The header that goes out with an encapsulated session key.
pub struct Hdr {
    aa: G1,
    bb: G1,
    cc: G1,
}

/// What a master secret key holds.
pub struct MskView {
    pub x: nat,
    pub y: nat,
}

/// What a master public key holds, each element by its exponent.
pub struct MpkView {
    pub g1: nat,
    pub g2: nat,
    pub xx: nat,
    pub yy: nat,
}

/// What a secret key holds: the scalar `r`, and the exponent of `R`.
pub struct SkView {
    pub r: nat,
    pub rr: nat,
}

/// What a header holds, each element by its exponent.
pub struct HdrView {
    pub aa: nat,
    pub bb: nat,
    pub cc: nat,
}

impl View for Msk {
    type V = MskView;

    closed spec fn view(&self) -> MskView {
        MskView { x: fr_value(self.0), y: fr_value(self.1) }
    }
}

impl View for Mpk {
    type V = MpkView;

    closed spec fn view(&self) -> MpkView {
        MpkView {
            g1: g1_exponent(self.g.0),
            g2: g2_exponent(self.g.1),
            xx: g1_exponent(self.xx),
            yy: g1_exponent(self.yy),
        }
    }
}

impl View for Sk {
    type V = SkView;

    closed spec fn view(&self) -> SkView {
        SkView { r: fr_value(self.0), rr: g2_exponent(self.1) }
    }
}

impl View for Hdr {
    type V = HdrView;

    closed spec fn view(&self) -> HdrView {
        HdrView {
            aa: g1_exponent(self.aa),
            bb: g1_exponent(self.bb),
            cc: g1_exponent(self.cc),
        }
    }
}

/// The public key that belongs to a secret key over the generators with
/// exponents `g1` and `g2`: `X = g1^x` and `Y = g1^y`.
pub open spec fn public_key(g1: nat, g2: nat, msk: MskView) -> MpkView {
    MpkView { g1, g2, xx: scalar_mul(g1, msk.x), yy: scalar_mul(g1, msk.y) }
}

/// The two keys are a pair as one run of the setup makes it.
pub open spec fn keys_match(msk: MskView, mpk: MpkView) -> bool {
    &&& 0 < mpk.g1 < modulus()
    &&& 0 < mpk.g2 < modulus()
    &&& msk.x < modulus()
    &&& msk.y < modulus()
    &&& mpk == public_key(mpk.g1, mpk.g2, msk)
}

/// The master key pair over the given generators and scalars.
pub fn setup_with(g1: G1, g2: G2, x: Fr, y: Fr) -> (out: (Msk, Mpk))
    ensures
        out.0@ == (MskView { x: fr_value(x), y: fr_value(y) }),
        out.1@ == public_key(g1_exponent(g1), g2_exponent(g2), out.0@),
{
    // X = g^x
    // Y = g^y
    let xx = g1_mul(&g1, &x);
    let yy = g1_mul(&g1, &y);

    (Msk(x, y), Mpk { g: (g1, g2), xx, yy })
}

/// A fresh master key pair: two generators and two scalars drawn from `rng`.
pub fn setup<R: Rng>(rng: &mut R) -> (out: (Msk, Mpk))
    ensures
        keys_match(out.0@, out.1@),
{
    // g <- G
    let g1 = random_g1(rng);
    let g2 = random_g2(rng);

    // x <- ZZ
    // y <- ZZ
    let x = random_scalar(rng);
    let y = random_scalar(rng);

    setup_with(g1, g2, x, y)
}

/// The scalar that a secret key inverts: `t = (r + h) * y + x`, for the hash
/// `h` of the key's identity and the key's own scalar `r`.
pub open spec fn key_denominator(msk: MskView, h: nat, r: nat) -> nat {
    scalar_add(scalar_mul(scalar_add(h, r), msk.y), msk.x)
}

/// The secret key with the scalar `r` for the identity that hashes to `h`:
/// `R = g2^(1/t)`. There is none where `t` has no inverse.
pub open spec fn secret_key(mpk: MpkView, msk: MskView, h: nat, r: nat) -> Option<SkView> {
    let t = key_denominator(msk, h, r);
    if invertible(t) {
        Some(SkView { r, rr: scalar_mul(mpk.g2, scalar_inv(t)) })
    } else {
        None
    }
}

/// How often `keygen` draws a scalar before it gives up.
pub const KEYGEN_ATTEMPTS: usize = 128;

/// The secret key of `id` with the scalar `r`, unless `r` is the one scalar
/// for which there is none.
pub fn keygen_with(mpk: &Mpk, msk: &Msk, id: &str, r: Fr) -> (out: Option<Sk>)
    ensures
        out is None <==> key_denominator(msk@, identity_hash(id.spec_bytes()), fr_value(r)) == 0,
        match out {
            Some(sk) => secret_key(mpk@, msk@, identity_hash(id.spec_bytes()), fr_value(r))
                == Some(sk@),
            None => secret_key(mpk@, msk@, identity_hash(id.spec_bytes()), fr_value(r)) is None,
        },
{
    // t = (r + id) * y + x
    let mut t = str_to_fr(id);
    t.add_assign(&r);
    t.mul_assign(&msk.1);
    t.add_assign(&msk.0);

    match t.inverse() {
        Some(e) => {
            proof {
                lemma_inverse_is_scalar_inv(fr_value(t), fr_value(e));
            }
            // R = g^(1/t)
            let rr = g2_mul(&mpk.g.1, &e);
            Some(Sk(r, rr))
        },
        None => {
            proof {
                lemma_zero_not_invertible();
            }
            None
        },
    }
}

/// Draws scalars until one gives a key, `KEYGEN_ATTEMPTS` times at most.
pub fn keygen<R: Rng>(rng: &mut R, mpk: &Mpk, msk: &Msk, id: &str) -> (out: Option<Sk>)
    ensures
        out matches Some(sk) ==> sk@.r < modulus() && secret_key(
            mpk@,
            msk@,
            identity_hash(id.spec_bytes()),
            sk@.r,
        ) == Some(sk@),
        (forall|r: nat| #[trigger]
            key_denominator(msk@, identity_hash(id.spec_bytes()), r) != 0) ==> out is Some,
{
    let mut attempt: usize = 0;
    while attempt < KEYGEN_ATTEMPTS
        invariant
            attempt <= KEYGEN_ATTEMPTS,
            attempt > 0 ==> exists|r: nat| #[trigger]
                key_denominator(msk@, identity_hash(id.spec_bytes()), r) == 0,
        decreases KEYGEN_ATTEMPTS - attempt,
    {
        // r <- ZZ
        let r = random_scalar(rng);

        if let Some(sk) = keygen_with(mpk, msk, id, r) {
            return Some(sk);
        }
        assert(key_denominator(msk@, identity_hash(id.spec_bytes()), fr_value(r)) == 0);
        attempt += 1;
    }
    None
}

/// The identities of a list, each as its bytes.
pub open spec fn identities(ids: &[&str]) -> Seq<Seq<u8>> {
    Seq::new(ids@.len(), |i: int| ids@[i].spec_bytes())
}

/// The scalars that the identities of a list hash to, in the list's order.
pub open spec fn identity_hashes(ids: Seq<Seq<u8>>) -> Seq<nat> {
    ids.map_values(|id: Seq<u8>| identity_hash(id))
}

/// The aggregate that a header is built on: every identity's hash times the
/// session scalar, all multiplied together. With `n` identities this is
/// `s^n` times the product of the hashes.
pub open spec fn enc_aggregate(hs: Seq<nat>, s: nat) -> nat {
    scalar_mul(power(s, hs.len()), product(hs))
}

/// The exponent of the session key for the session scalar `s`: the key is
/// the pairing of the two generators, raised to `s`.
pub open spec fn session_exponent(mpk: MpkView, s: nat) -> nat {
    scalar_mul(mpk.g1, scalar_mul(mpk.g2, s))
}

/// The header for identities with the hashes `hs` and the session scalar
/// `s`: `A = Y^a` for the aggregate `a`, `B = X^s`, `C = Y^s`.
pub open spec fn header(mpk: MpkView, hs: Seq<nat>, s: nat) -> HdrView {
    HdrView {
        aa: scalar_mul(mpk.yy, enc_aggregate(hs, s)),
        bb: scalar_mul(mpk.xx, s),
        cc: scalar_mul(mpk.yy, s),
    }
}

/// Taking one more hash into the aggregate multiplies it by that hash times
/// the session scalar.
proof fn lemma_enc_aggregate_step(hs: Seq<nat>, s: nat)
    requires
        hs.len() > 0,
    ensures
        enc_aggregate(hs, s) == scalar_mul(
            enc_aggregate(hs.drop_last(), s),
            scalar_mul(hs.last(), s),
        ),
{
    let init = hs.drop_last();
    lemma_mul_pairs_swap(power(s, init.len()), product(init), hs.last(), s);
}

/// `k` is the pairing of the two generators raised to `e`, and is known to
/// be that power and no other.
pub open spec fn is_gt_power(k: Gt, e: nat) -> bool {
    k == gt_power(e) && gt_exponent(k) == e
}

/// The session key and the header for the given identities and session
/// scalar.
pub fn enc_with(mpk: &Mpk, ids: &[&str], s: Fr) -> (out: (Gt, Hdr))
    ensures
        is_gt_power(out.0, session_exponent(mpk@, fr_value(s))),
        out.1@ == header(mpk@, identity_hashes(identities(ids)), fr_value(s)),
{
    let ghost hs = identity_hashes(identities(ids));

    // a = prod_(j=1)^n ID_j * s
    let mut a = Fr::one();
    let mut j: usize = 0;
    proof {
        lemma_one_inverse();
        assert(hs.take(0).len() == 0);
    }
    while j < ids.len()
        invariant
            j <= ids.len(),
            hs == identity_hashes(identities(ids)),
            fr_value(a) == enc_aggregate(hs.take(j as int), fr_value(s)),
        decreases ids.len() - j,
    {
        let mut next = str_to_fr(ids[j]);
        next.mul_assign(&s);
        a.mul_assign(&next);
        proof {
            let upto = hs.take(j + 1);
            assert(upto.drop_last() == hs.take(j as int));
            assert(upto.last() == identity_hash(ids@[j as int].spec_bytes()));
            lemma_enc_aggregate_step(upto, fr_value(s));
        }
        j += 1;
    }
    assert(hs.take(ids.len() as int) == hs);

    // A = Y^a
    let aa = g1_mul(&mpk.yy, &a);

    // B = X^s
    let bb = g1_mul(&mpk.xx, &s);

    // C = Y^s
    let cc = g1_mul(&mpk.yy, &s);

    // k = e(g, g)^s
    let k = pair(&mpk.g.0, &g2_mul(&mpk.g.1, &s));

    (k, Hdr { aa, bb, cc })
}

/// A fresh session key and its header for the given identities, for a
/// session scalar drawn from `rng`.
pub fn enc<R: Rng>(rng: &mut R, mpk: &Mpk, ids: &[&str]) -> (out: (Gt, Hdr))
    ensures
        exists|s: nat|
            {
                &&& s < modulus()
                &&& is_gt_power(out.0, #[trigger] session_exponent(mpk@, s))
                &&& out.1@ == header(mpk@, identity_hashes(identities(ids)), s)
            },
{
    // s <- ZZ
    let s = random_scalar(rng);

    let out = enc_with(mpk, ids, s);
    assert(is_gt_power(out.0, session_exponent(mpk@, fr_value(s))));
    out
}

/// The identities of a list other than `id`, in the list's order.
pub open spec fn others(ids: Seq<Seq<u8>>, id: Seq<u8>) -> Seq<Seq<u8>> {
    ids.filter(|other: Seq<u8>| other != id)
}

/// The aggregate that a header is opened with: the product of the hashes of
/// all identities of the list other than `id`.
pub open spec fn dec_aggregate(ids: Seq<Seq<u8>>, id: Seq<u8>) -> nat {
    product(identity_hashes(others(ids, id)))
}

/// The exponent of the element `T = A^ai * B * C^r` that a key makes of a
/// header, given the inverse `ai` of the aggregate.
pub open spec fn opened_point(sk: SkView, hdr: HdrView, ai: nat) -> nat {
    scalar_add(scalar_add(scalar_mul(hdr.aa, ai), hdr.bb), scalar_mul(hdr.cc, sk.r))
}

/// The exponent of what a key recovers from a header, given the inverse
/// `ai` of the aggregate: the pairing of `T` with `R`.
pub open spec fn opened_exponent(sk: SkView, hdr: HdrView, ai: nat) -> nat {
    scalar_mul(opened_point(sk, hdr, ai), sk.rr)
}

/// What the holder of `sk` for `id` recovers from a header for `ids`:
/// nothing where the aggregate has no inverse.
pub open spec fn decapsulation(
    sk: SkView,
    hdr: HdrView,
    id: Seq<u8>,
    ids: Seq<Seq<u8>>,
) -> Option<Gt> {
    let a = dec_aggregate(ids, id);
    if invertible(a) {
        Some(gt_power(opened_exponent(sk, hdr, scalar_inv(a))))
    } else {
        None
    }
}

/// Whether two identities are the same string.
pub fn same_identity(a: &str, b: &str) -> (out: bool)
    ensures
        out == (a.spec_bytes() == b.spec_bytes()),
{
    let x = a.as_bytes();
    let y = b.as_bytes();
    if x.len() != y.len() {
        return false;
    }
    let mut i: usize = 0;
    while i < x.len()
        invariant
            i <= x.len(),
            x.len() == y.len(),
            x@ == a.spec_bytes(),
            y@ == b.spec_bytes(),
            x@.take(i as int) == y@.take(i as int),
        decreases x.len() - i,
    {
        if x[i] != y[i] {
            assert(x@[i as int] != y@[i as int]);
            return false;
        }
        assert(x@.take(i + 1) == x@.take(i as int).push(x@[i as int]));
        assert(y@.take(i + 1) == y@.take(i as int).push(y@[i as int]));
        i += 1;
    }
    assert(x@ == x@.take(x.len() as int));
    assert(y@ == y@.take(y.len() as int));
    true
}

/// One more identity of the list either joins the others or is left out.
proof fn lemma_others_step(ids: Seq<Seq<u8>>, id: Seq<u8>)
    requires
        ids.len() > 0,
    ensures
        others(ids, id) == if ids.last() != id {
            others(ids.drop_last(), id).push(ids.last())
        } else {
            others(ids.drop_last(), id)
        },
{
    reveal(Seq::filter);
}

/// What the key `sk` of `id` recovers from the header `ct` for the list
/// `ids`: nothing where the product of the other identities' hashes is zero.
/// Whether the key and the header belong together is not looked into.
pub fn dec(sk: &Sk, ct: &Hdr, id: &str, ids: &[&str]) -> (out: Option<Gt>)
    ensures
        out == decapsulation(sk@, ct@, id.spec_bytes(), identities(ids)),
        out is None <==> dec_aggregate(identities(ids), id.spec_bytes()) == 0,
        out matches Some(k) ==> is_gt_power(
            k,
            opened_exponent(
                sk@,
                ct@,
                scalar_inv(dec_aggregate(identities(ids), id.spec_bytes())),
            ),
        ),
{
    let ghost all = identities(ids);
    let ghost me = id.spec_bytes();

    // a = prod_(j=1,j!=i)^n ID_j
    let mut a = Fr::one();
    let mut j: usize = 0;
    proof {
        assert(all.take(0).len() == 0);
        lemma_others_empty(me);
    }
    while j < ids.len()
        invariant
            j <= ids.len(),
            all == identities(ids),
            me == id.spec_bytes(),
            fr_value(a) == dec_aggregate(all.take(j as int), me),
        decreases ids.len() - j,
    {
        proof {
            let upto = all.take(j + 1);
            assert(upto.drop_last() == all.take(j as int));
            assert(upto.last() == ids@[j as int].spec_bytes());
            lemma_others_step(upto, me);
        }
        if !same_identity(ids[j], id) {
            let next = str_to_fr(ids[j]);
            a.mul_assign(&next);
            proof {
                let before = others(all.take(j as int), me);
                let kept = others(all.take(j + 1), me);
                assert(kept == before.push(ids@[j as int].spec_bytes()));
                assert(kept.drop_last() =~= before);
                assert(identity_hashes(kept).drop_last() =~= identity_hashes(before));
                assert(identity_hashes(kept).last() == fr_value(next));
            }
        }
        j += 1;
    }
    assert(all.take(ids.len() as int) == all);

    match a.inverse() {
        Some(ai) => {
            proof {
                lemma_inverse_is_scalar_inv(fr_value(a), fr_value(ai));
            }
            // T = A^(1/a) * B * C^r
            let mut t = g1_mul(&ct.aa, &ai);
            t.add_assign(&ct.bb);
            t.add_assign(&g1_mul(&ct.cc, &sk.0));

            // e(T, R)
            Some(pair(&t, &sk.1))
        },
        None => {
            proof {
                lemma_zero_not_invertible();
            }
            None
        },
    }
}

/// With no identity in the list, none is left over.
proof fn lemma_others_empty(id: Seq<u8>)
    ensures
        others(Seq::empty(), id) == Seq::<Seq<u8>>::empty(),
{
    reveal(Seq::filter);
}

} // verus!
