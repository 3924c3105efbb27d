//! What holds between the four algorithms.
//!
//! A secret key with the denominator `t` over the generator `g2` recovers
//! the pairing of `T` with `g2^(1/t)`. Everything here follows from that:
//! the key recovers a given power `e` of the generators' pairing exactly if
//! `T^g2` is `g^(e * t)`.

use vstd::prelude::*;
use vstd::arithmetic::div_mod::lemma_mod_equivalence;
use vstd::string::StringSliceAdditionalSpecFns;
use crate::common::identity_hash;
use crate::dec_aggregate;
use crate::decapsulation;
use crate::enc_aggregate;
use crate::field::congruent;
use crate::field::fr_value;
use crate::field::invertible;
use crate::field::is_inverse;
use crate::field::lemma_add_congruent;
use crate::field::lemma_congruent_products;
use crate::field::lemma_congruent_reduced;
use crate::field::lemma_mul_congruent;
use crate::field::lemma_one_inverse;
use crate::field::modulus;
use crate::field::power;
use crate::field::product;
use crate::field::scalar_add;
use crate::field::scalar_inv;
use crate::field::scalar_mul;
use crate::group::gt_power;
use crate::header;
use crate::identity_hashes;
use crate::is_gt_power;
use crate::key_denominator;
use crate::opened_exponent;
use crate::opened_point;
use crate::others;
use crate::public_key;
use crate::secret_key;
use crate::session_exponent;
use crate::Gt;
use crate::HdrView;
use crate::MpkView;
use crate::MskView;
use crate::SkView;
use pairing::bls12_381::Fr;

verus! {

/// The exponent of the pairing of the two generators of a public key.
pub open spec fn pairing_base(mpk: MpkView) -> nat {
    scalar_mul(mpk.g1, mpk.g2)
}

/// The extra factors of the session scalar that a header for `n` identities
/// carries make no difference to a key for the hash `h`: `A` opens to
/// `Y^(s^n * h)`, and that is `Y^(s * h)`.
pub open spec fn session_factors_cancel(msk: MskView, h: nat, s: nat, n: nat) -> bool {
    scalar_mul(msk.y, scalar_mul(power(s, n), h)) == scalar_mul(msk.y, scalar_mul(s, h))
}

/// Adding the same to both sides keeps two integers together or apart.
proof fn lemma_congruent_cancel(a: int, b: int, c: int)
    ensures
        congruent(a + c, b + c) <==> congruent(a, b),
{
    let m = modulus() as int;
    lemma_mod_equivalence(a + c, b + c, m);
    lemma_mod_equivalence(a, b, m);
    assert((a + c) - (b + c) == a - b);
}

/// The pairing of `T` with `g2^(1/t)` is the power `e` exactly if `T^g2` is
/// `g^(e * t)`.
proof fn lemma_key_on_point(g2: nat, t: nat, ti: nat, point: nat, e: nat)
    requires
        is_inverse(t, ti),
        e < modulus(),
    ensures
        scalar_mul(point, scalar_mul(g2, ti)) == e <==> scalar_mul(point, g2) == scalar_mul(e, t),
{
    let (p, g, ei, d, di) = (point as int, g2 as int, e as int, t as int, ti as int);
    let rr = scalar_mul(g2, ti);
    let opened = scalar_mul(point, rr);
    lemma_mul_congruent(g2, ti, g, di);
    lemma_mul_congruent(point, rr, p, g * di);

    // opened * t = point * g2
    lemma_mul_congruent(opened, t, p * (g * di), d);
    assert(p * (g * di) * d == (p * g) * (d * di)) by (nonlinear_arith);
    lemma_congruent_products(p * g, d * di, p * g, 1);
    lemma_mul_congruent(point, g2, p, g);
    lemma_congruent_reduced(scalar_mul(opened, t), scalar_mul(point, g2));

    // (e * t) / t = e
    lemma_mul_congruent(e, t, ei, d);
    lemma_mul_congruent(scalar_mul(e, t), ti, ei * d, di);
    assert(ei * d * di == ei * (d * di)) by (nonlinear_arith);
    lemma_congruent_products(ei, d * di, ei, 1);
    lemma_congruent_reduced(scalar_mul(scalar_mul(e, t), ti), e);

    // (point * g2) / t = opened
    lemma_mul_congruent(scalar_mul(point, g2), ti, p * g, di);
    assert(p * g * di == p * (g * di)) by (nonlinear_arith);
    lemma_congruent_reduced(scalar_mul(scalar_mul(point, g2), ti), opened);
}

/// A key and a header of one master key pair: where `A^ai` is `g1^f`, the
/// key recovers the session key exactly if `g^f` is `g^(y * s * h)`.
proof fn lemma_recovers_iff(
    msk: MskView,
    mpk: MpkView,
    h: nat,
    sk: SkView,
    s: nat,
    hdr: HdrView,
    ai: nat,
    f: nat,
)
    requires
        mpk == public_key(mpk.g1, mpk.g2, msk),
        secret_key(mpk, msk, h, sk.r) == Some(sk),
        hdr.bb == scalar_mul(mpk.xx, s),
        hdr.cc == scalar_mul(mpk.yy, s),
        congruent(scalar_mul(hdr.aa, ai) as int, mpk.g1 as int * f as int),
    ensures
        opened_exponent(sk, hdr, ai) == session_exponent(mpk, s) <==> scalar_mul(
            pairing_base(mpk),
            f,
        ) == scalar_mul(pairing_base(mpk), scalar_mul(msk.y, scalar_mul(s, h))),
{
    let (g1, g2, x, y) = (mpk.g1 as int, mpk.g2 as int, msk.x as int, msk.y as int);
    let (si, hi, ri, fi) = (s as int, h as int, sk.r as int, f as int);
    let t = key_denominator(msk, h, sk.r);
    let point = opened_point(sk, hdr, ai);
    let session = session_exponent(mpk, s);
    let base = pairing_base(mpk);
    lemma_key_on_point(mpk.g2, t, scalar_inv(t), point, session);

    // what both sides have in common
    let c = g1 * g2 * (x * si) + g1 * g2 * (y * si * ri);

    // T^g2 = g^(f + x s + y s r)
    lemma_mul_congruent(mpk.g1, msk.x, g1, x);
    lemma_mul_congruent(mpk.g1, msk.y, g1, y);
    lemma_mul_congruent(mpk.xx, s, g1 * x, si);
    lemma_mul_congruent(mpk.yy, s, g1 * y, si);
    lemma_mul_congruent(hdr.cc, sk.r, g1 * y * si, ri);
    let first = scalar_mul(hdr.aa, ai);
    lemma_add_congruent(first, hdr.bb, g1 * fi, g1 * x * si);
    lemma_add_congruent(
        scalar_add(first, hdr.bb),
        scalar_mul(hdr.cc, sk.r),
        g1 * fi + g1 * x * si,
        g1 * y * si * ri,
    );
    lemma_mul_congruent(point, mpk.g2, g1 * fi + g1 * x * si + g1 * y * si * ri, g2);
    assert((g1 * fi + g1 * x * si + g1 * y * si * ri) * g2 == g1 * g2 * fi + c) by {
        assert((g1 * fi + g1 * x * si + g1 * y * si * ri) * g2 == g1 * fi * g2 + g1 * x * si * g2
            + g1 * y * si * ri * g2) by (nonlinear_arith);
        assert(g1 * fi * g2 == g1 * g2 * fi) by (nonlinear_arith);
        assert(g1 * x * si * g2 == g1 * g2 * (x * si)) by (nonlinear_arith);
        assert(g1 * y * si * ri * g2 == g1 * g2 * (y * si * ri)) by (nonlinear_arith);
    }

    // session^t = g^(y s h + x s + y s r)
    lemma_mul_congruent(mpk.g2, s, g2, si);
    lemma_mul_congruent(mpk.g1, scalar_mul(mpk.g2, s), g1, g2 * si);
    lemma_add_congruent(h, sk.r, hi, ri);
    lemma_mul_congruent(scalar_add(h, sk.r), msk.y, hi + ri, y);
    lemma_add_congruent(scalar_mul(scalar_add(h, sk.r), msk.y), msk.x, (hi + ri) * y, x);
    lemma_mul_congruent(session, t, g1 * (g2 * si), (hi + ri) * y + x);
    assert(g1 * (g2 * si) * ((hi + ri) * y + x) == g1 * g2 * (y * (si * hi)) + c) by {
        let b = g1 * g2;
        assert(g1 * (g2 * si) * ((hi + ri) * y + x) == b * (si * ((hi + ri) * y + x)))
            by (nonlinear_arith)
            requires
                b == g1 * g2,
        ;
        assert(si * ((hi + ri) * y + x) == y * (si * hi) + x * si + y * si * ri)
            by (nonlinear_arith);
        assert(b * (y * (si * hi) + x * si + y * si * ri) == b * (y * (si * hi)) + b * (x * si)
            + b * (y * si * ri)) by (nonlinear_arith);
    }

    // g^f and g^(y s h)
    lemma_mul_congruent(mpk.g1, mpk.g2, g1, g2);
    lemma_mul_congruent(base, f, g1 * g2, fi);
    lemma_mul_congruent(s, h, si, hi);
    lemma_mul_congruent(msk.y, scalar_mul(s, h), y, si * hi);
    lemma_mul_congruent(base, scalar_mul(msk.y, scalar_mul(s, h)), g1 * g2, y * (si * hi));

    lemma_congruent_cancel(g1 * g2 * fi, g1 * g2 * (y * (si * hi)), c);
    if congruent(g1 * g2 * fi, g1 * g2 * (y * (si * hi))) {
        lemma_congruent_reduced(scalar_mul(point, mpk.g2), scalar_mul(session, t));
        lemma_congruent_reduced(
            scalar_mul(base, f),
            scalar_mul(base, scalar_mul(msk.y, scalar_mul(s, h))),
        );
    }
}

/// A list that does not hold `id` is left whole when `id` is taken out.
proof fn lemma_others_of_outsider(ids: Seq<Seq<u8>>, id: Seq<u8>)
    requires
        !ids.contains(id),
    ensures
        others(ids, id) == ids,
    decreases ids.len(),
{
    reveal(Seq::filter);
    if ids.len() > 0 {
        let init = ids.drop_last();
        assert(ids.last() == ids[ids.len() - 1]);
        assert forall|i: int| 0 <= i < init.len() implies init[i] != id by {
            assert(init[i] == ids[i]);
        }
        lemma_others_of_outsider(init, id);
        assert(init.push(ids.last()) == ids);
    }
}

/// In a list without repetition that holds `id`, the product of all hashes
/// is the hash of `id` times the product of the others' hashes.
proof fn lemma_product_split(ids: Seq<Seq<u8>>, id: Seq<u8>)
    requires
        ids.no_duplicates(),
        ids.contains(id),
    ensures
        congruent(
            product(identity_hashes(ids)) as int,
            identity_hash(id) as int * product(identity_hashes(others(ids, id))) as int,
        ),
    decreases ids.len(),
{
    reveal(Seq::filter);
    let h = identity_hash(id) as int;
    let init = ids.drop_last();
    let last = ids.last();
    let hl = identity_hash(last);
    assert(identity_hashes(ids).drop_last() == identity_hashes(init));
    assert(identity_hashes(ids).last() == hl);
    let p_init = product(identity_hashes(init));
    if last == id {
        assert forall|i: int| 0 <= i < init.len() implies init[i] != id by {
            assert(init[i] == ids[i]);
            assert(ids[ids.len() - 1] == id);
        }
        lemma_others_of_outsider(init, id);
        lemma_mul_congruent(p_init, hl, p_init as int, h);
        assert(p_init as int * h == h * p_init as int) by (nonlinear_arith);
    } else {
        let i = choose|i: int| 0 <= i < ids.len() && ids[i] == id;
        assert(init[i] == id);
        lemma_product_split(init, id);
        let rest = others(init, id);
        let p_rest = product(identity_hashes(rest));
        let kept = others(ids, id);
        assert(kept == rest.push(last));
        assert(kept.drop_last() == rest);
        assert(identity_hashes(kept).drop_last() == identity_hashes(rest));
        assert(identity_hashes(kept).last() == hl);
        lemma_mul_congruent(p_init, hl, h * p_rest as int, hl as int);
        lemma_mul_congruent(p_rest, hl, p_rest as int, hl as int);
        lemma_congruent_products(
            h,
            product(identity_hashes(kept)) as int,
            h,
            p_rest as int * hl as int,
        );
        assert(h * p_rest as int * hl as int == h * (p_rest as int * hl as int))
            by (nonlinear_arith);
    }
}

/// For a member of a list without repetition, the header's `A` opens to
/// `Y^(s^n * h)`.
proof fn lemma_member_first_term(
    msk: MskView,
    mpk: MpkView,
    ids: Seq<Seq<u8>>,
    id: Seq<u8>,
    s: nat,
)
    requires
        mpk == public_key(mpk.g1, mpk.g2, msk),
        ids.no_duplicates(),
        ids.contains(id),
        invertible(dec_aggregate(ids, id)),
    ensures
        congruent(
            scalar_mul(
                header(mpk, identity_hashes(ids), s).aa,
                scalar_inv(dec_aggregate(ids, id)),
            ) as int,
            mpk.g1 as int * scalar_mul(
                msk.y,
                scalar_mul(power(s, ids.len()), identity_hash(id)),
            ) as int,
        ),
{
    let h = identity_hash(id);
    let hs = identity_hashes(ids);
    let hdr = header(mpk, hs, s);
    let rest = dec_aggregate(ids, id);
    let ai = scalar_inv(rest);
    let sn = power(s, ids.len());
    let (g1, y, hi) = (mpk.g1 as int, msk.y as int, h as int);

    // the header's aggregate is s^n * h * rest
    lemma_product_split(ids, id);
    lemma_mul_congruent(sn, product(hs), sn as int, hi * rest as int);
    let a = enc_aggregate(hs, s);

    // A^(1/rest) = g1^(y s^n h)
    lemma_mul_congruent(mpk.g1, msk.y, g1, y);
    lemma_mul_congruent(mpk.yy, a, g1 * y, sn as int * (hi * rest as int));
    lemma_mul_congruent(hdr.aa, ai, g1 * y * (sn as int * (hi * rest as int)), ai as int);
    assert(g1 * y * (sn as int * (hi * rest as int)) * ai as int == g1 * (y * (sn as int * hi))
        * (rest as int * ai as int)) by (nonlinear_arith);
    lemma_congruent_products(
        g1 * (y * (sn as int * hi)),
        rest as int * ai as int,
        g1 * (y * (sn as int * hi)),
        1,
    );
    lemma_mul_congruent(sn, h, sn as int, hi);
    lemma_mul_congruent(msk.y, scalar_mul(sn, h), y, sn as int * hi);
    lemma_congruent_products(
        g1,
        y * (sn as int * hi),
        g1,
        scalar_mul(msk.y, scalar_mul(sn, h)) as int,
    );
}

/// For an identity that is not in the list, the header's `A` opens to
/// `Y^(s^n)`.
proof fn lemma_outsider_first_term(
    msk: MskView,
    mpk: MpkView,
    ids: Seq<Seq<u8>>,
    id: Seq<u8>,
    s: nat,
)
    requires
        mpk == public_key(mpk.g1, mpk.g2, msk),
        !ids.contains(id),
        invertible(dec_aggregate(ids, id)),
    ensures
        congruent(
            scalar_mul(
                header(mpk, identity_hashes(ids), s).aa,
                scalar_inv(dec_aggregate(ids, id)),
            ) as int,
            mpk.g1 as int * scalar_mul(msk.y, power(s, ids.len())) as int,
        ),
{
    let hs = identity_hashes(ids);
    let hdr = header(mpk, hs, s);
    let rest = dec_aggregate(ids, id);
    let ai = scalar_inv(rest);
    let sn = power(s, ids.len());
    let (g1, y) = (mpk.g1 as int, msk.y as int);

    // the header's aggregate is s^n * rest
    lemma_others_of_outsider(ids, id);
    lemma_mul_congruent(sn, product(hs), sn as int, rest as int);
    let a = enc_aggregate(hs, s);

    // A^(1/rest) = g1^(y s^n)
    lemma_mul_congruent(mpk.g1, msk.y, g1, y);
    lemma_mul_congruent(mpk.yy, a, g1 * y, sn as int * rest as int);
    lemma_mul_congruent(hdr.aa, ai, g1 * y * (sn as int * rest as int), ai as int);
    assert(g1 * y * (sn as int * rest as int) * ai as int == g1 * (y * sn as int) * (rest as int
        * ai as int)) by (nonlinear_arith);
    lemma_congruent_products(g1 * (y * sn as int), rest as int * ai as int, g1 * (y * sn as int), 1);
    lemma_mul_congruent(msk.y, sn, y, sn as int);
    lemma_congruent_products(g1, y * sn as int, g1, scalar_mul(msk.y, sn) as int);
}

/// Hashing an identity twice gives the same scalar: two scalars that were
/// hashed from the same string stand for the same integer.
pub proof fn law_identity_hash_repeats(a: &str, b: &str, first: Fr, second: Fr)
    requires
        a@ == b@,
        fr_value(first) == identity_hash(a.spec_bytes()),
        fr_value(second) == identity_hash(b.spec_bytes()),
    ensures
        fr_value(first) == fr_value(second),
{
}

/// A key recovers a given power of the generators' pairing from a header
/// exactly if the aggregate has an inverse and `T^g2` is `g^(e * t)`:
/// whatever the header and the list, for a secret key with the denominator
/// `t` over the generator `g2`.
pub proof fn law_key_recovers_exactly(
    msk: MskView,
    mpk: MpkView,
    id: Seq<u8>,
    sk: SkView,
    hdr: HdrView,
    ids: Seq<Seq<u8>>,
    k: Gt,
    e: nat,
    opened: Option<Gt>,
)
    requires
        secret_key(mpk, msk, identity_hash(id), sk.r) == Some(sk),
        is_gt_power(k, e),
        e < modulus(),
        opened == decapsulation(sk, hdr, id, ids),
        opened matches Some(o) ==> is_gt_power(
            o,
            opened_exponent(sk, hdr, scalar_inv(dec_aggregate(ids, id))),
        ),
    ensures
        opened == Some(k) <==> invertible(dec_aggregate(ids, id)) && scalar_mul(
            opened_point(sk, hdr, scalar_inv(dec_aggregate(ids, id))),
            mpk.g2,
        ) == scalar_mul(e, key_denominator(msk, identity_hash(id), sk.r)),
{
    let t = key_denominator(msk, identity_hash(id), sk.r);
    let ai = scalar_inv(dec_aggregate(ids, id));
    lemma_key_on_point(mpk.g2, t, scalar_inv(t), opened_point(sk, hdr, ai), e);
}

/// A member of the list recovers the session key: for a list without
/// repetition, a secret key of one of its identities opens the header for
/// that list to the session key, wherever the hashes of the other
/// identities have an inverse and the header's extra factors of the session
/// scalar cancel.
pub proof fn law_member_round_trip(
    msk: MskView,
    mpk: MpkView,
    ids: Seq<Seq<u8>>,
    id: Seq<u8>,
    sk: SkView,
    s: nat,
)
    requires
        mpk == public_key(mpk.g1, mpk.g2, msk),
        secret_key(mpk, msk, identity_hash(id), sk.r) == Some(sk),
        ids.no_duplicates(),
        ids.contains(id),
        invertible(dec_aggregate(ids, id)),
        session_factors_cancel(msk, identity_hash(id), s, ids.len()),
    ensures
        decapsulation(sk, header(mpk, identity_hashes(ids), s), id, ids) == Some(
            gt_power(session_exponent(mpk, s)),
        ),
{
    let h = identity_hash(id);
    let hdr = header(mpk, identity_hashes(ids), s);
    let ai = scalar_inv(dec_aggregate(ids, id));
    lemma_member_first_term(msk, mpk, ids, id, s);
    lemma_recovers_iff(
        msk,
        mpk,
        h,
        sk,
        s,
        hdr,
        ai,
        scalar_mul(msk.y, scalar_mul(power(s, ids.len()), h)),
    );
}

/// A session key encapsulated for one identity alone is recovered by a
/// secret key of that identity: whatever the master key pair, the identity,
/// the key's scalar and the session scalar, opening the header for the list
/// of that one identity gives the session key back.
pub proof fn law_single_recipient_round_trip(
    msk: MskView,
    mpk: MpkView,
    id: Seq<u8>,
    sk: SkView,
    s: nat,
)
    requires
        mpk == public_key(mpk.g1, mpk.g2, msk),
        secret_key(mpk, msk, identity_hash(id), sk.r) == Some(sk),
    ensures
        decapsulation(sk, header(mpk, identity_hashes(seq![id]), s), id, seq![id]) == Some(
            gt_power(session_exponent(mpk, s)),
        ),
{
    let ids = seq![id];
    let h = identity_hash(id);
    assert(ids[0] == id);

    // nothing is left of the list without `id`, so the aggregate is one
    assert(others(ids, id) == Seq::<Seq<u8>>::empty()) by {
        reveal_with_fuel(Seq::filter, 2);
        assert(ids.drop_last() == Seq::<Seq<u8>>::empty());
    }
    assert(identity_hashes(Seq::<Seq<u8>>::empty()) == Seq::<nat>::empty());
    lemma_one_inverse();

    // s^1 is s
    assert(power(s, 1) == scalar_mul(1, s)) by {
        reveal_with_fuel(power, 2);
    }
    lemma_mul_congruent(1, s, 1, s as int);
    lemma_mul_congruent(power(s, 1), h, s as int, h as int);
    lemma_mul_congruent(msk.y, scalar_mul(power(s, 1), h), msk.y as int, s as int * h as int);
    lemma_mul_congruent(s, h, s as int, h as int);
    lemma_mul_congruent(msk.y, scalar_mul(s, h), msk.y as int, s as int * h as int);
    lemma_congruent_reduced(
        scalar_mul(msk.y, scalar_mul(power(s, 1), h)),
        scalar_mul(msk.y, scalar_mul(s, h)),
    );

    law_member_round_trip(msk, mpk, ids, id, sk, s);
}

/// A member of the list does not recover the session key where the extra
/// factors of the session scalar do not cancel: for a list without
/// repetition, what a secret key of one of its identities recovers from the
/// header for that list is not the session key, wherever `g^(y * s^n * h)`
/// is not `g^(y * s * h)`.
pub proof fn law_member_misses(
    msk: MskView,
    mpk: MpkView,
    ids: Seq<Seq<u8>>,
    id: Seq<u8>,
    sk: SkView,
    s: nat,
    k: Gt,
    opened: Option<Gt>,
)
    requires
        mpk == public_key(mpk.g1, mpk.g2, msk),
        secret_key(mpk, msk, identity_hash(id), sk.r) == Some(sk),
        ids.no_duplicates(),
        ids.contains(id),
        is_gt_power(k, session_exponent(mpk, s)),
        opened == decapsulation(sk, header(mpk, identity_hashes(ids), s), id, ids),
        opened matches Some(o) ==> is_gt_power(
            o,
            opened_exponent(
                sk,
                header(mpk, identity_hashes(ids), s),
                scalar_inv(dec_aggregate(ids, id)),
            ),
        ),
        scalar_mul(
            pairing_base(mpk),
            scalar_mul(msk.y, scalar_mul(power(s, ids.len()), identity_hash(id))),
        ) != scalar_mul(
            pairing_base(mpk),
            scalar_mul(msk.y, scalar_mul(s, identity_hash(id))),
        ),
    ensures
        opened != Some(k),
{
    if invertible(dec_aggregate(ids, id)) {
        let h = identity_hash(id);
        let hdr = header(mpk, identity_hashes(ids), s);
        let ai = scalar_inv(dec_aggregate(ids, id));
        lemma_member_first_term(msk, mpk, ids, id, s);
        lemma_recovers_iff(
            msk,
            mpk,
            h,
            sk,
            s,
            hdr,
            ai,
            scalar_mul(msk.y, scalar_mul(power(s, ids.len()), h)),
        );
    }
}

/// Who is not in the list does not recover the session key: what a secret
/// key of an identity outside the list recovers from the header for that
/// list is not the session key, wherever `g^(y * s^n)` is not
/// `g^(y * s * h)` for the hash `h` of that identity.
pub proof fn law_outsider_misses(
    msk: MskView,
    mpk: MpkView,
    ids: Seq<Seq<u8>>,
    id: Seq<u8>,
    sk: SkView,
    s: nat,
    k: Gt,
    opened: Option<Gt>,
)
    requires
        mpk == public_key(mpk.g1, mpk.g2, msk),
        secret_key(mpk, msk, identity_hash(id), sk.r) == Some(sk),
        !ids.contains(id),
        is_gt_power(k, session_exponent(mpk, s)),
        opened == decapsulation(sk, header(mpk, identity_hashes(ids), s), id, ids),
        opened matches Some(o) ==> is_gt_power(
            o,
            opened_exponent(
                sk,
                header(mpk, identity_hashes(ids), s),
                scalar_inv(dec_aggregate(ids, id)),
            ),
        ),
        scalar_mul(pairing_base(mpk), scalar_mul(msk.y, power(s, ids.len()))) != scalar_mul(
            pairing_base(mpk),
            scalar_mul(msk.y, scalar_mul(s, identity_hash(id))),
        ),
    ensures
        opened != Some(k),
{
    if invertible(dec_aggregate(ids, id)) {
        let h = identity_hash(id);
        let hdr = header(mpk, identity_hashes(ids), s);
        let ai = scalar_inv(dec_aggregate(ids, id));
        lemma_outsider_first_term(msk, mpk, ids, id, s);
        lemma_recovers_iff(msk, mpk, h, sk, s, hdr, ai, scalar_mul(msk.y, power(s, ids.len())));
    }
}

/// A key of one master key pair does not recover the session key of a
/// header of another: what it recovers is not that session key, wherever
/// `T^g2` for the key's generator is not `g^(e * t)` for the key's
/// denominator and the exponent `e` of the session key.
pub proof fn law_foreign_key_misses(
    msk: MskView,
    mpk: MpkView,
    other_mpk: MpkView,
    ids: Seq<Seq<u8>>,
    id: Seq<u8>,
    sk: SkView,
    s: nat,
    k: Gt,
    opened: Option<Gt>,
)
    requires
        secret_key(mpk, msk, identity_hash(id), sk.r) == Some(sk),
        is_gt_power(k, session_exponent(other_mpk, s)),
        opened == decapsulation(sk, header(other_mpk, identity_hashes(ids), s), id, ids),
        opened matches Some(o) ==> is_gt_power(
            o,
            opened_exponent(
                sk,
                header(other_mpk, identity_hashes(ids), s),
                scalar_inv(dec_aggregate(ids, id)),
            ),
        ),
        scalar_mul(
            opened_point(
                sk,
                header(other_mpk, identity_hashes(ids), s),
                scalar_inv(dec_aggregate(ids, id)),
            ),
            mpk.g2,
        ) != scalar_mul(
            session_exponent(other_mpk, s),
            key_denominator(msk, identity_hash(id), sk.r),
        ),
    ensures
        opened != Some(k),
{
    law_key_recovers_exactly(
        msk,
        mpk,
        id,
        sk,
        header(other_mpk, identity_hashes(ids), s),
        ids,
        k,
        session_exponent(other_mpk, s),
        opened,
    );
}

} // verus!
