use ibbe::common::HashRng;
use ibbe::{dec, enc, enc_with, keygen, keygen_with, same_identity, setup, setup_with};
use ibbe::KEYGEN_ATTEMPTS;
use pairing::bls12_381::{Fr, G1, G2};
use pairing::Field;
use rand::{thread_rng, Rand};

#[test]
fn single_recipient_round_trip() {
    let mut rng = thread_rng();

    let (msk, mpk) = setup(&mut rng);
    let sk = keygen(&mut rng, &mpk, &msk, "alice@ibe.rs").unwrap();
    let (k, ct) = enc(&mut rng, &mpk, &["alice@ibe.rs"]);
    let k2 = dec(&sk, &ct, "alice@ibe.rs", &["alice@ibe.rs"]).unwrap();
    assert_eq!(k, k2);
}

#[test]
fn single_recipient_round_trip_repeats() {
    let mut rng = thread_rng();
    for id in ["alice@ibe.rs", "bob@ibe.rs", "", "\u{e9}t\u{e9}"] {
        let (msk, mpk) = setup(&mut rng);
        let sk = keygen(&mut rng, &mpk, &msk, id).unwrap();
        let (k, ct) = enc(&mut rng, &mpk, &[id]);
        assert_eq!(dec(&sk, &ct, id, &[id]), Some(k));
    }
}

#[test]
fn header_opens_any_number_of_times() {
    let mut rng = thread_rng();
    let (msk, mpk) = setup(&mut rng);
    let sk = keygen(&mut rng, &mpk, &msk, "alice@ibe.rs").unwrap();
    let (k, ct) = enc(&mut rng, &mpk, &["alice@ibe.rs"]);
    assert_eq!(dec(&sk, &ct, "alice@ibe.rs", &["alice@ibe.rs"]), Some(k));
    assert_eq!(dec(&sk, &ct, "alice@ibe.rs", &["alice@ibe.rs"]), Some(k));
}

#[test]
fn two_keys_of_one_identity_open_the_same_header() {
    let mut rng = thread_rng();
    let (msk, mpk) = setup(&mut rng);
    let first = keygen(&mut rng, &mpk, &msk, "alice@ibe.rs").unwrap();
    let second = keygen(&mut rng, &mpk, &msk, "alice@ibe.rs").unwrap();
    let (k, ct) = enc(&mut rng, &mpk, &["alice@ibe.rs"]);
    assert_eq!(dec(&first, &ct, "alice@ibe.rs", &["alice@ibe.rs"]), Some(k));
    assert_eq!(dec(&second, &ct, "alice@ibe.rs", &["alice@ibe.rs"]), Some(k));
}

// Each identity brings its own factor of the session scalar into the header's
// aggregate, and opening divides none of them out: with two identities or
// more a member recovers a key, but not the session key.
#[test]
fn two_recipients_member_does_not_recover_session_key() {
    let mut rng = thread_rng();

    let (msk, mpk) = setup(&mut rng);
    let sk = keygen(&mut rng, &mpk, &msk, "alice@ibe.rs").unwrap();
    let (k, ct) = enc(&mut rng, &mpk, &["alice@ibe.rs", "bob@ibe.rs"]);
    let k2 = dec(&sk, &ct, "alice@ibe.rs", &["alice@ibe.rs", "bob@ibe.rs"]).unwrap();
    assert_ne!(k, k2);
}

#[test]
fn three_recipients_no_member_recovers_session_key() {
    let mut rng = thread_rng();
    let ids = ["alice@ibe.rs", "bob@ibe.rs", "carol@ibe.rs"];

    let (msk, mpk) = setup(&mut rng);
    let (k, ct) = enc(&mut rng, &mpk, &ids);
    for id in ids {
        let sk = keygen(&mut rng, &mpk, &msk, id).unwrap();
        let opened = dec(&sk, &ct, id, &ids);
        assert!(opened.is_some());
        assert_ne!(opened, Some(k));
    }
}

// With the session scalar one, the extra factors are all one.
#[test]
fn three_recipients_recover_session_key_for_session_scalar_one() {
    let mut rng = thread_rng();
    let ids = ["alice@ibe.rs", "bob@ibe.rs", "carol@ibe.rs"];

    let (msk, mpk) = setup(&mut rng);
    let (k, ct) = enc_with(&mpk, &ids, Fr::one());
    for id in ids {
        let sk = keygen(&mut rng, &mpk, &msk, id).unwrap();
        assert_eq!(dec(&sk, &ct, id, &ids), Some(k));
    }
}

#[test]
fn outsider_does_not_recover_session_key() {
    let mut rng = thread_rng();
    let (msk, mpk) = setup(&mut rng);
    let sk = keygen(&mut rng, &mpk, &msk, "mallory@ibe.rs").unwrap();
    let (k, ct) = enc(&mut rng, &mpk, &["alice@ibe.rs"]);
    assert_ne!(dec(&sk, &ct, "mallory@ibe.rs", &["alice@ibe.rs"]), Some(k));
}

#[test]
fn key_of_another_identity_does_not_open() {
    let mut rng = thread_rng();
    let (msk, mpk) = setup(&mut rng);
    let sk = keygen(&mut rng, &mpk, &msk, "bob@ibe.rs").unwrap();
    let (k, ct) = enc(&mut rng, &mpk, &["alice@ibe.rs"]);
    assert_ne!(dec(&sk, &ct, "alice@ibe.rs", &["alice@ibe.rs"]), Some(k));
}

#[test]
fn keys_of_one_setup_do_not_open_headers_of_another() {
    let mut rng = thread_rng();
    let (msk1, mpk1) = setup(&mut rng);
    let (msk2, mpk2) = setup(&mut rng);
    let sk1 = keygen(&mut rng, &mpk1, &msk1, "alice@ibe.rs").unwrap();
    let sk2 = keygen(&mut rng, &mpk2, &msk2, "alice@ibe.rs").unwrap();
    let (k1, ct1) = enc(&mut rng, &mpk1, &["alice@ibe.rs"]);
    let (k2, ct2) = enc(&mut rng, &mpk2, &["alice@ibe.rs"]);
    assert_ne!(dec(&sk1, &ct2, "alice@ibe.rs", &["alice@ibe.rs"]), Some(k2));
    assert_ne!(dec(&sk2, &ct1, "alice@ibe.rs", &["alice@ibe.rs"]), Some(k1));
    assert_eq!(dec(&sk1, &ct1, "alice@ibe.rs", &["alice@ibe.rs"]), Some(k1));
    assert_eq!(dec(&sk2, &ct2, "alice@ibe.rs", &["alice@ibe.rs"]), Some(k2));
}

#[test]
fn setup_from_one_seed_is_repeatable() {
    let mut a = HashRng::new(b"seed");
    let mut b = HashRng::new(b"seed");
    let (msk_a, mpk_a) = setup(&mut a);
    let (_msk_b, mpk_b) = setup(&mut b);
    let sk = keygen(&mut a, &mpk_a, &msk_a, "alice@ibe.rs").unwrap();
    let (k, ct) = enc_with(&mpk_b, &["alice@ibe.rs"], Fr::one());
    assert_eq!(dec(&sk, &ct, "alice@ibe.rs", &["alice@ibe.rs"]), Some(k));
}

#[test]
fn enc_with_is_fixed_by_the_session_scalar() {
    let mut rng = thread_rng();
    let (msk, mpk) = setup(&mut rng);
    let s = Fr::rand(&mut rng);
    let (k1, ct1) = enc_with(&mpk, &["alice@ibe.rs"], s);
    let (k2, ct2) = enc_with(&mpk, &["alice@ibe.rs"], s);
    assert_eq!(k1, k2);
    let sk = keygen(&mut rng, &mpk, &msk, "alice@ibe.rs").unwrap();
    assert_eq!(dec(&sk, &ct1, "alice@ibe.rs", &["alice@ibe.rs"]), Some(k1));
    assert_eq!(dec(&sk, &ct2, "alice@ibe.rs", &["alice@ibe.rs"]), Some(k1));
}

#[test]
fn session_keys_of_two_runs_differ() {
    let mut rng = thread_rng();
    let (_msk, mpk) = setup(&mut rng);
    let (k1, _) = enc(&mut rng, &mpk, &["alice@ibe.rs"]);
    let (k2, _) = enc(&mut rng, &mpk, &["alice@ibe.rs"]);
    assert_ne!(k1, k2);
}

#[test]
fn keygen_with_gives_a_key_that_opens() {
    let mut rng = thread_rng();
    let (msk, mpk) = setup(&mut rng);
    let r = Fr::rand(&mut rng);
    let sk = keygen_with(&mpk, &msk, "alice@ibe.rs", r).unwrap();
    let (k, ct) = enc(&mut rng, &mpk, &["alice@ibe.rs"]);
    assert_eq!(dec(&sk, &ct, "alice@ibe.rs", &["alice@ibe.rs"]), Some(k));
}

#[test]
fn no_key_for_an_all_zero_master_secret() {
    let mut rng = thread_rng();
    let (msk, mpk) = setup_with(G1::rand(&mut rng), G2::rand(&mut rng), Fr::zero(), Fr::zero());
    assert!(keygen_with(&mpk, &msk, "alice@ibe.rs", Fr::rand(&mut rng)).is_none());
    assert!(keygen(&mut rng, &mpk, &msk, "alice@ibe.rs").is_none());
    assert_eq!(KEYGEN_ATTEMPTS, 128);
}

#[test]
fn no_key_for_the_one_scalar_that_cancels() {
    // t = (r + h) * y + x is zero for r = -x / y - h
    let mut rng = thread_rng();
    let x = Fr::rand(&mut rng);
    let y = Fr::rand(&mut rng);
    let (msk, mpk) = setup_with(G1::rand(&mut rng), G2::rand(&mut rng), x, y);
    let mut r = x;
    r.mul_assign(&y.inverse().unwrap());
    r.add_assign(&ibbe::common::str_to_fr("alice@ibe.rs"));
    r.negate();
    assert!(keygen_with(&mpk, &msk, "alice@ibe.rs", r).is_none());
    r.add_assign(&Fr::one());
    assert!(keygen_with(&mpk, &msk, "alice@ibe.rs", r).is_some());
}

#[test]
fn key_is_there_when_no_scalar_can_cancel() {
    // with y = 0, t = x whatever is drawn
    let mut rng = thread_rng();
    let x = Fr::rand(&mut rng);
    let (msk, mpk) = setup_with(G1::rand(&mut rng), G2::rand(&mut rng), x, Fr::zero());
    assert!(keygen(&mut rng, &mpk, &msk, "alice@ibe.rs").is_some());
}

#[test]
fn setup_with_known_scalars_round_trips() {
    let mut rng = thread_rng();
    let x = Fr::rand(&mut rng);
    let y = Fr::rand(&mut rng);
    let (msk, mpk) = setup_with(G1::rand(&mut rng), G2::rand(&mut rng), x, y);
    let sk = keygen(&mut rng, &mpk, &msk, "bob@ibe.rs").unwrap();
    let (k, ct) = enc(&mut rng, &mpk, &["bob@ibe.rs"]);
    assert_eq!(dec(&sk, &ct, "bob@ibe.rs", &["bob@ibe.rs"]), Some(k));
}

#[test]
fn empty_list_gives_a_header_that_no_key_opens() {
    let mut rng = thread_rng();
    let (msk, mpk) = setup(&mut rng);
    let sk = keygen(&mut rng, &mpk, &msk, "alice@ibe.rs").unwrap();
    let (k, ct) = enc(&mut rng, &mpk, &[]);
    let opened = dec(&sk, &ct, "alice@ibe.rs", &[]);
    assert!(opened.is_some());
    assert_ne!(opened, Some(k));
}

#[test]
fn repeated_own_identity_is_left_out_each_time() {
    // every entry equal to `id` is passed over, so opening [id, id] is opening [id]
    let mut rng = thread_rng();
    let (msk, mpk) = setup(&mut rng);
    let sk = keygen(&mut rng, &mpk, &msk, "alice@ibe.rs").unwrap();
    let (_, ct) = enc(&mut rng, &mpk, &["alice@ibe.rs"]);
    assert_eq!(
        dec(&sk, &ct, "alice@ibe.rs", &["alice@ibe.rs", "alice@ibe.rs"]),
        dec(&sk, &ct, "alice@ibe.rs", &["alice@ibe.rs"])
    );
}

#[test]
fn order_of_the_others_does_not_matter() {
    let mut rng = thread_rng();
    let (msk, mpk) = setup(&mut rng);
    let sk = keygen(&mut rng, &mpk, &msk, "alice@ibe.rs").unwrap();
    let (_, ct) = enc(&mut rng, &mpk, &["alice@ibe.rs", "bob@ibe.rs", "carol@ibe.rs"]);
    assert_eq!(
        dec(&sk, &ct, "alice@ibe.rs", &["alice@ibe.rs", "bob@ibe.rs", "carol@ibe.rs"]),
        dec(&sk, &ct, "alice@ibe.rs", &["carol@ibe.rs", "alice@ibe.rs", "bob@ibe.rs"])
    );
}

#[test]
fn same_identity_compares_bytes() {
    assert!(same_identity("alice@ibe.rs", "alice@ibe.rs"));
    assert!(same_identity("", ""));
    assert!(!same_identity("alice@ibe.rs", "bob@ibe.rs"));
    assert!(!same_identity("alice@ibe.rs", "alice@ibe.rt"));
    assert!(!same_identity("alice", "alice@ibe.rs"));
    assert!(!same_identity("alice@ibe.rs", "alice"));
    assert!(!same_identity("", "a"));
    assert!(same_identity("\u{e9}", "\u{e9}"));
    assert!(!same_identity("\u{e9}", "e"));
}
