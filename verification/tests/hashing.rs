use ibbe::common::str_to_fr;
use ibbe::common::HashRng;
use pairing::bls12_381::{Fr, FrRepr};
use pairing::PrimeField;
use rand::{Rand, Rng};

fn scalar(limbs: [u64; 4]) -> Fr {
    Fr::from_repr(FrRepr(limbs)).unwrap()
}

// SHAKE256 of the empty message starts 46 b9 dd 2b 0b a8 8d 13 23 3b 3f eb 74 3e eb 24.

#[test]
fn next_u32_reads_four_bytes_least_significant_first() {
    let mut rng = HashRng::new(b"");
    assert_eq!(rng.next_u32(), 0x2bddb946);
    assert_eq!(rng.next_u32(), 0x138da80b);
    assert_eq!(rng.next_u32(), 0xeb3f3b23);
}

#[test]
fn next_u64_reads_eight_bytes_least_significant_first() {
    let mut rng = HashRng::new(b"");
    assert_eq!(rng.next_u64(), 0x138da80b2bddb946);
    assert_eq!(rng.next_u64(), 0x24eb3e74eb3f3b23);
}

#[test]
fn fill_bytes_hands_out_the_stream_in_order() {
    let mut rng = HashRng::new(b"alice@ibe.rs");
    let mut head = [0u8; 5];
    let mut tail = [0u8; 11];
    rng.fill_bytes(&mut head);
    rng.fill_bytes(&mut tail);
    assert_eq!(head, [0xfb, 0x17, 0x5e, 0xa1, 0xdb]);
    assert_eq!(tail, [0x8d, 0x9d, 0x81, 0xe1, 0xbe, 0x59, 0x8f, 0x35, 0x04, 0x9b, 0xfe]);
}

#[test]
fn fill_bytes_takes_an_empty_buffer() {
    let mut rng = HashRng::new(b"");
    let mut none = [0u8; 0];
    rng.fill_bytes(&mut none);
    assert_eq!(rng.next_u32(), 0x2bddb946);
}

#[test]
fn mixed_reads_share_one_position() {
    let mut rng = HashRng::new(b"");
    assert_eq!(rng.next_u32(), 0x2bddb946);
    assert_eq!(rng.next_u64(), 0xeb3f3b23138da80b);
}

#[test]
fn empty_identity_hashes_to_known_scalar() {
    let expected = scalar([
        0xbcbf4b316ab51935,
        0xa12870c96346f7f3,
        0xfd9e3faa37d0b669,
        0x05adb09e4fbce604,
    ]);
    assert_eq!(str_to_fr(""), expected);
}

// The first 32 bytes of the stream for this identity are no scalar, so the second 32 are taken.
#[test]
fn alice_hashes_to_known_scalar_after_one_rejection() {
    let expected = scalar([
        0x7fda44dc40b2f029,
        0xdab0da05335c96f4,
        0x35d708798064dd23,
        0x51d14ba2c2e147f2,
    ]);
    assert_eq!(str_to_fr("alice@ibe.rs"), expected);
}

#[test]
fn bob_hashes_to_known_scalar() {
    let expected = scalar([
        0xde2570bf68fb062d,
        0x41405355b9108210,
        0x9be7f713861556ce,
        0x34c89842c2563021,
    ]);
    assert_eq!(str_to_fr("bob@ibe.rs"), expected);
}

#[test]
fn two_rejections_are_passed_over() {
    let expected = scalar([
        0xda5cdbc57e4c4fc6,
        0xfa6d1401c403be8c,
        0xe6d962c6aa6b48d5,
        0x4db807023470d24d,
    ]);
    assert_eq!(str_to_fr("id-0"), expected);
}

#[test]
fn hashing_twice_gives_the_same_scalar() {
    assert_eq!(str_to_fr("alice@ibe.rs"), str_to_fr("alice@ibe.rs"));
    assert_eq!(str_to_fr(""), str_to_fr(""));
    assert_eq!(str_to_fr("carol@ibe.rs"), str_to_fr("carol@ibe.rs"));
}

#[test]
fn distinct_identities_hash_apart() {
    assert_ne!(str_to_fr("alice@ibe.rs"), str_to_fr("bob@ibe.rs"));
    assert_ne!(str_to_fr("alice@ibe.rs"), str_to_fr("alice@ibe.rs "));
    assert_ne!(str_to_fr(""), str_to_fr("\0"));
}

#[test]
fn identity_hash_is_the_draw_from_a_fresh_source() {
    let mut rng = HashRng::new("bob@ibe.rs".as_bytes());
    assert_eq!(Fr::rand(&mut rng), str_to_fr("bob@ibe.rs"));
}

#[test]
fn non_ascii_identity_is_hashed_by_its_utf8_bytes() {
    let mut rng = HashRng::new(&[0xc3, 0xa9]);
    assert_eq!(Fr::rand(&mut rng), str_to_fr("\u{e9}"));
}
