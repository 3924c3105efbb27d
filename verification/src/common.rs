//! Hashing an identity to a scalar: the identity's bytes go through
//! SHAKE256, and the scalar is drawn from the output stream as from any
//! other source of randomness.

use vstd::prelude::*;
use vstd::string::StringSliceAdditionalSpecFns;
use crate::field::fr_value;
use crate::field::modulus;
use byteorder::ByteOrder;
use byteorder::LittleEndian;
use digest::ExtendableOutput;
use digest::Input;
use digest::XofReader;
use pairing::bls12_381::Fr;
use rand::Rand;
use rand::Rng;
use sha3::Sha3XofReader;
use sha3::Shake256;

verus! {

#[verifier::external_type_specification]
#[verifier::external_body]
pub struct ExShake256(Shake256);

#[verifier::external_type_specification]
#[verifier::external_body]
pub struct ExSha3XofReader(Sha3XofReader);

/// The bytes that a SHAKE256 state has taken in so far.
pub uninterp spec fn shake256_absorbed(state: Shake256) -> Seq<u8>;

/// The message whose SHAKE256 output a reader hands out.
pub uninterp spec fn xof_message(reader: Sha3XofReader) -> Seq<u8>;

/// How many bytes of the output a reader has handed out so far.
pub uninterp spec fn xof_position(reader: Sha3XofReader) -> nat;

/// Byte `i` of the SHAKE256 output for `message`.
pub uninterp spec fn shake256_byte(message: Seq<u8>, i: nat) -> u8;

/// The scalar that `Fr`'s sampling draws from a `HashRng` that stands at
/// byte `position` of the SHAKE256 output for `message`.
pub uninterp spec fn drawn_scalar(message: Seq<u8>, position: nat) -> nat;

/// The `len` bytes of the SHAKE256 output for `message` that start at byte
/// `from`.
pub open spec fn shake256_bytes(message: Seq<u8>, from: nat, len: nat) -> Seq<u8> {
    Seq::new(len, |i: int| shake256_byte(message, (from + i) as nat))
}

/// The number that `bytes` spell, least significant byte first.
pub open spec fn le_value(bytes: Seq<u8>) -> nat
    decreases bytes.len(),
{
    if bytes.len() == 0 {
        0
    } else {
        bytes[0] as nat + 256 * le_value(bytes.drop_first())
    }
}

/// The scalar that an identity hashes to.
pub open spec fn identity_hash(id: Seq<u8>) -> nat {
    drawn_scalar(id, 0)
}

/// `Default::default` of `Shake256`: a state that has taken in nothing.
pub assume_specification[ <Shake256 as Default>::default ]() -> (out: Shake256)
    ensures
        shake256_absorbed(out) == Seq::<u8>::empty(),
;

/// `Input::process` of `digest`, on `Shake256`: the state takes in `data`
/// after what it had.
pub assume_specification[ <Shake256 as Input>::process ](state: &mut Shake256, data: &[u8])
    ensures
        shake256_absorbed(*final(state)) == shake256_absorbed(*old(state)) + data@,
;

/// `ExtendableOutput::xof_result` of `digest`, on `Shake256`: a reader at
/// the start of the output for all that the state took in.
pub assume_specification[ <Shake256 as ExtendableOutput>::xof_result ](state: Shake256) -> (out:
    Sha3XofReader)
    ensures
        xof_message(out) == shake256_absorbed(state),
        xof_position(out) == 0,
;

/// `XofReader::read` of `digest`, on `Sha3XofReader`: the buffer is filled
/// with the next bytes of the output, and the reader moves past them.
pub assume_specification[ <Sha3XofReader as XofReader>::read ](
    reader: &mut Sha3XofReader,
    buffer: &mut [u8],
)
    ensures
        final(buffer)@.len() == old(buffer)@.len(),
        forall|i: int|
            0 <= i < old(buffer)@.len() ==> final(buffer)@[i] == shake256_byte(
                xof_message(*old(reader)),
                (xof_position(*old(reader)) + i) as nat,
            ),
        xof_message(*final(reader)) == xof_message(*old(reader)),
        xof_position(*final(reader)) == xof_position(*old(reader)) + old(buffer)@.len(),
;

/// `ByteOrder::read_u32` of `byteorder`, on `LittleEndian`: the number that
/// the first four bytes spell, least significant first.
pub assume_specification[ <LittleEndian as ByteOrder>::read_u32 ](buf: &[u8]) -> (out: u32)
    requires
        buf@.len() >= 4,
    ensures
        out == le_value(buf@.subrange(0, 4)),
;

/// `ByteOrder::read_u64` of `byteorder`, on `LittleEndian`: the number that
/// the first eight bytes spell, least significant first.
pub assume_specification[ <LittleEndian as ByteOrder>::read_u64 ](buf: &[u8]) -> (out: u64)
    requires
        buf@.len() >= 8,
    ensures
        out == le_value(buf@.subrange(0, 8)),
;

/// A source of randomness that hands out the SHAKE256 output for a message.
pub struct HashRng(Sha3XofReader);

impl HashRng {
    /// The message whose SHAKE256 output this source hands out.
    pub closed spec fn message(&self) -> Seq<u8> {
        xof_message(self.0)
    }

    /// How many bytes of the output this source has handed out.
    pub closed spec fn position(&self) -> nat {
        xof_position(self.0)
    }

    /// The next `len` bytes that this source will hand out.
    pub open spec fn upcoming(&self, len: nat) -> Seq<u8> {
        shake256_bytes(self.message(), self.position(), len)
    }

    /// This source after it has handed out `len` more bytes.
    pub open spec fn advanced(&self, next: &HashRng, len: nat) -> bool {
        &&& next.message() == self.message()
        &&& next.position() == self.position() + len
    }

    /// A source at the start of the SHAKE256 output for `value`.
    pub fn new(value: &[u8]) -> (out: HashRng)
        ensures
            out.message() == value@,
            out.position() == 0,
    {
        let mut hasher = Shake256::default();
        hasher.process(value);
        HashRng(hasher.xof_result())
    }
}

impl Rng for HashRng {
    fn next_u32(&mut self) -> (out: u32)
        ensures
            out == le_value(old(self).upcoming(4)),
            old(self).advanced(final(self), 4),
    {
        let mut bytes = [0u8; 4];
        self.fill_bytes(&mut bytes);
        assert(bytes@.subrange(0, 4) =~= bytes@);
        LittleEndian::read_u32(&bytes)
    }

    fn next_u64(&mut self) -> (out: u64)
        ensures
            out == le_value(old(self).upcoming(8)),
            old(self).advanced(final(self), 8),
    {
        let mut bytes = [0u8; 8];
        self.fill_bytes(&mut bytes);
        assert(bytes@.subrange(0, 8) =~= bytes@);
        LittleEndian::read_u64(&bytes)
    }

    fn fill_bytes(&mut self, dest: &mut [u8])
        ensures
            final(dest)@ == old(self).upcoming(old(dest)@.len()),
            old(self).advanced(final(self), old(dest)@.len()),
    {
        self.0.read(dest)
    }
}

/// `Rand::rand` of `rand`, on `Fr`, drawing from a `HashRng`: the source
/// hands out nothing but the output for its message, so the scalar drawn
/// is fixed by the message and by where the source stands.
#[verifier::external_body]
fn draw_scalar(rng: &mut HashRng) -> (out: Fr)
    ensures
        fr_value(out) == drawn_scalar(old(rng).message(), old(rng).position()),
        fr_value(out) < modulus(),
{
    Fr::rand(rng)
}

/// The scalar that the identity `id` hashes to: the one drawn from the
/// SHAKE256 output for the bytes of `id`.
pub fn str_to_fr(id: &str) -> (out: Fr)
    ensures
        fr_value(out) == identity_hash(id.spec_bytes()),
        fr_value(out) < modulus(),
{
    let mut rng = HashRng::new(id.as_bytes());
    draw_scalar(&mut rng)
}

} // verus!
