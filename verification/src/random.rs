use vstd::prelude::*;

use blake2::Digest;
use parity_scale_codec::Encode;

verus! {

/// The SCALE encoding of one call's payload: the host entropy seed, the
/// caller identity and the call-sequence discriminant, as one tuple.
pub uninterp spec fn scale_payload(seed: Seq<u8>, caller: u64, index: u64) -> Seq<u8>;

/// The 16-byte BLAKE2b digest of a byte string.
pub uninterp spec fn blake2b_128(data: Seq<u8>) -> Seq<u8>;

/// Relies on parity_scale_codec's `Encode::encode` for the tuple
/// `(&Vec<u8>, u64, u64)`: the encoding is a function of the three values
/// alone. The byte vector's compact length prefix only holds lengths up to
/// `u32::MAX`; the encoder aborts beyond that, so such seeds are ruled out.
#[verifier::external_body]
fn encode_payload(seed: &Vec<u8>, caller: u64, index: u64) -> (r: Vec<u8>)
    requires
        seed@.len() <= u32::MAX,
    ensures
        r@ == scale_payload(seed@, caller, index),
{
    (seed, caller, index).encode()
}

/// Relies on blake2's `Blake2b128` through `Digest::digest`: a 16-byte
/// digest that is a function of the input bytes alone.
#[verifier::external_body]
fn digest_16(data: &Vec<u8>) -> (r: [u8; 16])
    ensures
        r@ == blake2b_128(data@),
{
    blake2::Blake2b128::digest(data.as_slice()).into()
}

/// The pseudo-random value derived for one call: the 16-byte digest of the
/// SCALE-encoded (entropy seed, caller, call index) payload.
pub open spec fn derive_spec(seed: Seq<u8>, caller: u64, index: u64) -> Seq<u8> {
    blake2b_128(scale_payload(seed, caller, index))
}

/// Derives the 16-byte pseudo-random value for one call. Identical inputs
/// always yield identical output, so a run can be replayed.
pub fn derive(seed: &Vec<u8>, caller: u64, index: u64) -> (r: [u8; 16])
    requires
        seed@.len() <= u32::MAX,
    ensures
        r@ == derive_spec(seed@, caller, index),
{
    let payload = encode_payload(seed, caller, index);
    digest_16(&payload)
}

} // verus!
