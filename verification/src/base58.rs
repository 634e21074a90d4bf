//! Base58 encoding and decoding, carried out by the `bs58` crate.
//!
//! The exact byte-level result of a base58 conversion is a pure function of
//! its input; it is given a name here rather than restated, and the rest of
//! the library speaks of that name.

use vstd::prelude::*;

verus! {

/// The bytes that `bs58::decode` (Bitcoin alphabet) yields for `s`, or
/// `None` where it reports an error.
pub uninterp spec fn base58_decoding(s: Seq<u8>) -> Option<Seq<u8>>;

/// The base58 rendering (Bitcoin alphabet) that `bs58::encode` yields for
/// `b`, as the bytes of the produced string.
pub uninterp spec fn base58_encoding(b: Seq<u8>) -> Seq<u8>;

/// Relies on `bs58::decode(..).into_vec()`: decoding is a pure function of
/// the input bytes, failing exactly on input the crate rejects (a byte
/// outside the Bitcoin base58 alphabet).
#[verifier::external_body]
pub(crate) fn base58_decode(s: &[u8]) -> (r: Option<Vec<u8>>)
    ensures
        match r {
            Some(v) => base58_decoding(s@) == Some(v@),
            None => base58_decoding(s@) is None,
        },
{
    bs58::decode(s).into_vec().ok()
}

/// Relies on `bs58::encode(..).into_vec()`: encoding is a pure function of
/// the input bytes and always succeeds.
#[verifier::external_body]
pub(crate) fn base58_encode(b: &[u8]) -> (r: Vec<u8>)
    ensures
        r@ == base58_encoding(b@),
{
    bs58::encode(b).into_vec()
}

} // verus!
