use vstd::prelude::*;

use ed25519_dalek::Signature;
use ed25519_dalek::Signer;
use ed25519_dalek::SigningKey;
use ed25519_dalek::Verifier;
use ed25519_dalek::VerifyingKey;
use sha3::Digest;
use sha3::Sha3_256;

verus! {

/// The SHA3-256 digest of a byte string: a function of the input bytes alone.
pub uninterp spec fn sha3_of(data: Seq<u8>) -> Seq<u8>;

/// The public key derived from a 32-byte ed25519 signing seed: key
/// derivation is deterministic.
pub uninterp spec fn pk_of(seed: Seq<u8>) -> Seq<u8>;

/// The ed25519 signature over a message by the key with the given seed:
/// ed25519 signing is deterministic.
pub uninterp spec fn sig_of(seed: Seq<u8>, msg: Seq<u8>) -> Seq<u8>;

/// Whether `pk` parses as an ed25519 public key and `sig` as a signature
/// that checks out for `msg` under it: a function of the three byte strings
/// alone.
pub uninterp spec fn sig_valid(pk: Seq<u8>, msg: Seq<u8>, sig: Seq<u8>) -> bool;

/// Relies on sha3::Sha3_256 through the Digest trait: the 32-byte SHA3-256
/// digest of the input, a deterministic function of the input bytes.
#[verifier::external_body]
pub(crate) fn sha3_digest(data: &Vec<u8>) -> (r: Vec<u8>)
    ensures
        r@ == sha3_of(data@),
        r@.len() == 32,
{
    Sha3_256::digest(data.as_slice()).to_vec()
}

/// Relies on ed25519_dalek::SigningKey::from_bytes and SigningKey::verifying_key:
/// the public key derived from a seed, 32 bytes, deterministic.
#[verifier::external_body]
pub(crate) fn ed25519_public_key(seed: &Vec<u8>) -> (r: Vec<u8>)
    requires
        seed@.len() == 32,
    ensures
        r@ == pk_of(seed@),
        r@.len() == 32,
{
    let mut s = [0u8; 32];
    s.copy_from_slice(seed.as_slice());
    SigningKey::from_bytes(&s).verifying_key().to_bytes().to_vec()
}

/// Relies on ed25519_dalek::SigningKey::from_bytes and Signer::sign: a
/// deterministic 64-byte signature; the crate's documentation states that it
/// verifies under the key derived from the same seed.
#[verifier::external_body]
pub(crate) fn ed25519_sign(seed: &Vec<u8>, msg: &Vec<u8>) -> (r: Vec<u8>)
    requires
        seed@.len() == 32,
    ensures
        r@ == sig_of(seed@, msg@),
        r@.len() == 64,
        sig_valid(pk_of(seed@), msg@, r@),
{
    let mut s = [0u8; 32];
    s.copy_from_slice(seed.as_slice());
    let sk = SigningKey::from_bytes(&s);
    sk.sign(msg.as_slice()).to_bytes().to_vec()
}

/// Relies on ed25519_dalek::VerifyingKey::verify (with VerifyingKey::try_from
/// and Signature::from_slice converting the inputs): whether the bytes parse
/// as a key and a signature that checks out for the message.
#[verifier::external_body]
pub(crate) fn ed25519_verify(pk: &Vec<u8>, msg: &Vec<u8>, sig: &Vec<u8>) -> (r: bool)
    ensures
        r == sig_valid(pk@, msg@, sig@),
{
    let k = match VerifyingKey::try_from(pk.as_slice()) {
        Ok(k) => k,
        Err(_) => return false,
    };
    let s = match Signature::from_slice(sig.as_slice()) {
        Ok(s) => s,
        Err(_) => return false,
    };
    k.verify(msg.as_slice(), &s).is_ok()
}

} // verus!
