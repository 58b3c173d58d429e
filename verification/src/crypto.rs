//! Hashing and signature verification, carried out by cryptoxide and
//! secp256k1 behind trusted wrappers. Each digest is a function of the
//! input bytes alone, so it is given a name rather than a specification.

use vstd::prelude::*;
use cryptoxide::blake2b::Blake2b;
use cryptoxide::digest::Digest;
use cryptoxide::ripemd160::Ripemd160;
use cryptoxide::sha2::Sha256;
use cryptoxide::sha3::{Keccak256, Sha3_256};
use crate::error::MachineError;

verus! {

/// The SHA2-256 digest of the input.
pub uninterp spec fn sha2_256_of(b: Seq<u8>) -> Seq<u8>;

/// The SHA3-256 digest of the input.
pub uninterp spec fn sha3_256_of(b: Seq<u8>) -> Seq<u8>;

/// The 224-bit BLAKE2b digest of the input.
pub uninterp spec fn blake2b_224_of(b: Seq<u8>) -> Seq<u8>;

/// The 256-bit BLAKE2b digest of the input.
pub uninterp spec fn blake2b_256_of(b: Seq<u8>) -> Seq<u8>;

/// The Keccak-256 digest of the input.
pub uninterp spec fn keccak_256_of(b: Seq<u8>) -> Seq<u8>;

/// The RIPEMD-160 digest of the input.
pub uninterp spec fn ripemd_160_of(b: Seq<u8>) -> Seq<u8>;

/// Whether an Ed25519 signature over the message verifies under the
/// 32-byte public key.
pub uninterp spec fn ed25519_valid(pk: Seq<u8>, msg: Seq<u8>, sig: Seq<u8>) -> bool;

/// Whether the ECDSA public key, compact signature and 32-byte message
/// digest all parse.
pub uninterp spec fn ecdsa_parse_ok(pk: Seq<u8>, msg: Seq<u8>, sig: Seq<u8>) -> bool;

/// Whether the parsed ECDSA signature verifies.
pub uninterp spec fn ecdsa_valid(pk: Seq<u8>, msg: Seq<u8>, sig: Seq<u8>) -> bool;

/// Whether the Schnorr x-only public key and signature parse.
pub uninterp spec fn schnorr_parse_ok(pk: Seq<u8>, sig: Seq<u8>) -> bool;

/// Whether the parsed BIP340 Schnorr signature verifies over the message.
pub uninterp spec fn schnorr_valid(pk: Seq<u8>, msg: Seq<u8>, sig: Seq<u8>) -> bool;

/// Relies on cryptoxide's `sha2::Sha256`: a 32-byte digest of the input.
#[verifier::external_body]
pub fn sha2_256(b: &Vec<u8>) -> (r: Vec<u8>)
    ensures
        r@ == sha2_256_of(b@),
        r@.len() == 32,
{
    let mut h = Sha256::new();
    h.input(b.as_slice());
    let mut out = vec![0u8; 32];
    h.result(&mut out);
    out
}

/// Relies on cryptoxide's `sha3::Sha3_256`: a 32-byte digest of the input.
#[verifier::external_body]
pub fn sha3_256(b: &Vec<u8>) -> (r: Vec<u8>)
    ensures
        r@ == sha3_256_of(b@),
        r@.len() == 32,
{
    let mut h = Sha3_256::new();
    h.input(b.as_slice());
    let mut out = vec![0u8; 32];
    h.result(&mut out);
    out
}

/// Relies on cryptoxide's `blake2b::Blake2b` with a 28-byte output.
#[verifier::external_body]
pub fn blake2b_224(b: &Vec<u8>) -> (r: Vec<u8>)
    ensures
        r@ == blake2b_224_of(b@),
        r@.len() == 28,
{
    let mut h = Blake2b::new(28);
    h.input(b.as_slice());
    let mut out = vec![0u8; 28];
    h.result(&mut out);
    out
}

/// Relies on cryptoxide's `blake2b::Blake2b` with a 32-byte output.
#[verifier::external_body]
pub fn blake2b_256(b: &Vec<u8>) -> (r: Vec<u8>)
    ensures
        r@ == blake2b_256_of(b@),
        r@.len() == 32,
{
    let mut h = Blake2b::new(32);
    h.input(b.as_slice());
    let mut out = vec![0u8; 32];
    h.result(&mut out);
    out
}

/// Relies on cryptoxide's `sha3::Keccak256`: a 32-byte digest of the input.
#[verifier::external_body]
pub fn keccak_256(b: &Vec<u8>) -> (r: Vec<u8>)
    ensures
        r@ == keccak_256_of(b@),
        r@.len() == 32,
{
    let mut h = Keccak256::new();
    h.input(b.as_slice());
    let mut out = vec![0u8; 32];
    h.result(&mut out);
    out
}

/// Relies on cryptoxide's `ripemd160::Ripemd160`: a 20-byte digest.
#[verifier::external_body]
pub fn ripemd_160(b: &Vec<u8>) -> (r: Vec<u8>)
    ensures
        r@ == ripemd_160_of(b@),
        r@.len() == 20,
{
    let mut h = Ripemd160::new();
    h.input(b.as_slice());
    let mut out = vec![0u8; 20];
    h.result(&mut out);
    out
}

/// Relies on cryptoxide's `ed25519::verify`: whether the signature checks
/// under the key; a function of the three byte strings alone.
#[verifier::external_body]
pub fn verify_ed25519(pk: &Vec<u8>, msg: &Vec<u8>, sig: &Vec<u8>) -> (r: bool)
    requires
        pk@.len() == 32,
        sig@.len() == 64,
    ensures
        r == ed25519_valid(pk@, msg@, sig@),
{
    cryptoxide::ed25519::verify(
        msg.as_slice(),
        pk.as_slice().try_into().unwrap(),
        sig.as_slice().try_into().unwrap(),
    )
}

/// Relies on secp256k1's `PublicKey::from_slice`,
/// `ecdsa::Signature::from_compact`, `Message::from_digest_slice` and
/// `ecdsa::verify`: the parsers succeed on well-formed encodings, and the
/// verdict is a function of the three byte strings alone.
#[verifier::external_body]
pub fn verify_ecdsa_secp256k1(pk: &Vec<u8>, msg: &Vec<u8>, sig: &Vec<u8>) -> (r: Result<
    bool,
    MachineError,
>)
    ensures
        r is Ok <==> ecdsa_parse_ok(pk@, msg@, sig@),
        r is Ok ==> r->Ok_0 == ecdsa_valid(pk@, msg@, sig@),
        r is Err ==> r->Err_0 == MachineError::Secp256k1Error,
{
    let p = match secp256k1::PublicKey::from_slice(pk.as_slice()) {
        Ok(p) => p,
        Err(_) => return Err(MachineError::Secp256k1Error),
    };
    let s = match secp256k1::ecdsa::Signature::from_compact(sig.as_slice()) {
        Ok(s) => s,
        Err(_) => return Err(MachineError::Secp256k1Error),
    };
    let m = match secp256k1::Message::from_digest_slice(msg.as_slice()) {
        Ok(m) => m,
        Err(_) => return Err(MachineError::Secp256k1Error),
    };
    Ok(secp256k1::ecdsa::verify(&s, m, &p).is_ok())
}

/// Relies on secp256k1's `XOnlyPublicKey::from_slice`,
/// `schnorr::Signature::from_slice` and `schnorr::verify`.
#[verifier::external_body]
pub fn verify_schnorr_secp256k1(pk: &Vec<u8>, msg: &Vec<u8>, sig: &Vec<u8>) -> (r: Result<
    bool,
    MachineError,
>)
    ensures
        r is Ok <==> schnorr_parse_ok(pk@, sig@),
        r is Ok ==> r->Ok_0 == schnorr_valid(pk@, msg@, sig@),
        r is Err ==> r->Err_0 == MachineError::Secp256k1Error,
{
    let p = match secp256k1::XOnlyPublicKey::from_slice(pk.as_slice()) {
        Ok(p) => p,
        Err(_) => return Err(MachineError::Secp256k1Error),
    };
    let s = match secp256k1::schnorr::Signature::from_slice(sig.as_slice()) {
        Ok(s) => s,
        Err(_) => return Err(MachineError::Secp256k1Error),
    };
    Ok(secp256k1::schnorr::verify(&s, msg.as_slice(), &p).is_ok())
}

/// Relies on std's `str::from_utf8`: succeeds exactly on valid UTF-8 and
/// decodes it to its character sequence, as vstd's UTF-8 model states.
#[verifier::external_body]
pub fn decode_utf8_bytes(b: &Vec<u8>) -> (r: Result<String, MachineError>)
    ensures
        r is Ok <==> vstd::utf8::valid_utf8(b@),
        r is Ok ==> r->Ok_0@ == vstd::utf8::decode_utf8(b@),
        r is Err ==> r->Err_0 == MachineError::DecodeUtf8Error,
{
    match core::str::from_utf8(b.as_slice()) {
        Ok(s) => Ok(s.to_string()),
        Err(_) => Err(MachineError::DecodeUtf8Error),
    }
}

} // verus!
