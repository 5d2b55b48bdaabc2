//! What the library asks of ECDSA over secp256k1: whether bytes are a
//! signature, whether bytes are a public key, and whether a signature
//! covers a message under a key. The answers come from the `k256` crate and
//! are taken on trust.

use vstd::prelude::*;
use k256::ecdsa::signature::Verifier;
use k256::ecdsa::{Signature, VerifyingKey};
use k256::pkcs8::DecodePublicKey;

verus! {

/// Whether the bytes are a signature in the fixed layout: two scalars of 32
/// bytes each, both in range and not zero.
pub uninterp spec fn is_signature(bytes: Seq<u8>) -> bool;

/// Whether the bytes are a DER-encoded public key of the curve.
pub uninterp spec fn is_public_key(der: Seq<u8>) -> bool;

/// Whether the signature covers exactly the message under the key. It does
/// not where the key or the signature is malformed.
pub uninterp spec fn signed_by(public_key: Seq<u8>, message: Seq<u8>, signature: Seq<u8>) -> bool;

/// `Signature::from_slice`: whether the bytes parse as a signature; only
/// runs of 64 bytes do.
#[verifier::external_body]
pub(crate) fn signature_parses(bytes: &[u8]) -> (r: bool)
    ensures
        r == is_signature(bytes@),
        r ==> bytes@.len() == 64,
{
    Signature::from_slice(bytes).is_ok()
}

/// `VerifyingKey::from_public_key_der`: whether the bytes parse as a public
/// key.
#[verifier::external_body]
pub(crate) fn public_key_parses(der: &[u8]) -> (r: bool)
    ensures
        r == is_public_key(der@),
{
    VerifyingKey::from_public_key_der(der).is_ok()
}

/// `Verifier::verify` of a `VerifyingKey`, on the key and the signature
/// parsed from their bytes: whether the signature covers the message.
#[verifier::external_body]
pub(crate) fn signature_verifies(public_key: &[u8], message: &[u8], signature: &[u8]) -> (r: bool)
    ensures
        r == signed_by(public_key@, message@, signature@),
        r ==> is_public_key(public_key@) && is_signature(signature@),
{
    match (VerifyingKey::from_public_key_der(public_key), Signature::from_slice(signature)) {
        (Ok(key), Ok(parsed)) => key.verify(message, &parsed).is_ok(),
        _ => false,
    }
}

} // verus!
