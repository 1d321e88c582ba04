//! secp256k1 secret keys.

use vstd::prelude::*;

verus! {

#[verifier::external_type_specification]
#[verifier::external_body]
pub struct ExSecretKey(secp256k1::SecretKey);

#[verifier::external_type_specification]
#[verifier::external_body]
pub struct ExSecp256k1Error(secp256k1::Error);

/// The integer that bytes denote, most significant byte first.
pub open spec fn be_value(s: Seq<u8>) -> nat
    decreases s.len(),
{
    if s.len() == 0 {
        0
    } else {
        be_value(s.drop_last()) * 256 + s.last() as nat
    }
}

/// The order of the secp256k1 group.
pub open spec fn curve_order() -> nat {
    0xFFFFFFFFFFFFFFFFFFFFFFFFFFFFFFFEBAAEDCE6AF48A03BBFD25E8CD0364141nat
}

/// Bytes that make a secp256k1 secret key: 32 of them, denoting a non-zero
/// integer below the group order.
pub open spec fn secret_key_valid(s: Seq<u8>) -> bool {
    &&& s.len() == 32
    &&& 0 < be_value(s)
    &&& be_value(s) < curve_order()
}

/// The secret key made of 32 valid bytes.
pub uninterp spec fn secret_key_of(bytes: Seq<u8>) -> secp256k1::SecretKey;

/// Calls `secp256k1::SecretKey::from_slice`.
///
/// Trusted: it succeeds exactly on bytes that `secret_key_valid` accepts (the
/// crate checks for 32 bytes, then `secp256k1_ec_seckey_verify`, which accepts
/// a non-zero integer below the group order), and the key holds those bytes.
#[verifier::external_body]
pub(crate) fn secret_key_from_slice(data: &[u8]) -> (r: Result<secp256k1::SecretKey, secp256k1::Error>)
    ensures
        r is Ok <==> secret_key_valid(data@),
        r matches Ok(k) ==> k == secret_key_of(data@),
{
    secp256k1::SecretKey::from_slice(data)
}

} // verus!
