use vstd::prelude::*;
use crate::chunks::bytes_eq;
use crate::errors::IntegrityError;
use crate::hashing::hex_decode;
use crate::hashing::hex_decode_ok;
use crate::hashing::hex_decode_spec;
use crate::hashing::hex_encode;
use crate::hashing::hex_encode_spec;
use crate::hashing::lemma_hex_decode_encode;
use crate::hashing::sha256;
use crate::hashing::sha256_of;

verus! {

/// The verdict on `bytes` against a declared hexadecimal digest:
/// `BadEncoding` when the declared digest is no hexadecimal string,
/// `Mismatch` when the digests differ, success exactly when they agree.
pub open spec fn verify_spec(bytes: Seq<u8>, expected_hex: Seq<char>) -> Result<
    (),
    IntegrityError,
> {
    if !hex_decode_ok(expected_hex) {
        Err(IntegrityError::BadEncoding)
    } else if hex_decode_spec(expected_hex) == sha256_of(bytes) {
        Ok(())
    } else {
        Err(IntegrityError::Mismatch)
    }
}

/// The whole-buffer digest, rendered as lowercase hexadecimal.
pub fn digest_hex(bytes: &Vec<u8>) -> (r: String)
    ensures
        r@ == hex_encode_spec(sha256_of(bytes@)),
{
    let d = sha256(bytes.as_slice());
    hex_encode(d.as_slice())
}

/// Computes the digest of `bytes` and compares it against the declared one.
pub fn verify(bytes: &Vec<u8>, expected_hex: &str) -> (r: Result<(), IntegrityError>)
    ensures
        r == verify_spec(bytes@, expected_hex@),
{
    match hex_decode(expected_hex) {
        None => Err(IntegrityError::BadEncoding),
        Some(expected) => {
            let d = sha256(bytes.as_slice());
            if bytes_eq(&expected, &d) {
                Ok(())
            } else {
                Err(IntegrityError::Mismatch)
            }
        },
    }
}

/// The check accepts a buffer against its own digest: verifying `bytes`
/// against the hexadecimal rendering of their digest always succeeds.
pub proof fn lemma_verify_own_digest(bytes: Seq<u8>)
    ensures
        verify_spec(bytes, hex_encode_spec(sha256_of(bytes))) == Ok::<(), IntegrityError>(()),
{
    lemma_hex_decode_encode(sha256_of(bytes));
}

/// The check blocks a buffer whose digest differs from the declared one:
/// whenever the digests of two buffers differ, verifying the one against the
/// rendering of the other's digest fails with `Mismatch`.
pub proof fn lemma_verify_other_digest(b1: Seq<u8>, b2: Seq<u8>)
    ensures
        sha256_of(b1) != sha256_of(b2) ==> verify_spec(b1, hex_encode_spec(sha256_of(b2)))
            == Err::<(), IntegrityError>(IntegrityError::Mismatch),
{
    lemma_hex_decode_encode(sha256_of(b2));
}

/// Acceptance pins the digest: the check passes `bytes` against a declared
/// digest only when that digest decodes to exactly the digest of `bytes`.
pub proof fn lemma_verify_ok_pins_digest(bytes: Seq<u8>, expected_hex: Seq<char>)
    ensures
        verify_spec(bytes, expected_hex) == Ok::<(), IntegrityError>(()) ==> hex_decode_ok(
            expected_hex,
        ) && hex_decode_spec(expected_hex) == sha256_of(bytes),
{
}

} // verus!
