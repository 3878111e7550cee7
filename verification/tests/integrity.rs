use p2pfilesend::errors::FileError;
use p2pfilesend::errors::IntegrityError;
use p2pfilesend::errors::error;
use p2pfilesend::hashing::hex_decode;
use p2pfilesend::hashing::hex_encode;
use p2pfilesend::integrity::digest_hex;
use p2pfilesend::integrity::verify;

const EMPTY_SHA256: &str = "e3b0c44298fc1c149afbf4c8996fb92427ae41e4649b934ca495991b7852b855";
const ABC_SHA256: &str = "ba7816bf8f01cfea414140de5dae2223b00361a396177a9cb410ff61f20015ad";

#[test]
fn digest_hex_of_empty_buffer() {
    assert_eq!(digest_hex(&Vec::new()), EMPTY_SHA256);
}

#[test]
fn digest_hex_of_abc() {
    assert_eq!(digest_hex(&vec![0x61, 0x62, 0x63]), ABC_SHA256);
}

#[test]
fn verify_accepts_own_digest() {
    let bytes = vec![1u8, 2, 3, 4, 5];
    let declared = digest_hex(&bytes);
    assert_eq!(verify(&bytes, declared.as_str()), Ok(()));
    assert_eq!(verify(&Vec::new(), EMPTY_SHA256), Ok(()));
    assert_eq!(verify(&vec![0x61, 0x62, 0x63], ABC_SHA256), Ok(()));
}

#[test]
fn verify_rejects_other_digest() {
    let bytes = vec![1u8, 2, 3];
    let other = digest_hex(&vec![9u8, 9, 9]);
    assert_eq!(verify(&bytes, other.as_str()), Err(IntegrityError::Mismatch));
    assert_eq!(verify(&bytes, EMPTY_SHA256), Err(IntegrityError::Mismatch));
}

#[test]
fn verify_rejects_bad_encoding() {
    let bytes = vec![1u8];
    assert_eq!(verify(&bytes, "zz"), Err(IntegrityError::BadEncoding));
    assert_eq!(verify(&bytes, "abc"), Err(IntegrityError::BadEncoding));
    assert_eq!(verify(&bytes, "0g"), Err(IntegrityError::BadEncoding));
}

#[test]
fn hex_encode_known_bytes() {
    assert_eq!(hex_encode(&[]), "");
    assert_eq!(hex_encode(&[0u8, 255, 16, 1]), "00ff1001");
}

#[test]
fn hex_decode_known_strings() {
    assert_eq!(hex_decode("00ff1001"), Some(vec![0u8, 255, 16, 1]));
    assert_eq!(hex_decode(""), Some(Vec::new()));
    assert_eq!(hex_decode("00FF"), Some(vec![0u8, 255]));
    assert_eq!(hex_decode("0"), None);
    assert_eq!(hex_decode("0g"), None);
}

#[test]
fn hex_round_trip() {
    let bytes = vec![0u8, 1, 127, 128, 255, 42];
    assert_eq!(hex_decode(hex_encode(bytes.as_slice()).as_str()), Some(bytes));
}

#[test]
fn error_wraps_reason() {
    assert_eq!(error::<u32>(FileError::NotFound), Err(FileError::NotFound));
    assert_eq!(
        error::<u32>(FileError::Integrity(IntegrityError::Mismatch)),
        Err(FileError::Integrity(IntegrityError::Mismatch))
    );
}
