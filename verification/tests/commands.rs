use pngme::commands::invoke_decode;
use pngme::commands::invoke_encode;
use pngme::commands::invoke_remove;
use pngme::PngError;

const SIGNATURE: [u8; 8] = [0x89, 0x50, 0x4E, 0x47, 0x0D, 0x0A, 0x1A, 0x0A];

#[test]
fn test_encode_decode_remove_round_trip() {
    // A minimal valid datastream: the signature and no chunks.
    let original = SIGNATURE.to_vec();

    let encoded = invoke_encode(original.as_slice(), "ruSt", "secret").unwrap();
    assert_eq!(&encoded[..8], &SIGNATURE);
    assert!(encoded.len() > original.len());

    let decoded = invoke_decode(encoded.as_slice(), "ruSt").unwrap();
    assert_eq!(decoded, Some(String::from("secret")));

    let (message, stripped) = invoke_remove(encoded.as_slice(), "ruSt").unwrap();
    assert_eq!(message, Some(String::from("secret")));
    assert_eq!(stripped, original);
}

#[test]
fn test_decode_missing_chunk() {
    let encoded = invoke_encode(&SIGNATURE, "ruSt", "secret").unwrap();
    assert_eq!(invoke_decode(encoded.as_slice(), "abCd").unwrap(), None);
}

#[test]
fn test_remove_missing_chunk_keeps_bytes() {
    let encoded = invoke_encode(&SIGNATURE, "ruSt", "secret").unwrap();
    let (message, bytes) = invoke_remove(encoded.as_slice(), "abCd").unwrap();
    assert_eq!(message, None);
    assert_eq!(bytes, encoded);
}

#[test]
fn test_encode_rejects_critical_tag() {
    assert_eq!(
        invoke_encode(&SIGNATURE, "RuST", "secret"),
        Err(PngError::PolicyViolation)
    );
}

#[test]
fn test_encode_rejects_public_tag() {
    assert_eq!(
        invoke_encode(&SIGNATURE, "rUST", "secret"),
        Err(PngError::PolicyViolation)
    );
}

#[test]
fn test_encode_rejects_reserved_bit() {
    assert_eq!(
        invoke_encode(&SIGNATURE, "rusT", "secret"),
        Err(PngError::PolicyViolation)
    );
}

#[test]
fn test_encode_rejects_unsafe_to_copy() {
    assert_eq!(
        invoke_encode(&SIGNATURE, "ruST", "secret"),
        Err(PngError::PolicyViolation)
    );
}

#[test]
fn test_encode_rejects_malformed_tag() {
    assert_eq!(
        invoke_encode(&SIGNATURE, "ruS", "secret"),
        Err(PngError::InvalidTypeLength)
    );
    assert_eq!(
        invoke_encode(&SIGNATURE, "ru5T", "secret"),
        Err(PngError::InvalidTypeByte(0x35))
    );
}

#[test]
fn test_encode_rejects_bad_file() {
    assert_eq!(
        invoke_encode("not a png".as_bytes(), "ruSt", "secret"),
        Err(PngError::BadSignature)
    );
    assert_eq!(
        invoke_decode("not a png".as_bytes(), "ruSt"),
        Err(PngError::BadSignature)
    );
    assert_eq!(
        invoke_remove("not a png".as_bytes(), "ruSt"),
        Err(PngError::BadSignature)
    );
}

#[test]
fn test_encode_twice_decodes_first() {
    let once = invoke_encode(&SIGNATURE, "ruSt", "first").unwrap();
    let twice = invoke_encode(once.as_slice(), "ruSt", "second").unwrap();
    assert_eq!(
        invoke_decode(twice.as_slice(), "ruSt").unwrap(),
        Some(String::from("first"))
    );
    let (message, rest) = invoke_remove(twice.as_slice(), "ruSt").unwrap();
    assert_eq!(message, Some(String::from("first")));
    assert_eq!(
        invoke_decode(rest.as_slice(), "ruSt").unwrap(),
        Some(String::from("second"))
    );
}
