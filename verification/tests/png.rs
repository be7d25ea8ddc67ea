use pngme::chunk::Chunk;
use pngme::chunk_type::ChunkType;
use pngme::png::Png;
use pngme::PngError;

const SIGNATURE: [u8; 8] = [0x89, 0x50, 0x4E, 0x47, 0x0D, 0x0A, 0x1A, 0x0A];

fn chunk_of(type_text: &str, data: &str) -> Chunk {
    let chunk_type = ChunkType::from_str(type_text).unwrap();
    Chunk::new(chunk_type, data.as_bytes().to_vec()).unwrap()
}

#[test]
fn test_png_new_is_signature_only() {
    let png = Png::new();
    assert_eq!(png.as_bytes(), SIGNATURE.to_vec());
}

#[test]
fn test_png_parse_signature_only() {
    let png = Png::parse(&SIGNATURE).unwrap();
    assert_eq!(png.as_bytes(), SIGNATURE.to_vec());
}

#[test]
fn test_png_round_trip() {
    let mut png = Png::new();
    png.append_chunk(chunk_of("ruSt", "first message"));
    png.append_chunk(chunk_of("teSt", "second message"));
    let bytes = png.as_bytes();
    let reparsed = Png::parse(bytes.as_slice()).unwrap();
    assert_eq!(png, reparsed);
    assert_eq!(reparsed.as_bytes(), bytes);
}

#[test]
fn test_png_bad_signature() {
    let mut bytes = SIGNATURE.to_vec();
    bytes[0] = 0x88;
    assert_eq!(Png::parse(bytes.as_slice()), Err(PngError::BadSignature));
    assert_eq!(Png::parse(&[]), Err(PngError::BadSignature));
    assert_eq!(Png::parse("not a png".as_bytes()), Err(PngError::BadSignature));

    // The signature decides alone, whatever follows it.
    let mut with_chunk = vec![0u8; 8];
    let mut png = Png::new();
    png.append_chunk(chunk_of("ruSt", "hello"));
    with_chunk.extend_from_slice(&png.as_bytes()[8..]);
    assert_eq!(Png::parse(with_chunk.as_slice()), Err(PngError::BadSignature));
}

#[test]
fn test_png_trailing_garbage() {
    let mut png = Png::new();
    png.append_chunk(chunk_of("ruSt", "hello"));
    let mut bytes = png.as_bytes();
    bytes.extend_from_slice(&[1, 2, 3]);
    assert_eq!(Png::parse(bytes.as_slice()), Err(PngError::ChunkTooShort));
}

#[test]
fn test_png_corrupt_chunk_aborts_parse() {
    let mut png = Png::new();
    png.append_chunk(chunk_of("ruSt", "hello"));
    let mut bytes = png.as_bytes();
    let last = bytes.len() - 1;
    bytes[last] ^= 0x40;
    assert!(matches!(
        Png::parse(bytes.as_slice()),
        Err(PngError::ChunkCrcMismatch { .. })
    ));
}

#[test]
fn test_png_lookup_and_removal() {
    let mut png = Png::new();
    png.append_chunk(chunk_of("ruST", "hello"));

    let found = png.chunk_by_type("ruST").unwrap();
    assert_eq!(found.data_as_text(), String::from("hello"));

    let removed = png.remove_chunk("ruST").unwrap();
    assert_eq!(removed.data_as_text(), String::from("hello"));
    assert!(png.chunk_by_type("ruST").is_none());
}

#[test]
fn test_png_remove_absent_leaves_stream_unchanged() {
    let mut png = Png::new();
    png.append_chunk(chunk_of("ruSt", "hello"));
    let before = png.as_bytes();
    assert!(png.remove_chunk("abCd").is_none());
    assert_eq!(png.as_bytes(), before);
}

#[test]
fn test_png_finds_first_match_only() {
    let mut png = Png::new();
    png.append_chunk(chunk_of("ruSt", "one"));
    png.append_chunk(chunk_of("ruSt", "two"));

    assert_eq!(png.chunk_by_type("ruSt").unwrap().data_as_text(), "one");

    let removed = png.remove_chunk("ruSt").unwrap();
    assert_eq!(removed.data_as_text(), "one");
    assert_eq!(png.chunk_by_type("ruSt").unwrap().data_as_text(), "two");
}

#[test]
fn test_png_malformed_type_text_is_not_found() {
    let mut png = Png::new();
    png.append_chunk(chunk_of("ruSt", "hello"));
    assert!(png.chunk_by_type("toolong").is_none());
    assert!(png.chunk_by_type("ru5t").is_none());
    assert!(png.remove_chunk("ru5t").is_none());
}
