use pngme::chunk::Chunk;
use pngme::chunk_type::ChunkType;
use pngme::PngError;

fn generate_chunk() -> Chunk {
    let data_length: u32 = 42;
    let chunk_type = "RuSt".as_bytes();
    let message_bytes = "This is where your secret message will be!".as_bytes();
    let crc: u32 = 2882656334;

    let chunk_data: Vec<u8> = data_length
        .to_be_bytes()
        .iter()
        .chain(chunk_type.iter())
        .chain(message_bytes.iter())
        .chain(crc.to_be_bytes().iter())
        .copied()
        .collect();

    Chunk::parse(chunk_data.as_ref()).unwrap()
}

#[test]
fn test_new_chunk() {
    let chunk_type = ChunkType::from_str("RuSt").unwrap();
    let data = "This is where your secret message will be!"
        .as_bytes()
        .to_vec();
    let chunk = Chunk::new(chunk_type, data.clone()).unwrap();
    assert_eq!(chunk.length(), 42);
    assert_eq!(chunk.data(), data.as_slice());
    assert_eq!(chunk.crc(), 2882656334);
}

#[test]
fn test_chunk_length() {
    let chunk = generate_chunk();
    assert_eq!(chunk.length(), 42);
}

#[test]
fn test_chunk_type() {
    let chunk = generate_chunk();
    assert_eq!(chunk.chunk_type().to_text(), String::from("RuSt"));
}

#[test]
fn test_chunk_string() {
    let chunk = generate_chunk();
    let chunk_string = chunk.data_as_text();
    let expected_chunk_string = String::from("This is where your secret message will be!");
    assert_eq!(chunk_string, expected_chunk_string);
}

#[test]
fn test_chunk_crc() {
    let chunk = generate_chunk();
    assert_eq!(chunk.crc(), 2882656334);
}

#[test]
fn test_chunk_as_bytes() {
    let chunk = generate_chunk();
    // Serialize to network-order byte array.
    let chunk_bytes = chunk.as_bytes();

    let roundtrip = Chunk::parse(chunk_bytes.as_slice()).unwrap();

    assert_eq!(chunk, roundtrip)
}

#[test]
fn test_valid_chunk_from_bytes() {
    let data_length: u32 = 42;
    let chunk_type = "RuSt".as_bytes();
    let message_bytes = "This is where your secret message will be!".as_bytes();
    let crc: u32 = 2882656334;

    let chunk_data: Vec<u8> = data_length
        .to_be_bytes()
        .iter()
        .chain(chunk_type.iter())
        .chain(message_bytes.iter())
        .chain(crc.to_be_bytes().iter())
        .copied()
        .collect();

    let chunk = Chunk::parse(chunk_data.as_ref()).unwrap();

    let chunk_string = chunk.data_as_text();
    let expected_chunk_string = String::from("This is where your secret message will be!");

    assert_eq!(chunk.length(), 42);
    assert_eq!(chunk.chunk_type().to_text(), String::from("RuSt"));
    assert_eq!(chunk_string, expected_chunk_string);
    assert_eq!(chunk.crc(), 2882656334);
}

#[test]
fn test_invalid_chunk_from_bytes() {
    let data_length: u32 = 42;
    let chunk_type = "RuSt".as_bytes();
    let message_bytes = "This is where your secret message will be!".as_bytes();
    let crc: u32 = 2882656333;

    let chunk_data: Vec<u8> = data_length
        .to_be_bytes()
        .iter()
        .chain(chunk_type.iter())
        .chain(message_bytes.iter())
        .chain(crc.to_be_bytes().iter())
        .copied()
        .collect();

    let chunk = Chunk::parse(chunk_data.as_ref());

    assert!(chunk.is_err());
}

#[test]
fn test_chunk_trait_impls() {
    let data_length: u32 = 42;
    let chunk_type = "RuSt".as_bytes();
    let message_bytes = "This is where your secret message will be!".as_bytes();
    let crc: u32 = 2882656334;

    let chunk_data: Vec<u8> = data_length
        .to_be_bytes()
        .iter()
        .chain(chunk_type.iter())
        .chain(message_bytes.iter())
        .chain(crc.to_be_bytes().iter())
        .copied()
        .collect();

    let chunk: Chunk = Chunk::parse(chunk_data.as_ref()).unwrap();

    let _chunk_string = format!("{}", chunk.data_as_text());
}

#[test]
fn test_chunk_too_short() {
    let bytes = [0u8; 11];
    assert_eq!(Chunk::parse(&bytes), Err(PngError::ChunkTooShort));
}

#[test]
fn test_chunk_length_mismatch() {
    // Declared length 3, but only 2 data bytes follow the type.
    let mut bytes: Vec<u8> = vec![0, 0, 0, 3];
    bytes.extend_from_slice("RuSt".as_bytes());
    bytes.extend_from_slice(&[10, 20]);
    bytes.extend_from_slice(&[0, 0, 0, 0]);
    assert_eq!(Chunk::parse(bytes.as_slice()), Err(PngError::ChunkLengthMismatch));
}

#[test]
fn test_chunk_crc_mismatch_payload() {
    let chunk = generate_chunk();
    let mut bytes = chunk.as_bytes();
    let last = bytes.len() - 1;
    bytes[last] ^= 1;
    let declared = chunk.crc() ^ 1;
    assert_eq!(
        Chunk::parse(bytes.as_slice()),
        Err(PngError::ChunkCrcMismatch { declared, computed: chunk.crc() })
    );
}

#[test]
fn test_chunk_data_too_large() {
    let chunk_type = ChunkType::from_str("ruSt").unwrap();
    let data = vec![0u8; 0x8000_0000];
    assert_eq!(Chunk::new(chunk_type, data), Err(PngError::DataTooLarge));
}

#[test]
fn test_chunk_text_replaces_invalid_utf8() {
    let chunk_type = ChunkType::from_str("ruSt").unwrap();
    let chunk = Chunk::new(chunk_type, vec![0xFF, 0x68, 0x69]).unwrap();
    assert_eq!(chunk.data_as_text(), String::from("\u{FFFD}hi"));
}

#[test]
fn test_chunk_bit_flips_are_detected() {
    // Flipping any single bit in the serialized type or data region
    // must fail the parse: with a CRC mismatch, except where the flip
    // leaves a type byte that is no longer an ASCII letter, which the
    // type check rejects first.
    let chunk = generate_chunk();
    let bytes = chunk.as_bytes();
    let data_end = bytes.len() - 4;
    for pos in 4..data_end {
        for bit in 0..8 {
            let mut mutated = bytes.clone();
            mutated[pos] ^= 1u8 << bit;
            let result = Chunk::parse(mutated.as_slice());
            let flipped = mutated[pos];
            let still_letter = (0x41..=0x5A).contains(&(flipped & 0xDF));
            if pos >= 8 || still_letter {
                assert!(matches!(result, Err(PngError::ChunkCrcMismatch { .. })));
            } else {
                assert_eq!(result, Err(PngError::InvalidTypeByte(flipped)));
            }
        }
    }
}
